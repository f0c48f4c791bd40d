//! Recovering a page's data.
//!
//! A page carries its data as JSON: in an attribute of a `div`, or, once the
//! page's scripts have run, in an assignment to `window.UGAPP.store`, either
//! as an object or as a string literal handed to `JSON.parse`.

use crate::html;
use crate::json;
use crate::json::{Json, JsonView};
use crate::text;
use vstd::prelude::*;
use vstd::utf8;

verus! {

/// `char::from_u32` gives the character for every Unicode scalar value, and
/// for no other number.
pub assume_specification[ char::from_u32 ](i: u32) -> (r: Option<char>)
    ensures
        r == (if utf8::is_scalar(i) {
            Some(i as char)
        } else {
            None
        }),
;

// ----- Assignments -----

/// What stands behind the `=` of the first assignment to `lhs`, from position
/// `from` on. Mentions of `lhs` that are not assigned to, such as those that
/// are compared with `==`, are passed over.
pub open spec fn assigned(page: Seq<char>, lhs: Seq<char>, from: int) -> Option<Seq<char>>
    decreases page.len() - from,
{
    match text::search::first_at(page, lhs, from) {
        Some(i) => if from <= i && i + lhs.len() <= page.len() && lhs.len() > 0 {
            match text::search::without_prefix(
                text::trim::trimmed_start(page.skip(i + lhs.len())),
                "="@,
            ) {
                Some(rest) => if "="@.is_prefix_of(rest) {
                    assigned(page, lhs, i + lhs.len())
                } else {
                    Some(rest)
                },
                None => assigned(page, lhs, i + lhs.len()),
            }
        } else {
            None
        },
        None => None,
    }
}

/// What stands behind the `=` of the first assignment to `lhs`.
pub fn find_assignment(page: &str, lhs: &str) -> (r: Option<String>)
    requires
        lhs@.len() > 0,
    ensures
        text::view_opt(r) == assigned(page@, lhs@, 0),
{
    let chars = text::chars_of(page);
    let needle = text::chars_of(lhs);
    let mut from: usize = 0;
    loop
        invariant
            chars@ == page@,
            needle@ == lhs@,
            lhs@.len() > 0,
            from <= chars@.len(),
            assigned(page@, lhs@, 0) == assigned(page@, lhs@, from as int),
        decreases chars@.len() - from,
    {
        match text::search::find(&chars, &needle, from) {
            Some(i) => {
                let end = i + needle.len();
                let after = text::slice_of(&chars, end, chars.len());
                assert(after@ =~= page@.skip(i + lhs@.len()));
                let trimmed = text::trim::trim_start(after.as_str());
                if let Some(rest) = text::search::strip_prefix(trimmed.as_str(), "=") {
                    if !text::search::starts_with(rest.as_str(), "=") {
                        return Some(rest);
                    }
                }
                from = end;
            },
            None => {
                return None;
            },
        }
    }
}

// ----- Objects -----

/// Where the scan for a closing brace stands: how many braces are open, the
/// quote of the string that it is in, and whether a backslash came just
/// before.
#[derive(Debug, Clone, Copy, PartialEq, Eq, Structural)]
pub struct BraceScan {
    pub depth: usize,
    pub quote: Option<char>,
    pub escaped: bool,
}

/// The scan behind one more character. Inside a string only the closing quote
/// counts, unless a backslash stands before it.
pub open spec fn scanned(s: BraceScan, c: char) -> BraceScan {
    match s.quote {
        Some(q) => if s.escaped {
            BraceScan { escaped: false, ..s }
        } else if c == '\\' {
            BraceScan { escaped: true, ..s }
        } else if c == q {
            BraceScan { quote: None, ..s }
        } else {
            s
        },
        None => if c == '"' || c == '\'' {
            BraceScan { quote: Some(c), ..s }
        } else if c == '{' {
            BraceScan { depth: (s.depth + 1) as usize, ..s }
        } else if c == '}' {
            BraceScan { depth: (s.depth - 1) as usize, ..s }
        } else {
            s
        },
    }
}

/// The position of the brace that brings the scan back to no open brace.
pub open spec fn closing(chars: Seq<char>, i: int, s: BraceScan) -> Option<int>
    decreases chars.len() - i,
{
    if i < 0 || i >= chars.len() {
        None
    } else {
        let after = scanned(s, chars[i]);
        if s.quote is None && chars[i] == '}' && after.depth == 0 {
            Some(i)
        } else {
            closing(chars, i + 1, after)
        }
    }
}

/// The first object of a text: from its first `{` to the `}` that closes it,
/// braces inside string literals left aside.
pub open spec fn object_in(s: Seq<char>) -> Option<Seq<char>> {
    let start = text::split::first_where(s, |c: char| c == '{', 0);
    let fresh = BraceScan { depth: 0, quote: None, escaped: false };
    if start < s.len() {
        match closing(s, start, fresh) {
            Some(end) => Some(s.subrange(start, end + 1)),
            None => None,
        }
    } else {
        None
    }
}

fn open_brace(c: char) -> (b: bool)
    ensures
        b == (c == '{'),
{
    c == '{'
}

/// The scan behind one more character.
fn scan(s: BraceScan, c: char) -> (out: BraceScan)
    requires
        s.depth < usize::MAX,
        s.quote is None && c == '}' ==> s.depth > 0,
    ensures
        out == scanned(s, c),
{
    match s.quote {
        Some(q) => if s.escaped {
            BraceScan { depth: s.depth, quote: s.quote, escaped: false }
        } else if c == '\\' {
            BraceScan { depth: s.depth, quote: s.quote, escaped: true }
        } else if c == q {
            BraceScan { depth: s.depth, quote: None, escaped: s.escaped }
        } else {
            s
        },
        None => if c == '"' || c == '\'' {
            BraceScan { depth: s.depth, quote: Some(c), escaped: s.escaped }
        } else if c == '{' {
            BraceScan { depth: s.depth + 1, quote: s.quote, escaped: s.escaped }
        } else if c == '}' {
            BraceScan { depth: s.depth - 1, quote: s.quote, escaped: s.escaped }
        } else {
            s
        },
    }
}

/// The first object of a text.
pub fn balanced_braces(s: &str) -> (r: Option<String>)
    ensures
        text::view_opt(r) == object_in(s@),
{
    let chars = text::chars_of(s);
    let len = chars.len();
    let start = text::split::find_where(&chars, open_brace, 0, Ghost(|c: char| c == '{'));
    if start >= chars.len() {
        return None;
    }
    let ghost fresh = BraceScan { depth: 0, quote: None, escaped: false };
    let mut state = BraceScan { depth: 0, quote: None, escaped: false };
    let mut i: usize = start;
    while i < chars.len()
        invariant
            chars@ == s@,
            len == chars@.len(),
            start <= i <= chars@.len(),
            start < chars@.len(),
            chars@[start as int] == '{',
            start == text::split::first_where(s@, |c: char| c == '{', 0),
            fresh == (BraceScan { depth: 0, quote: None, escaped: false }),
            state.depth <= i - start,
            i == start ==> state == fresh,
            i > start ==> state.depth > 0,
            closing(s@, start as int, fresh) == closing(s@, i as int, state),
        decreases chars@.len() - i,
    {
        let c = chars[i];
        let after = scan(state, c);
        if state.quote.is_none() && c == '}' && after.depth == 0 {
            return Some(text::slice_of(&chars, start, i + 1));
        }
        state = after;
        i = i + 1;
    }
    None
}

/// The first object of a text is a piece of the text from a `{` to a `}`.
pub proof fn objects_are_braced(s: Seq<char>)
    ensures
        object_in(s) matches Some(o) ==> o.len() >= 2 && o[0] == '{' && o.last() == '}'
            && text::search::contains(s, o),
{
    let f = |c: char| c == '{';
    let start = text::split::first_where(s, f, 0);
    let fresh = BraceScan { depth: 0, quote: None, escaped: false };
    text::split::first_where_is_first(s, f, 0);
    if start < s.len() {
        closing_is_brace(s, start, fresh);
        match closing(s, start, fresh) {
            Some(end) => {
                let o = s.subrange(start, end + 1);
                assert(s[start] == '{');
                assert(end > start);
                assert(text::search::occurs_at(s, o, start));
            },
            None => {},
        }
    }
}

/// The scan ends at a closing brace, at or behind where it started.
proof fn closing_is_brace(chars: Seq<char>, i: int, s: BraceScan)
    ensures
        closing(chars, i, s) matches Some(end) ==> i <= end < chars.len() && chars[end] == '}',
    decreases chars.len() - i,
{
    if 0 <= i < chars.len() {
        closing_is_brace(chars, i + 1, scanned(s, chars[i]));
    }
}

/// The scan sees no further than the brace at which it ends: over the same
/// characters, `k` positions on, it ends `k` positions on.
proof fn closing_moves(a: Seq<char>, b: Seq<char>, i: int, k: int, s: BraceScan)
    requires
        0 <= i,
        0 <= i + k,
        closing(a, i, s) is Some,
        closing(a, i, s)->0 + k < b.len(),
        forall|j: int| i <= j <= closing(a, i, s)->0 ==> #[trigger] a[j] == b[j + k],
    ensures
        closing(b, i + k, s) == Some(closing(a, i, s)->0 + k),
    decreases a.len() - i,
{
    closing_is_brace(a, i, s);
    let after = scanned(s, a[i]);
    assert(a[i] == b[i + k]);
    if !(s.quote is None && a[i] == '}' && after.depth == 0) {
        closing_is_brace(a, i + 1, after);
        closing_moves(a, b, i + 1, k, after);
    }
}

/// A text that ends before that brace has none that ends the scan.
proof fn closing_needs_its_end(a: Seq<char>, b: Seq<char>, i: int, k: int, s: BraceScan)
    requires
        0 <= i,
        0 <= i + k,
        closing(a, i, s) is Some,
        b.len() <= closing(a, i, s)->0 + k,
        forall|j: int| i <= j < b.len() - k ==> #[trigger] a[j] == b[j + k],
    ensures
        closing(b, i + k, s) is None,
    decreases a.len() - i,
{
    closing_is_brace(a, i, s);
    if i + k < b.len() {
        let after = scanned(s, a[i]);
        assert(a[i] == b[i + k]);
        closing_needs_its_end(a, b, i + 1, k, after);
    }
}

/// The first object of a text stays what it is: it is the first object of
/// itself, and of whatever the text or itself goes on with. It is the
/// shortest: no shorter piece from its first brace on holds an object.
pub proof fn objects_stand_alone(s: Seq<char>, more: Seq<char>)
    requires
        object_in(s) is Some,
    ensures
        object_in(object_in(s)->0) == object_in(s),
        object_in(s + more) == object_in(s),
        object_in(object_in(s)->0 + more) == object_in(s),
        forall|n: int|
            0 <= n < (object_in(s)->0).len() ==> object_in(#[trigger] (object_in(s)->0).take(n)) is None,
{
    let f = |c: char| c == '{';
    let fresh = BraceScan { depth: 0, quote: None, escaped: false };
    let start = text::split::first_where(s, f, 0);
    let o = object_in(s)->0;
    let end = closing(s, start, fresh)->0;
    text::split::first_where_is_first(s, f, 0);
    closing_is_brace(s, start, fresh);
    assert(o == s.subrange(start, end + 1));
    assert(o[0] == s[start]);
    let all = s + more;
    assert(all[start] == s[start]);
    assert forall|j: int| 0 <= j < start implies !f(#[trigger] all[j]) by {
        assert(all[j] == s[j]);
    }
    text::split::first_where_found(all, f, 0, start);
    closing_moves(s, all, start, 0, fresh);
    assert(all.subrange(start, end + 1) =~= o);
    text::split::first_where_found(o, f, 0, 0);
    closing_moves(s, o, start, -start, fresh);
    assert(o.subrange(0, end - start + 1) =~= o);
    let longer = o + more;
    assert(longer[0] == '{');
    text::split::first_where_found(longer, f, 0, 0);
    closing_moves(s, longer, start, -start, fresh);
    assert(longer.subrange(0, end - start + 1) =~= o);
    assert forall|n: int| 0 <= n < o.len() implies object_in(#[trigger] o.take(n)) is None by {
        let part = o.take(n);
        if n > 0 {
            assert(part[0] == '{');
            text::split::first_where_found(part, f, 0, 0);
            closing_needs_its_end(s, part, start, -start, fresh);
        }
    }
}

// ----- String literals -----

/// What a hexadecimal digit stands for.
pub open spec fn hex_value(c: char) -> u32 {
    if '0' <= c <= '9' {
        (c as u32 - 0x30) as u32
    } else if 'a' <= c <= 'f' {
        (c as u32 - 0x57) as u32
    } else {
        (c as u32 - 0x37) as u32
    }
}

/// The number that four hexadecimal digits at position `at` stand for.
pub open spec fn hex4(s: Seq<char>, at: int) -> Option<u32> {
    if 0 <= at && at + 4 <= s.len() && text::is_hex_digit(s[at]) && text::is_hex_digit(s[at + 1])
        && text::is_hex_digit(s[at + 2]) && text::is_hex_digit(s[at + 3]) {
        Some(
            (hex_value(s[at]) * 0x1000 + hex_value(s[at + 1]) * 0x100 + hex_value(s[at + 2]) * 0x10
                + hex_value(s[at + 3])) as u32,
        )
    } else {
        None
    }
}

/// The character that `\u` with digits at position `at` stands for, and the
/// position behind it. A high surrogate needs the low one right behind it.
pub open spec fn unicode_at(s: Seq<char>, at: int) -> Option<(char, int)> {
    match hex4(s, at) {
        None => None,
        Some(hi) => if 0xD800 <= hi <= 0xDBFF {
            if at + 6 <= s.len() && s[at + 4] == '\\' && s[at + 5] == 'u' {
                match hex4(s, at + 6) {
                    Some(lo) => if 0xDC00 <= lo <= 0xDFFF {
                        Some(
                            (
                                ((0x10000 + (hi - 0xD800) * 0x400 + (lo - 0xDC00)) as u32) as char,
                                at + 10,
                            ),
                        )
                    } else {
                        None
                    },
                    None => None,
                }
            } else {
                None
            }
        } else if 0xDC00 <= hi <= 0xDFFF {
            None
        } else {
            Some((hi as char, at + 4))
        },
    }
}

/// The character that the escape at position `at`, behind its backslash,
/// stands for, and the position behind it.
pub open spec fn escape_at(s: Seq<char>, at: int) -> Option<(char, int)> {
    if at < 0 || at >= s.len() {
        None
    } else {
        match s[at] {
            'n' => Some(('\n', at + 1)),
            'r' => Some(('\r', at + 1)),
            't' => Some(('\t', at + 1)),
            'b' => Some(('\u{8}', at + 1)),
            'f' => Some(('\u{c}', at + 1)),
            'u' => unicode_at(s, at + 1),
            other => Some((other, at + 1)),
        }
    }
}

/// What a string literal says from position `i` up to its closing quote; none
/// where it is not closed or an escape is malformed.
pub open spec fn literal_from(s: Seq<char>, quote: char, i: int) -> Option<Seq<char>>
    decreases s.len() - i,
{
    if i < 0 || i >= s.len() {
        None
    } else if s[i] == quote {
        Some(Seq::empty())
    } else {
        let (c, after) = if s[i] != '\\' {
            (s[i], i + 1)
        } else {
            match escape_at(s, i + 1) {
                Some((c, after)) => (c, after),
                None => (s[i], i),
            }
        };
        if i < after <= s.len() {
            match literal_from(s, quote, after) {
                Some(rest) => Some(seq![c] + rest),
                None => None,
            }
        } else {
            None
        }
    }
}

/// What the string literal at the start of `s` says.
pub open spec fn literal(s: Seq<char>) -> Option<Seq<char>> {
    if s.len() > 0 && (s[0] == '"' || s[0] == '\'') {
        literal_from(s, s[0], 1)
    } else {
        None
    }
}

fn digit_of(c: char) -> (n: u32)
    requires
        text::is_hex_digit(c),
    ensures
        n == hex_value(c),
        n < 16,
{
    if '0' <= c && c <= '9' {
        c as u32 - 0x30
    } else if 'a' <= c && c <= 'f' {
        c as u32 - 0x57
    } else {
        c as u32 - 0x37
    }
}

/// The number that four hexadecimal digits at position `at` stand for.
pub fn read_hex4(chars: &[char], at: usize) -> (r: Option<u32>)
    ensures
        r == hex4(chars@, at as int),
{
    if at > chars.len() || chars.len() - at < 4 {
        return None;
    }
    let (a, b, c, d) = (chars[at], chars[at + 1], chars[at + 2], chars[at + 3]);
    if !text::hex_digit(a) || !text::hex_digit(b) || !text::hex_digit(c) || !text::hex_digit(d) {
        return None;
    }
    Some(digit_of(a) * 0x1000 + digit_of(b) * 0x100 + digit_of(c) * 0x10 + digit_of(d))
}

fn read_unicode(chars: &[char], at: usize) -> (r: Option<(char, usize)>)
    requires
        at <= chars@.len(),
    ensures
        unicode_at(chars@, at as int) == (match r {
            Some((c, after)) => Some((c, after as int)),
            None => None,
        }),
        r matches Some((c, after)) ==> at < after <= chars@.len(),
{
    let hi = match read_hex4(chars, at) {
        Some(n) => n,
        None => {
            return None;
        },
    };
    if 0xD800 <= hi && hi <= 0xDBFF {
        if chars.len() - at < 6 || chars[at + 4] != '\\' || chars[at + 5] != 'u' {
            return None;
        }
        let lo = match read_hex4(chars, at + 6) {
            Some(n) => n,
            None => {
                return None;
            },
        };
        if lo < 0xDC00 || lo > 0xDFFF {
            return None;
        }
        match char::from_u32(0x10000 + (hi - 0xD800) * 0x400 + (lo - 0xDC00)) {
            Some(c) => Some((c, at + 10)),
            None => None,
        }
    } else {
        assert(at + 4 <= chars.len());
        match char::from_u32(hi) {
            Some(c) => Some((c, at + 4)),
            None => None,
        }
    }
}

fn read_escape(chars: &[char], at: usize) -> (r: Option<(char, usize)>)
    requires
        at <= chars@.len(),
    ensures
        escape_at(chars@, at as int) == (match r {
            Some((c, after)) => Some((c, after as int)),
            None => None,
        }),
        r matches Some((c, after)) ==> at < after <= chars@.len(),
{
    if at >= chars.len() {
        return None;
    }
    match chars[at] {
        'n' => Some(('\n', at + 1)),
        'r' => Some(('\r', at + 1)),
        't' => Some(('\t', at + 1)),
        'b' => Some(('\u{8}', at + 1)),
        'f' => Some(('\u{c}', at + 1)),
        'u' => read_unicode(chars, at + 1),
        other => Some((other, at + 1)),
    }
}

/// What the string literal at the start of `s` says.
pub fn js_string_literal(s: &str) -> (r: Option<String>)
    ensures
        text::view_opt(r) == literal(s@),
{
    let chars = text::chars_of(s);
    if chars.len() == 0 {
        return None;
    }
    let quote = chars[0];
    if quote != '"' && quote != '\'' {
        return None;
    }
    let mut out = String::new();
    let mut i: usize = 1;
    let ghost goal = literal_from(s@, quote, 1);
    while i < chars.len()
        invariant
            chars@ == s@,
            1 <= i <= chars@.len(),
            goal == literal(s@),
            goal == (match literal_from(s@, quote, i as int) {
                Some(rest) => Some(out@ + rest),
                None => None,
            }),
        decreases chars@.len() - i,
    {
        let c = chars[i];
        if c == quote {
            assert(out@ + Seq::<char>::empty() =~= out@);
            return Some(out);
        }
        let (d, after) = if c != '\\' {
            (c, i + 1)
        } else {
            match read_escape(&chars, i + 1) {
                Some((d, after)) => (d, after),
                None => {
                    return None;
                },
            }
        };
        let ghost before = out@;
        out.push(d);
        proof {
            if let Some(rest) = literal_from(s@, quote, after as int) {
                assert(before + (seq![d] + rest) =~= out@ + rest);
            }
        }
        i = after;
    }
    None
}

/// `p` is one way to write the character `c` in a literal with this quote: the
/// character itself, or an escape that stands for it.
pub open spec fn spells(p: Seq<char>, quote: char, c: char) -> bool {
    ||| p == seq![c] && c != quote && c != '\\'
    ||| p.len() > 1 && p[0] == '\\' && escape_at(p, 1) == Some((c, p.len() as int))
}

/// The texts of `parts` one after the other.
pub open spec fn run_on(parts: Seq<Seq<char>>) -> Seq<char>
    decreases parts.len(),
{
    if parts.len() == 0 {
        Seq::empty()
    } else {
        parts[0] + run_on(parts.drop_first())
    }
}

/// An escape says the same wherever it stands.
proof fn escape_moves(p: Seq<char>, s: Seq<char>, i: int)
    requires
        0 <= i,
        i + p.len() <= s.len(),
        s.subrange(i, i + p.len()) == p,
        p.len() > 1,
        escape_at(p, 1) is Some,
        (escape_at(p, 1)->0).1 == p.len(),
    ensures
        escape_at(s, i + 1) == Some(((escape_at(p, 1)->0).0, i + p.len())),
{
    assert forall|j: int| 0 <= j < p.len() implies #[trigger] p[j] == s[i + j] by {
        assert(s.subrange(i, i + p.len())[j] == s[i + j]);
    }
    assert(p[1] == s[i + 1]);
    if p[1] == 'u' {
        hex4_moves(p, s, i, 2);
        let hi = hex4(p, 2)->0;
        if 0xD800 <= hi <= 0xDBFF {
            assert(p[6] == s[i + 6] && p[7] == s[i + 7]);
            hex4_moves(p, s, i, 8);
        }
    }
}

proof fn hex4_moves(p: Seq<char>, s: Seq<char>, i: int, at: int)
    requires
        0 <= i,
        0 <= at,
        i + p.len() <= s.len(),
        forall|j: int| 0 <= j < p.len() ==> #[trigger] p[j] == s[i + j],
    ensures
        hex4(p, at) is Some ==> hex4(s, i + at) == hex4(p, at),
{
    if at + 4 <= p.len() {
        assert(p[at] == s[i + at] && p[at + 1] == s[i + (at + 1)] && p[at + 2] == s[i + (at + 2)]
            && p[at + 3] == s[i + (at + 3)]);
    }
}

proof fn literal_from_parts(
    s: Seq<char>,
    quote: char,
    i: int,
    parts: Seq<Seq<char>>,
    said: Seq<char>,
    more: Seq<char>,
)
    requires
        0 <= i <= s.len(),
        quote != '\\',
        s.skip(i) == run_on(parts) + seq![quote] + more,
        parts.len() == said.len(),
        forall|k: int| 0 <= k < parts.len() ==> spells(#[trigger] parts[k], quote, said[k]),
    ensures
        literal_from(s, quote, i) == Some(said),
    decreases parts.len(),
{
    let rest = run_on(parts) + seq![quote] + more;
    if parts.len() == 0 {
        assert(rest[0] == quote);
        assert(s[i] == s.skip(i)[0]);
        assert(said =~= Seq::empty());
    } else {
        let p = parts[0];
        let tail = parts.drop_first();
        assert(spells(p, quote, said[0]));
        assert(rest =~= p + (run_on(tail) + seq![quote] + more));
        assert(s.subrange(i, i + p.len()) =~= p) by {
            assert forall|j: int| 0 <= j < p.len() implies s[i + j] == p[j] by {
                assert(s.skip(i)[j] == rest[j]);
            }
        }
        assert(s[i] == s.subrange(i, i + p.len())[0]);
        let next = i + p.len();
        assert(s.skip(next) =~= s.skip(i).skip(p.len() as int));
        assert(s.skip(next) =~= run_on(tail) + seq![quote] + more);
        assert forall|k: int| 0 <= k < tail.len() implies spells(
            #[trigger] tail[k],
            quote,
            said.drop_first()[k],
        ) by {
            assert(tail[k] == parts[k + 1]);
        }
        literal_from_parts(s, quote, next, tail, said.drop_first(), more);
        if !(p == seq![said[0]] && said[0] != quote && said[0] != '\\') {
            escape_moves(p, s, i);
        }
        assert(seq![said[0]] + said.drop_first() =~= said);
    }
}

/// However the characters of a text are written in a literal, as they are or
/// as escapes, reading the literal gives the text, whatever follows it.
pub proof fn literals_read_back(
    quote: char,
    parts: Seq<Seq<char>>,
    said: Seq<char>,
    more: Seq<char>,
)
    requires
        quote == '"' || quote == '\'',
        parts.len() == said.len(),
        forall|k: int| 0 <= k < parts.len() ==> spells(#[trigger] parts[k], quote, said[k]),
    ensures
        literal(seq![quote] + run_on(parts) + seq![quote] + more) == Some(said),
{
    let s = seq![quote] + run_on(parts) + seq![quote] + more;
    assert(s[0] == quote);
    assert(s.skip(1) =~= run_on(parts) + seq![quote] + more);
    literal_from_parts(s, quote, 1, parts, said, more);
}

/// A character as a literal with this quote has it: the quote and the
/// backslash behind a backslash, the control characters that have a letter as
/// that, and any other as it is.
pub open spec fn escaped_char(c: char, quote: char) -> Seq<char> {
    if c == quote || c == '\\' {
        seq!['\\', c]
    } else if c == '\n' {
        seq!['\\', 'n']
    } else if c == '\r' {
        seq!['\\', 'r']
    } else if c == '\t' {
        seq!['\\', 't']
    } else if c == '\u{8}' {
        seq!['\\', 'b']
    } else if c == '\u{c}' {
        seq!['\\', 'f']
    } else {
        seq![c]
    }
}

/// A text as a literal with this quote has it.
pub open spec fn escaped(said: Seq<char>, quote: char) -> Seq<char> {
    run_on(said.map_values(|c: char| escaped_char(c, quote)))
}

/// Reading back an escaped text gives the text.
pub proof fn escaped_texts_read_back(quote: char, said: Seq<char>, more: Seq<char>)
    requires
        quote == '"' || quote == '\'',
    ensures
        literal(seq![quote] + escaped(said, quote) + seq![quote] + more) == Some(said),
{
    let parts = said.map_values(|c: char| escaped_char(c, quote));
    assert forall|k: int| 0 <= k < parts.len() implies spells(#[trigger] parts[k], quote, said[k]) by {
        assert(parts[k] == escaped_char(said[k], quote));
    }
    literals_read_back(quote, parts, said, more);
}

// ----- The data of a page -----

/// The document that stands behind an assignment: an object, or a string
/// literal handed to `JSON.parse`.
pub open spec fn assigned_text(rhs: Seq<char>) -> Option<Seq<char>> {
    let rhs = text::trim::trimmed_start(rhs);
    match text::search::without_prefix(rhs, "JSON.parse("@) {
        Some(after) => literal(text::trim::trimmed_start(after)),
        None => object_in(rhs),
    }
}

/// The JSON text of the store that a page's script assigns.
pub open spec fn script_text(page: Seq<char>) -> Option<Seq<char>> {
    match assigned(page, "window.UGAPP.store"@, 0) {
        Some(rhs) => assigned_text(rhs),
        None => None,
    }
}

/// A store, in the place that it has in the data of a page.
pub open spec fn wrapped(store: JsonView) -> JsonView {
    JsonView::Object(seq![("store"@, store)])
}

/// The JSON text of the first of a list of attribute values.
pub open spec fn div_text(attrs: Option<Seq<Option<Seq<char>>>>) -> Option<Seq<char>> {
    match attrs {
        Some(list) => if list.len() > 0 {
            list[0]
        } else {
            None
        },
        None => None,
    }
}

/// The data of a page, from the values of its `div`'s attribute and from its
/// text: the `div` comes first.
pub open spec fn store_of(attrs: Option<Seq<Option<Seq<char>>>>, page: Seq<char>) -> Option<
    JsonView,
> {
    let from_div = match div_text(attrs) {
        Some(raw) => json::parsed(raw),
        None => None,
    };
    let from_script = match script_text(page) {
        Some(raw) => match json::parsed(raw) {
            Some(store) => Some(wrapped(store)),
            None => None,
        },
        None => None,
    };
    match from_div {
        Some(v) => Some(v),
        None => from_script,
    }
}

/// The data that the `div` of a page holds.
pub fn extract_js_store_from_div(page: &str) -> (r: Option<Json>)
    ensures
        (match r {
            Some(j) => Some(j@),
            None => None,
        }) == (match div_text(html::attrs_of(page@, "div.js-store"@, "data-content"@)) {
            Some(raw) => json::parsed(raw),
            None => None,
        }),
{
    match html::select_attrs(page, "div.js-store", "data-content") {
        Some(list) => if list.len() > 0 {
            assert(html::attr_views(list@)[0] == text::view_opt(list@[0]));
            match &list[0] {
                Some(raw) => json::parse(raw.as_str()),
                None => None,
            }
        } else {
            None
        },
        None => None,
    }
}

/// The JSON text of the store that a page's script assigns.
pub fn find_script_text(page: &str) -> (r: Option<String>)
    ensures
        text::view_opt(r) == script_text(page@),
{
    proof {
        reveal_strlit("window.UGAPP.store");
    }
    match find_assignment(page, "window.UGAPP.store") {
        Some(rhs) => {
            let rhs = text::trim::trim_start(rhs.as_str());
            match text::search::strip_prefix(rhs.as_str(), "JSON.parse(") {
                Some(after) => js_string_literal(text::trim::trim_start(after.as_str()).as_str()),
                None => balanced_braces(rhs.as_str()),
            }
        },
        None => None,
    }
}

/// The data that a page's script assigns.
pub fn extract_js_store_from_script(page: &str) -> (r: Option<Json>)
    ensures
        (match r {
            Some(j) => Some(j@),
            None => None,
        }) == (match script_text(page@) {
            Some(raw) => match json::parsed(raw) {
                Some(store) => Some(wrapped(store)),
                None => None,
            },
            None => None,
        }),
{
    match find_script_text(page) {
        Some(raw) => match json::parse(raw.as_str()) {
            Some(store) => {
                let ghost v = store@;
                let j = Json::Object(vec![(text::owned("store"), store)]);
                assert(j@->Object_0 =~= seq![("store"@, v)]);
                Some(j)
            },
            None => None,
        },
        None => None,
    }
}

/// The data of a page.
pub fn extract_js_store(page: &str) -> (r: Option<Json>)
    ensures
        (match r {
            Some(j) => Some(j@),
            None => None,
        }) == store_of(html::attrs_of(page@, "div.js-store"@, "data-content"@), page@),
{
    match extract_js_store_from_div(page) {
        Some(j) => Some(j),
        None => extract_js_store_from_script(page),
    }
}

/// Which ways of carrying data a page shows signs of: it mentions `js-store`,
/// `data-content`, `UGAPP`, or `window.UGAPP.store`.
pub fn js_store_fingerprint(page: &str) -> (r: (bool, bool, bool, bool))
    ensures
        r.0 == text::search::contains(page@, "js-store"@),
        r.1 == text::search::contains(page@, "data-content"@),
        r.2 == text::search::contains(page@, "UGAPP"@),
        r.3 == text::search::contains(page@, "window.UGAPP.store"@),
{
    (
        text::search::has(page, "js-store"),
        text::search::has(page, "data-content"),
        text::search::has(page, "UGAPP"),
        text::search::has(page, "window.UGAPP.store"),
    )
}

/// The names of an object's members, with commas between them.
pub open spec fn keys_of(v: Option<JsonView>) -> Seq<char> {
    match v {
        Some(JsonView::Object(members)) => text::joined(
            members.map_values(|m: (Seq<char>, JsonView)| m.0),
            ","@,
        ),
        _ => "<none>"@,
    }
}

/// The names of an object's members, with commas between them; `<none>` where
/// there is no object.
pub fn json_keys(v: Option<&Json>) -> (out: String)
    ensures
        out@ == keys_of(json::view_opt(v)),
{
    match v {
        Some(Json::Object(members)) => {
            let mut names: Vec<String> = Vec::new();
            let ghost all = (v->0)@->Object_0;
            let ghost keys = all.map_values(|m: (Seq<char>, JsonView)| m.0);
            for i in 0..members.len()
                invariant
                    *(v->0) == Json::Object(*members),
                    all == (v->0)@->Object_0,
                    all.len() == members@.len(),
                    keys == all.map_values(|m: (Seq<char>, JsonView)| m.0),
                    text::views(names@) == keys.take(i as int),
            {
                let ghost before = text::views(names@);
                assert(all[i as int].0 == members@[i as int].0@);
                names.push(text::owned(members[i].0.as_str()));
                assert(text::views(names@) =~= before.push(keys[i as int]));
                assert(keys.take(i + 1) =~= before.push(keys[i as int]));
            }
            assert(keys.take(keys.len() as int) =~= keys);
            text::join(&names, ",")
        },
        _ => text::owned("<none>"),
    }
}

// ----- What the rules above amount to -----

/// The assignment that counts is the first one: what stands behind its sign,
/// with or without white space before it. A mention that is compared, or that
/// nothing is assigned to, is passed over.
pub proof fn the_first_assignment_counts(
    head: Seq<char>,
    lhs: Seq<char>,
    gap: Seq<char>,
    sign: Seq<char>,
    rest: Seq<char>,
)
    requires
        lhs.len() > 0,
        forall|i: int| 0 <= i < gap.len() ==> text::is_white_space(#[trigger] gap[i]),
        forall|i: int|
            0 <= i < head.len() ==> !#[trigger] text::search::occurs_at(
                head + lhs + gap + sign + rest,
                lhs,
                i,
            ),
        sign.len() == 1,
        !text::is_white_space(sign[0]),
    ensures
        sign[0] == '=' && (rest.len() == 0 || rest[0] != '=') ==> assigned(
            head + lhs + gap + sign + rest,
            lhs,
            0,
        ) == Some(rest),
        sign[0] != '=' || (rest.len() > 0 && rest[0] == '=') ==> assigned(
            head + lhs + gap + sign + rest,
            lhs,
            0,
        ) == assigned(head + lhs + gap + sign + rest, lhs, (head.len() + lhs.len()) as int),
        forall|page: Seq<char>|
            !(#[trigger] text::search::contains(page, lhs)) ==> assigned(page, lhs, 0) is None,
{
    reveal_strlit("=");
    let page = head + lhs + gap + sign + rest;
    let k = head.len() as int;
    assert(page.subrange(k, k + lhs.len()) =~= lhs);
    text::search::first_at_found(page, lhs, 0, k);
    let tail = page.skip(k + lhs.len());
    assert(tail =~= gap + sign + rest);
    starts_behind_white_space(gap, sign + rest);
    assert(gap + (sign + rest) =~= gap + sign + rest);
    let s = sign + rest;
    assert(s[0] == sign[0]);
    if sign[0] == '=' {
        assert(sign =~= "="@);
        text::search::affixes_come_off("="@, rest);
        if rest.len() > 0 {
            assert("="@.is_prefix_of(rest) ==> rest[0] == "="@[0]);
            assert(rest[0] == '=' ==> rest.subrange(0, 1) =~= "="@);
        }
    } else if text::search::without_prefix(s, "="@) is Some {
        text::search::affixes_come_off("="@, rest);
        let r = text::search::without_prefix(s, "="@)->0;
        assert(s == "="@ + r);
        assert(s[0] == '=');
    }
    assert forall|q: Seq<char>|
        !(#[trigger] text::search::contains(q, lhs)) implies assigned(q, lhs, 0) is None by {
        text::search::first_at_is_first(q, lhs, 0);
    }
}

proof fn starts_behind_white_space(gap: Seq<char>, s: Seq<char>)
    requires
        s.len() > 0,
        !text::is_white_space(s[0]),
        forall|i: int| 0 <= i < gap.len() ==> text::is_white_space(#[trigger] gap[i]),
    ensures
        text::trim::trimmed_start(gap + s) == s,
    decreases gap.len(),
{
    let all = gap + s;
    if gap.len() > 0 {
        assert(all[0] == gap[0]);
        assert(all.drop_first() =~= gap.drop_first() + s);
        starts_behind_white_space(gap.drop_first(), s);
    } else {
        assert(all =~= s);
    }
}

/// Text outside strings and braces does not count for the scan.
proof fn plain_text_is_passed(chars: Seq<char>, i: int, p: Seq<char>, s: BraceScan)
    requires
        0 <= i,
        i + p.len() <= chars.len(),
        chars.subrange(i, i + p.len()) == p,
        s.quote is None,
        forall|k: int|
            0 <= k < p.len() ==> (#[trigger] p[k]) != '{' && p[k] != '}' && p[k] != '"' && p[k]
                != '\'',
    ensures
        closing(chars, i, s) == closing(chars, i + p.len(), s),
    decreases p.len(),
{
    if p.len() > 0 {
        assert(chars.subrange(i, i + p.len())[0] == chars[i]);
        assert(p[0] == chars[i]);
        assert(chars.subrange(i + 1, i + p.len()) =~= p.drop_first());
        assert forall|k: int| 0 <= k < p.drop_first().len() implies (#[trigger] p.drop_first()[k])
            != '{' && p.drop_first()[k] != '}' && p.drop_first()[k] != '"' && p.drop_first()[k]
            != '\'' by {
            assert(p.drop_first()[k] == p[k + 1]);
        }
        plain_text_is_passed(chars, i + 1, p.drop_first(), s);
    }
}

/// Text inside a string does not count, braces and the other quote included.
proof fn string_text_is_passed(chars: Seq<char>, i: int, p: Seq<char>, s: BraceScan)
    requires
        0 <= i,
        i + p.len() <= chars.len(),
        chars.subrange(i, i + p.len()) == p,
        s.quote is Some,
        !s.escaped,
        forall|k: int| 0 <= k < p.len() ==> (#[trigger] p[k]) != s.quote->0 && p[k] != '\\',
    ensures
        closing(chars, i, s) == closing(chars, i + p.len(), s),
    decreases p.len(),
{
    if p.len() > 0 {
        assert(chars.subrange(i, i + p.len())[0] == chars[i]);
        assert(p[0] == chars[i]);
        assert(chars.subrange(i + 1, i + p.len()) =~= p.drop_first());
        assert forall|k: int| 0 <= k < p.drop_first().len() implies (#[trigger] p.drop_first()[k])
            != s.quote->0 && p.drop_first()[k] != '\\' by {
            assert(p.drop_first()[k] == p[k + 1]);
        }
        string_text_is_passed(chars, i + 1, p.drop_first(), s);
    }
}

/// `p` holds neither braces nor quotes.
pub open spec fn is_unquoted(p: Seq<char>) -> bool {
    forall|k: int|
        0 <= k < p.len() ==> (#[trigger] p[k]) != '{' && p[k] != '}' && p[k] != '"' && p[k] != '\''
}

/// `p` holds neither this quote nor a backslash.
pub open spec fn is_inside(p: Seq<char>, quote: char) -> bool {
    forall|k: int| 0 <= k < p.len() ==> (#[trigger] p[k]) != quote && p[k] != '\\'
}

/// An object goes to the brace that closes it: the braces of an object inside
/// it do not end it, nor does any brace inside a string, nor does a quote
/// behind a backslash end the string. What stands before its first brace and
/// behind its last is no part of it.
pub proof fn objects_hold_objects_and_strings(
    head: Seq<char>,
    a: Seq<char>,
    quote: char,
    t: Seq<char>,
    x: char,
    u: Seq<char>,
    b: Seq<char>,
    c: Seq<char>,
    more: Seq<char>,
)
    requires
        !head.contains('{'),
        quote == '"' || quote == '\'',
        is_unquoted(a),
        is_unquoted(b),
        is_unquoted(c),
        is_inside(t, quote),
        is_inside(u, quote),
    ensures
        ({
            let text = seq![quote] + t + seq!['\\', x] + u + seq![quote];
            let o = seq!['{'] + a + seq!['{'] + text + b + seq!['}'] + c + seq!['}'];
            object_in(head + o + more) == Some(o)
        }),
{
    let text = seq![quote] + t + seq!['\\', x] + u + seq![quote];
    let o = seq!['{'] + a + seq!['{'] + text + b + seq!['}'] + c + seq!['}'];
    let s = head + o + more;
    let f = |d: char| d == '{';
    let n = head.len() as int;
    assert(o[0] == '{');
    assert(s[n] == '{');
    assert forall|j: int| 0 <= j < n implies !f(#[trigger] s[j]) by {
        assert(s[j] == head[j]);
        assert(head.contains(head[j]));
    }
    text::split::first_where_found(s, f, 0, n);
    let fresh = BraceScan { depth: 0, quote: None, escaped: false };
    let one = BraceScan { depth: 1, quote: None, escaped: false };
    let two = BraceScan { depth: 2, quote: None, escaped: false };
    let within = BraceScan { depth: 2, quote: Some(quote), escaped: false };
    let stopped = BraceScan { depth: 2, quote: Some(quote), escaped: true };
    assert(scanned(fresh, '{') == one);
    assert(scanned(one, '{') == two);
    assert(scanned(two, quote) == within);
    assert(scanned(within, '\\') == stopped);
    assert(scanned(stopped, x) == within);
    assert(scanned(within, quote) == two);
    assert(scanned(two, '}') == one);
    assert(scanned(one, '}') == fresh);
    let i1 = n + 1;
    assert(closing(s, n, fresh) == closing(s, i1, one));
    assert(s.subrange(i1, i1 + a.len()) =~= a);
    plain_text_is_passed(s, i1, a, one);
    let i2 = i1 + a.len();
    assert(s[i2] == '{');
    assert(closing(s, i2, one) == closing(s, i2 + 1, two));
    let i3 = i2 + 1;
    assert(s[i3] == quote);
    assert(closing(s, i3, two) == closing(s, i3 + 1, within));
    let i4 = i3 + 1;
    assert(s.subrange(i4, i4 + t.len()) =~= t);
    string_text_is_passed(s, i4, t, within);
    let i5 = i4 + t.len();
    assert(s[i5] == '\\');
    assert(closing(s, i5, within) == closing(s, i5 + 1, stopped));
    assert(s[i5 + 1] == x);
    assert(closing(s, i5 + 1, stopped) == closing(s, i5 + 2, within));
    let i6 = i5 + 2;
    assert(s.subrange(i6, i6 + u.len()) =~= u);
    string_text_is_passed(s, i6, u, within);
    let i7 = i6 + u.len();
    assert(s[i7] == quote);
    assert(closing(s, i7, within) == closing(s, i7 + 1, two));
    let i8 = i7 + 1;
    assert(s.subrange(i8, i8 + b.len()) =~= b);
    plain_text_is_passed(s, i8, b, two);
    let i9 = i8 + b.len();
    assert(s[i9] == '}');
    assert(closing(s, i9, two) == closing(s, i9 + 1, one));
    let i10 = i9 + 1;
    assert(s.subrange(i10, i10 + c.len()) =~= c);
    plain_text_is_passed(s, i10, c, one);
    let i11 = i10 + c.len();
    assert(s[i11] == '}');
    assert(closing(s, i11, one) == Some(i11));
    assert(s.subrange(n, i11 + 1) =~= o);
}

/// The hexadecimal digit for `n`, for `n` below sixteen.
pub open spec fn hex_digit_of(n: int) -> char {
    if n < 10 {
        ('0' as int + n) as char
    } else {
        ('a' as int + n - 10) as char
    }
}

/// What a digit is read as is what it was written for.
proof fn digits_read_back(n: int)
    requires
        0 <= n < 16,
    ensures
        text::is_hex_digit(hex_digit_of(n)),
        hex_value(hex_digit_of(n)) == n,
{
}

/// Four digits in a row.
pub open spec fn four_digits(d: (int, int, int, int)) -> Seq<char> {
    seq![hex_digit_of(d.0), hex_digit_of(d.1), hex_digit_of(d.2), hex_digit_of(d.3)]
}

/// The number that four digits write, the first of them the highest.
pub open spec fn number_of(d: (int, int, int, int)) -> int {
    d.0 * 4096 + d.1 * 256 + d.2 * 16 + d.3
}

/// Each of the four is a digit.
pub open spec fn are_digits(d: (int, int, int, int)) -> bool {
    0 <= d.0 < 16 && 0 <= d.1 < 16 && 0 <= d.2 < 16 && 0 <= d.3 < 16
}

proof fn four_digits_read_back(d: (int, int, int, int), before: Seq<char>, after: Seq<char>)
    requires
        are_digits(d),
    ensures
        hex4(before + four_digits(d) + after, before.len() as int) == Some(number_of(d) as u32),
{
    let s = before + four_digits(d) + after;
    let k = before.len() as int;
    digits_read_back(d.0);
    digits_read_back(d.1);
    digits_read_back(d.2);
    digits_read_back(d.3);
    assert(s[k] == hex_digit_of(d.0));
    assert(s[k + 1] == hex_digit_of(d.1));
    assert(s[k + 2] == hex_digit_of(d.2));
    assert(s[k + 3] == hex_digit_of(d.3));
}

/// An escape of four digits says the character with that number, unless it is
/// a surrogate.
pub proof fn escapes_name_their_character(d: (int, int, int, int), after: Seq<char>)
    requires
        are_digits(d),
    ensures
        number_of(d) < 0xD800 || 0xE000 <= number_of(d) ==> escape_at(
            seq!['u'] + four_digits(d) + after,
            0,
        ) == Some((number_of(d) as char, 5int)),
        0xD800 <= number_of(d) < 0xE000 && (after.len() == 0 || after[0] != '\\') ==> escape_at(
            seq!['u'] + four_digits(d) + after,
            0,
        ) is None,
{
    let s = seq!['u'] + four_digits(d) + after;
    four_digits_read_back(d, seq!['u'], after);
    assert(s[0] == 'u');
    if after.len() > 0 {
        assert(s[5] == after[0]);
    }
}

/// Two escapes that make a pair of surrogates say one character past the first
/// sixty-five thousand: the first of them gives its upper ten bits.
pub proof fn pairs_name_one_character(
    hi: (int, int, int, int),
    lo: (int, int, int, int),
    after: Seq<char>,
)
    requires
        are_digits(hi),
        are_digits(lo),
        0xD800 <= number_of(hi) < 0xDC00,
        0xDC00 <= number_of(lo) < 0xE000,
    ensures
        escape_at(
            seq!['u'] + four_digits(hi) + seq!['\\', 'u'] + four_digits(lo) + after,
            0,
        ) == Some(
            (
                ((0x10000 + (number_of(hi) - 0xD800) * 1024 + (number_of(lo) - 0xDC00)) as u32) as char,
                11int,
            ),
        ),
{
    let tail = seq!['\\', 'u'] + four_digits(lo) + after;
    let s = seq!['u'] + four_digits(hi) + seq!['\\', 'u'] + four_digits(lo) + after;
    assert(s =~= seq!['u'] + four_digits(hi) + tail);
    four_digits_read_back(hi, seq!['u'], tail);
    let front = seq!['u'] + four_digits(hi) + seq!['\\', 'u'];
    four_digits_read_back(lo, front, after);
    assert(front.len() == 7);
    assert(s[0] == 'u' && s[5] == '\\' && s[6] == 'u');
}

/// What is assigned is read as it stands: an object as it is, and a literal
/// handed to `JSON.parse` as what it says.
pub proof fn scripts_assign_objects_or_texts(
    head: Seq<char>,
    gap: Seq<char>,
    space: Seq<char>,
    o: Seq<char>,
    quote: char,
    said: Seq<char>,
    more: Seq<char>,
)
    requires
        forall|i: int| 0 <= i < gap.len() ==> text::is_white_space(#[trigger] gap[i]),
        forall|i: int| 0 <= i < space.len() ==> text::is_white_space(#[trigger] space[i]),
        forall|i: int, tail: Seq<char>|
            0 <= i < head.len() ==> !#[trigger] text::search::occurs_at(
                head + "window.UGAPP.store"@ + tail,
                "window.UGAPP.store"@,
                i,
            ),
        o.len() > 0,
        o[0] == '{',
        object_in(o) == Some(o),
        quote == '"' || quote == '\'',
    ensures
        script_text(head + "window.UGAPP.store"@ + gap + "="@ + (space + o + more)) == Some(o),
        script_text(
            head + "window.UGAPP.store"@ + gap + "="@ + (space + "JSON.parse("@ + gap + seq![quote]
                + escaped(said, quote) + seq![quote] + more),
        ) == Some(said),
{
    reveal_strlit("=");
    reveal_strlit("window.UGAPP.store");
    let lhs = "window.UGAPP.store"@;
    let plain = space + o + more;
    let call = space + "JSON.parse("@ + gap + seq![quote] + escaped(said, quote) + seq![quote]
        + more;
    assert("JSON.parse("@.len() == 11 && "JSON.parse("@[0] == 'J') by {
        reveal_strlit("JSON.parse(");
    }
    assert forall|i: int| 0 <= i < head.len() implies !#[trigger] text::search::occurs_at(
        head + lhs + gap + "="@ + plain,
        lhs,
        i,
    ) by {
        assert(head + lhs + gap + "="@ + plain =~= head + lhs + (gap + "="@ + plain));
    }
    assert forall|i: int| 0 <= i < head.len() implies !#[trigger] text::search::occurs_at(
        head + lhs + gap + "="@ + call,
        lhs,
        i,
    ) by {
        assert(head + lhs + gap + "="@ + call =~= head + lhs + (gap + "="@ + call));
    }
    assert(plain[0] != '=') by {
        if space.len() > 0 {
            assert(plain[0] == space[0]);
        } else {
            assert(plain[0] == o[0]);
        }
    }
    assert(call[0] != '=') by {
        if space.len() > 0 {
            assert(call[0] == space[0]);
        } else {
            assert(call[0] == 'J');
        }
    }
    the_first_assignment_counts(head, lhs, gap, "="@, plain);
    the_first_assignment_counts(head, lhs, gap, "="@, call);
    starts_behind_white_space(space, o + more);
    assert(plain =~= space + (o + more));
    assert((o + more)[0] == '{');
    if text::search::without_prefix(o + more, "JSON.parse("@) is Some {
        text::search::affixes_come_off("JSON.parse("@, more);
        let r = text::search::without_prefix(o + more, "JSON.parse("@)->0;
        assert((o + more)[0] == ("JSON.parse("@ + r)[0]);
    }
    objects_stand_alone(o, more);
    let quoted = seq![quote] + escaped(said, quote) + seq![quote] + more;
    let argument = gap + quoted;
    assert(call =~= space + ("JSON.parse("@ + argument));
    starts_behind_white_space(space, "JSON.parse("@ + argument);
    text::search::affixes_come_off("JSON.parse("@, argument);
    starts_behind_white_space(gap, quoted);
    escaped_texts_read_back(quote, said, more);
}

/// The data in the `div` counts where it can be read, whatever the script
/// says; the script's counts only where it cannot, and is then found under
/// `store`.
pub proof fn the_div_comes_before_the_script(
    attrs: Option<Seq<Option<Seq<char>>>>,
    page: Seq<char>,
    first: Option<Seq<char>>,
    rest: Seq<Option<Seq<char>>>,
)
    ensures
        first is Some && json::parsed(first->0) is Some ==> store_of(
            Some(seq![first] + rest),
            page,
        ) == json::parsed(first->0),
        first is None || json::parsed(first->0) is None ==> store_of(Some(seq![first] + rest), page)
            == store_of(None, page),
        store_of(Some(Seq::empty()), page) == store_of(None, page),
        script_text(page) is Some && json::parsed(script_text(page)->0) is Some ==> store_of(
            None,
            page,
        ) is Some && (store_of(None, page)->0).descend(seq!["store"@]) == json::parsed(
            script_text(page)->0,
        ),
        script_text(page) is None || json::parsed(script_text(page)->0) is None ==> store_of(
            None,
            page,
        ) is None,
{
    assert((seq![first] + rest)[0] == first);
    if script_text(page) is Some && json::parsed(script_text(page)->0) is Some {
        let store = json::parsed(script_text(page)->0)->0;
        let d = wrapped(store);
        assert(seq!["store"@].drop_first() =~= Seq::<Seq<char>>::empty());
        assert(d.get("store"@) == Some(store));
        assert(store.descend(Seq::empty()) == Some(store));
    }
}

/// The names of members stand in order, with commas between them.
pub proof fn keys_stand_in_order(
    a: Seq<(Seq<char>, JsonView)>,
    b: Seq<(Seq<char>, JsonView)>,
    name: Seq<char>,
    v: JsonView,
)
    requires
        a.len() > 0,
        b.len() > 0,
    ensures
        keys_of(Some(JsonView::Object(a + b))) == keys_of(Some(JsonView::Object(a))) + ","@
            + keys_of(Some(JsonView::Object(b))),
        keys_of(Some(JsonView::Object(seq![(name, v)]))) == name,
        keys_of(None) == "<none>"@,
        v !is Object ==> keys_of(Some(v)) == "<none>"@,
{
    let f = |m: (Seq<char>, JsonView)| m.0;
    assert((a + b).map_values(f) =~= a.map_values(f) + b.map_values(f));
    text::joined_lists_are_put_together(a.map_values(f), b.map_values(f), ","@);
    assert(seq![(name, v)].map_values(f) =~= seq![name]);
}

} // verus!
