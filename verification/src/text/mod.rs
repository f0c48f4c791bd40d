//! Text, seen as sequences of characters.
//!
//! Every function here is stated over the view of a string, a `Seq<char>`.
//! Scanning code works on a `Vec<char>` so that positions are character
//! positions.

use vstd::prelude::*;

pub mod number;
pub mod search;
pub mod split;
pub mod trim;

verus! {

/// `String::push` appends one character.
pub assume_specification[ String::push ](s: &mut String, c: char)
    ensures
        final(s)@ == old(s)@.push(c),
;

/// The lower-case form of a text under the Unicode rules, as
/// `str::to_lowercase` computes it.
pub uninterp spec fn lowercase(s: Seq<char>) -> Seq<char>;

/// `str::to_lowercase` maps a text to its Unicode lower-case form, which
/// depends on the text alone. Each character becomes one or more, so the form
/// is empty only for an empty text. Whether a lower-case form is its own
/// lower-case form is left unsaid.
pub assume_specification[ str::to_lowercase ](s: &str) -> (out: String)
    ensures
        out@ == lowercase(s@),
        out@.len() == 0 <==> s@.len() == 0,
;

/// The view of an optional text.
pub open spec fn view_opt(s: Option<String>) -> Option<Seq<char>> {
    match s {
        Some(t) => Some(t@),
        None => None,
    }
}

/// The view of an optional borrowed text.
pub open spec fn view_str(s: Option<&str>) -> Option<Seq<char>> {
    match s {
        Some(t) => Some(t@),
        None => None,
    }
}

/// The views of a sequence of texts.
pub open spec fn views(list: Seq<String>) -> Seq<Seq<char>> {
    list.map_values(|s: String| s@)
}

/// The characters with the Unicode `White_Space` property.
pub open spec fn is_white_space(c: char) -> bool {
    ||| '\u{9}' <= c <= '\u{d}'
    ||| c == ' ' || c == '\u{85}' || c == '\u{a0}' || c == '\u{1680}'
    ||| '\u{2000}' <= c <= '\u{200a}'
    ||| c == '\u{2028}' || c == '\u{2029}' || c == '\u{202f}' || c == '\u{205f}' || c == '\u{3000}'
}

pub fn white_space(c: char) -> (b: bool)
    ensures
        b == is_white_space(c),
{
    ('\u{9}' <= c && c <= '\u{d}') || c == ' ' || c == '\u{85}' || c == '\u{a0}' || c == '\u{1680}'
        || ('\u{2000}' <= c && c <= '\u{200a}') || c == '\u{2028}' || c == '\u{2029}'
        || c == '\u{202f}' || c == '\u{205f}' || c == '\u{3000}'
}

/// A decimal digit, `0` to `9`.
pub open spec fn is_digit(c: char) -> bool {
    '0' <= c <= '9'
}

pub fn digit(c: char) -> (b: bool)
    ensures
        b == is_digit(c),
{
    '0' <= c && c <= '9'
}

/// A hexadecimal digit in either case.
pub open spec fn is_hex_digit(c: char) -> bool {
    is_digit(c) || 'a' <= c <= 'f' || 'A' <= c <= 'F'
}

pub fn hex_digit(c: char) -> (b: bool)
    ensures
        b == is_hex_digit(c),
{
    digit(c) || ('a' <= c && c <= 'f') || ('A' <= c && c <= 'F')
}

/// `A` to `Z` become `a` to `z`; every other character stays as it is.
pub open spec fn ascii_lower(c: char) -> char {
    if 'A' <= c <= 'Z' {
        ((c as u8 + 32) as u8) as char
    } else {
        c
    }
}

pub fn to_ascii_lower(c: char) -> (out: char)
    ensures
        out == ascii_lower(c),
{
    if 'A' <= c && c <= 'Z' {
        (c as u8 + 32) as char
    } else {
        c
    }
}

/// Every character of `s` under [`ascii_lower`].
pub open spec fn ascii_lowered(s: Seq<char>) -> Seq<char> {
    s.map_values(|c: char| ascii_lower(c))
}

pub fn ascii_lowercase(s: &str) -> (out: String)
    ensures
        out@ == ascii_lowered(s@),
{
    let chars = chars_of(s);
    let mut out = String::new();
    for i in 0..chars.len()
        invariant
            out@ == ascii_lowered(chars@.take(i as int)),
    {
        out.push(to_ascii_lower(chars[i]));
        assert(ascii_lowered(chars@.take(i + 1)) =~= ascii_lowered(chars@.take(i as int)).push(
            ascii_lower(chars@[i as int]),
        ));
    }
    assert(chars@.take(chars@.len() as int) =~= chars@);
    out
}

/// The characters of `s`, in order.
pub fn chars_of(s: &str) -> (out: Vec<char>)
    ensures
        out@ == s@,
{
    let mut out: Vec<char> = Vec::new();
    for c in it: s.chars()
        invariant
            out@ == it.seq().take(it.index()),
            it.seq() == s@,
    {
        out.push(c);
    }
    out
}

/// The text made of the characters of `chars`, in order.
pub fn string_of(chars: &[char]) -> (out: String)
    ensures
        out@ == chars@,
{
    let mut out = String::new();
    for i in 0..chars.len()
        invariant
            out@ == chars@.take(i as int),
    {
        out.push(chars[i]);
        assert(chars@.take(i + 1) =~= chars@.take(i as int).push(chars@[i as int]));
    }
    assert(chars@.take(chars@.len() as int) =~= chars@);
    out
}

/// The text made of the characters of `chars` from `from` up to `to`.
pub fn slice_of(chars: &[char], from: usize, to: usize) -> (out: String)
    requires
        from <= to <= chars@.len(),
    ensures
        out@ == chars@.subrange(from as int, to as int),
{
    string_of(vstd::slice::slice_subrange(chars, from, to))
}

/// Whether two character slices hold the same characters.
pub fn same_chars(a: &[char], b: &[char]) -> (eq: bool)
    ensures
        eq == (a@ == b@),
{
    if a.len() != b.len() {
        return false;
    }
    for i in 0..a.len()
        invariant
            a@.len() == b@.len(),
            a@.take(i as int) == b@.take(i as int),
    {
        if a[i] != b[i] {
            assert(a@[i as int] != b@[i as int]);
            return false;
        }
        assert(a@.take(i + 1) =~= a@.take(i as int).push(a@[i as int]));
        assert(b@.take(i + 1) =~= b@.take(i as int).push(b@[i as int]));
    }
    assert(a@.take(a@.len() as int) =~= a@);
    assert(b@.take(b@.len() as int) =~= b@);
    true
}

/// Whether two texts are the same.
pub fn same(a: &str, b: &str) -> (eq: bool)
    ensures
        eq == (a@ == b@),
{
    let a = chars_of(a);
    let b = chars_of(b);
    same_chars(&a, &b)
}

/// Whether `s` has no characters.
pub fn is_empty(s: &str) -> (b: bool)
    ensures
        b == (s@.len() == 0),
{
    let chars = chars_of(s);
    chars.len() == 0
}

/// An owned copy of `s`.
pub fn owned(s: &str) -> (out: String)
    ensures
        out@ == s@,
{
    s.to_owned()
}

/// An owned copy of an optional text.
pub fn owned_opt(s: Option<&str>) -> (out: Option<String>)
    ensures
        view_opt(out) == (match s {
            Some(t) => Some(t@),
            None => None,
        }),
{
    match s {
        Some(t) => Some(t.to_owned()),
        None => None,
    }
}

/// `a` followed by `b`.
pub fn concat(a: &str, b: &str) -> (out: String)
    ensures
        out@ == a@ + b@,
{
    let mut out = a.to_owned();
    out.append(b);
    out
}

/// `a` followed by `b` followed by `c`.
pub fn concat3(a: &str, b: &str, c: &str) -> (out: String)
    ensures
        out@ == a@ + b@ + c@,
{
    let mut out = a.to_owned();
    out.append(b);
    out.append(c);
    out
}

/// The first `n` characters of `s`, or all of them where there are fewer.
pub open spec fn first_chars(s: Seq<char>, n: nat) -> Seq<char> {
    if s.len() <= n {
        s
    } else {
        s.take(n as int)
    }
}

pub fn take_chars(s: &str, n: usize) -> (out: String)
    ensures
        out@ == first_chars(s@, n as nat),
{
    let chars = chars_of(s);
    if chars.len() <= n {
        s.to_owned()
    } else {
        slice_of(&chars, 0, n)
    }
}

/// The texts of `list` one after the other, with `sep` between neighbours.
pub open spec fn joined(list: Seq<Seq<char>>, sep: Seq<char>) -> Seq<char>
    decreases list.len(),
{
    if list.len() == 0 {
        Seq::empty()
    } else if list.len() == 1 {
        list[0]
    } else {
        joined(list.drop_last(), sep) + sep + list.last()
    }
}

pub fn join(list: &Vec<String>, sep: &str) -> (out: String)
    ensures
        out@ == joined(views(list@), sep@),
{
    let mut out = String::new();
    for i in 0..list.len()
        invariant
            out@ == joined(views(list@.take(i as int)), sep@),
    {
        let ghost upto = views(list@.take(i + 1));
        assert(upto.drop_last() =~= views(list@.take(i as int)));
        assert(upto.last() == list@[i as int]@);
        if i > 0 {
            out.append(sep);
        }
        out.append(list[i].as_str());
        if i == 0 {
            assert(out@ =~= list@[0]@);
        }
    }
    assert(list@.take(list@.len() as int) =~= list@);
    out
}

/// Whether `s` is one of the texts of `list`.
pub fn among(list: &Vec<String>, s: &str) -> (b: bool)
    ensures
        b == views(list@).contains(s@),
{
    for i in 0..list.len()
        invariant
            forall|j: int| 0 <= j < i ==> (#[trigger] list@[j])@ != s@,
    {
        if same(list[i].as_str(), s) {
            assert(views(list@)[i as int] == s@);
            return true;
        }
    }
    assert forall|j: int| 0 <= j < views(list@).len() implies views(list@)[j] != s@ by {
        assert(list@[j]@ != s@);
    }
    false
}

/// Dictionary order on characters: a proper prefix comes first.
pub open spec fn lex_le(a: Seq<char>, b: Seq<char>) -> bool
    decreases a.len(),
{
    if a.len() == 0 {
        true
    } else if b.len() == 0 {
        false
    } else if a[0] != b[0] {
        a[0] < b[0]
    } else {
        lex_le(a.drop_first(), b.drop_first())
    }
}

pub fn at_most(a: &str, b: &str) -> (le: bool)
    ensures
        le == lex_le(a@, b@),
{
    let xs = chars_of(a);
    let ys = chars_of(b);
    let mut i: usize = 0;
    assert(xs@.skip(0) =~= xs@);
    assert(ys@.skip(0) =~= ys@);
    while i < xs.len() && i < ys.len()
        invariant
            i <= xs@.len(),
            i <= ys@.len(),
            lex_le(a@, b@) == lex_le(xs@.skip(i as int), ys@.skip(i as int)),
        decreases xs@.len() - i,
    {
        if xs[i] != ys[i] {
            return xs[i] < ys[i];
        }
        assert(xs@.skip(i as int).drop_first() =~= xs@.skip(i + 1));
        assert(ys@.skip(i as int).drop_first() =~= ys@.skip(i + 1));
        i = i + 1;
    }
    i == xs.len()
}

pub proof fn lex_le_total(a: Seq<char>, b: Seq<char>)
    ensures
        lex_le(a, b) || lex_le(b, a),
    decreases a.len(),
{
    if a.len() > 0 && b.len() > 0 && a[0] == b[0] {
        lex_le_total(a.drop_first(), b.drop_first());
    }
}

pub proof fn lex_le_transitive(a: Seq<char>, b: Seq<char>, c: Seq<char>)
    requires
        lex_le(a, b),
        lex_le(b, c),
    ensures
        lex_le(a, c),
    decreases a.len(),
{
    if a.len() > 0 && b.len() > 0 && c.len() > 0 && a[0] == b[0] && b[0] == c[0] {
        lex_le_transitive(a.drop_first(), b.drop_first(), c.drop_first());
    }
}

/// Lowering changes the letters `A` to `Z` alone, each to the one thirty-two
/// places on, and leaves none of them; what has none stays as it is. Texts are
/// lowered part by part.
pub proof fn lowering_changes_capitals_alone(a: Seq<char>, b: Seq<char>)
    ensures
        ascii_lowered(a).len() == a.len(),
        forall|i: int|
            0 <= i < a.len() ==> {
                let c = #[trigger] ascii_lowered(a)[i];
                &&& !('A' <= c <= 'Z')
                &&& if 'A' <= a[i] <= 'Z' {
                    c as int == a[i] as int + 32
                } else {
                    c == a[i]
                }
            },
        ascii_lowered(a + b) == ascii_lowered(a) + ascii_lowered(b),
        ascii_lowered(ascii_lowered(a)) == ascii_lowered(a),
{
    assert(ascii_lowered(a + b) =~= ascii_lowered(a) + ascii_lowered(b));
    assert(ascii_lowered(ascii_lowered(a)) =~= ascii_lowered(a));
}

/// What is found in a lowered text is found in the text in any case.
pub proof fn lowered_parts_are_found(a: Seq<char>, p: Seq<char>, b: Seq<char>)
    ensures
        search::contains(ascii_lowered(a + p + b), ascii_lowered(p)),
{
    lowering_changes_capitals_alone(a + p, b);
    lowering_changes_capitals_alone(a, p);
    let s = ascii_lowered(a + p + b);
    let q = ascii_lowered(p);
    assert(s.subrange(a.len() as int, a.len() as int + q.len()) =~= q);
    assert(search::occurs_at(s, q, a.len() as int));
}

/// White space, digits and hexadecimal digits are what they are called: no
/// visible ASCII character is white space, and the controls that break or
/// advance a line are.
pub proof fn characters_are_what_they_are_called(c: char)
    ensures
        '!' <= c <= '~' ==> !is_white_space(c),
        c == ' ' || c == '\t' || c == '\n' || c == '\r' || c == '\u{a0}' || c == '\u{3000}'
            ==> is_white_space(c),
        is_white_space(c) ==> !is_hex_digit(c),
        is_digit(c) <==> 48 <= c as int <= 57,
        is_hex_digit(c) <==> (48 <= c as int <= 57 || 65 <= c as int <= 70 || 97 <= c as int
            <= 102),
{
}

/// Texts are cut at their end only, and only where they are longer than they
/// may be.
pub proof fn long_texts_are_cut(s: Seq<char>, n: nat)
    ensures
        first_chars(s, n).is_prefix_of(s),
        first_chars(s, n).len() <= n,
        s.len() <= n ==> first_chars(s, n) == s,
        s.len() >= n ==> first_chars(s, n).len() == n,
{
    assert(s.take(s.len() as int) =~= s);
}

/// Joined texts stand in order, with the separator between neighbours and
/// nowhere else: joining two lists is joining what each of them joins to.
pub proof fn joined_lists_are_put_together(a: Seq<Seq<char>>, b: Seq<Seq<char>>, sep: Seq<char>)
    ensures
        joined(Seq::empty(), sep) == Seq::<char>::empty(),
        a.len() == 1 ==> joined(a, sep) == a[0],
        a.len() > 0 && b.len() > 0 ==> joined(a + b, sep) == joined(a, sep) + sep + joined(b, sep),
    decreases b.len(),
{
    if a.len() > 0 && b.len() > 0 {
        assert((a + b).drop_last() =~= a + b.drop_last());
        assert((a + b).last() == b.last());
        if b.len() == 1 {
            assert(a + b.drop_last() =~= a);
        } else {
            joined_lists_are_put_together(a, b.drop_last(), sep);
            assert(joined(a, sep) + sep + (joined(b.drop_last(), sep) + sep + b.last())
                =~= joined(a, sep) + sep + joined(b.drop_last(), sep) + sep + b.last());
        }
    }
}

/// In dictionary order the first place where two texts differ decides, and a
/// text comes before those that continue it.
pub proof fn the_first_difference_decides(p: Seq<char>, x: char, y: char, a: Seq<char>, b: Seq<char>)
    ensures
        x < y ==> lex_le(p + seq![x] + a, p + seq![y] + b) && !lex_le(
            p + seq![y] + b,
            p + seq![x] + a,
        ),
        lex_le(p, p + a),
        a.len() > 0 ==> !lex_le(p + a, p),
    decreases p.len(),
{
    if p.len() > 0 {
        let q = p.drop_first();
        assert((p + seq![x] + a).drop_first() =~= q + seq![x] + a);
        assert((p + seq![y] + b).drop_first() =~= q + seq![y] + b);
        assert((p + a).drop_first() =~= q + a);
        the_first_difference_decides(q, x, y, a, b);
    } else {
        assert((p + seq![x] + a)[0] == x);
        assert((p + seq![y] + b)[0] == y);
    }
}

/// The views of texts are those of each, in order.
pub proof fn views_are_those_of_each(list: Seq<String>, s: String, t: &str)
    ensures
        views(list).len() == list.len(),
        forall|i: int| 0 <= i < list.len() ==> (#[trigger] views(list)[i]) == list[i]@,
        view_opt(Some(s)) == Some(s@),
        view_opt(None) is None,
        view_str(Some(t)) == Some(t@),
        view_str(None) is None,
{
}

} // verus!
