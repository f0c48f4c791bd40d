//! Cutting characters off the ends of a text.

use crate::text;
use vstd::prelude::*;

verus! {

/// `s` without the longest run at its start of characters that `f` holds of.
pub open spec fn dropped_front(s: Seq<char>, f: spec_fn(char) -> bool) -> Seq<char>
    decreases s.len(),
{
    if s.len() > 0 && f(s[0]) {
        dropped_front(s.drop_first(), f)
    } else {
        s
    }
}

/// `s` without the longest run at its end of characters that `f` holds of.
pub open spec fn dropped_back(s: Seq<char>, f: spec_fn(char) -> bool) -> Seq<char>
    decreases s.len(),
{
    if s.len() > 0 && f(s.last()) {
        dropped_back(s.drop_last(), f)
    } else {
        s
    }
}

/// `s` without the white space at its start.
pub open spec fn trimmed_start(s: Seq<char>) -> Seq<char> {
    dropped_front(s, |c: char| text::is_white_space(c))
}

/// `s` without the white space at both ends.
pub open spec fn trimmed(s: Seq<char>) -> Seq<char> {
    dropped_back(trimmed_start(s), |c: char| text::is_white_space(c))
}

/// `s` without the copies of `p` that stand one behind the other at its end.
pub open spec fn without_suffixes(s: Seq<char>, p: Seq<char>) -> Seq<char>
    decreases s.len(),
{
    if p.len() > 0 && p.is_suffix_of(s) {
        without_suffixes(s.take(s.len() - p.len()), p)
    } else {
        s
    }
}

/// `s` without the copies of `p` that stand one behind the other at its start.
pub open spec fn without_prefixes(s: Seq<char>, p: Seq<char>) -> Seq<char>
    decreases s.len(),
{
    if p.len() > 0 && p.is_prefix_of(s) {
        without_prefixes(s.skip(p.len() as int), p)
    } else {
        s
    }
}

/// `s` neither starts nor ends with white space.
pub open spec fn is_trimmed(s: Seq<char>) -> bool {
    s.len() > 0 ==> !text::is_white_space(s[0]) && !text::is_white_space(s.last())
}

/// What trimming leaves is a piece of the text, and is trimmed.
pub proof fn trimmed_is_trimmed(s: Seq<char>)
    ensures
        is_trimmed(trimmed(s)),
        exists|i: int, j: int|
            0 <= i <= j <= s.len() && trimmed(s) == #[trigger] s.subrange(i, j),
{
    let ws = |c: char| text::is_white_space(c);
    dropped_front_is_suffix(s, ws);
    let t = trimmed_start(s);
    let i = s.len() - t.len();
    dropped_back_is_prefix(t, ws);
    let r = trimmed(s);
    assert(r == t.take(r.len() as int));
    assert(t == s.skip(i));
    assert(r =~= s.subrange(i, i + r.len()));
    if r.len() > 0 {
        assert(r[0] == t[0]);
    }
}

/// Trimming a trimmed text changes nothing.
pub proof fn trimmed_stays(s: Seq<char>)
    requires
        is_trimmed(s),
    ensures
        trimmed(s) == s,
{
}

proof fn dropped_front_is_suffix(s: Seq<char>, f: spec_fn(char) -> bool)
    ensures
        dropped_front(s, f).len() <= s.len(),
        dropped_front(s, f) == s.skip(s.len() - dropped_front(s, f).len()),
        dropped_front(s, f).len() > 0 ==> !f(dropped_front(s, f)[0]),
    decreases s.len(),
{
    if s.len() > 0 && f(s[0]) {
        dropped_front_is_suffix(s.drop_first(), f);
        let r = dropped_front(s, f);
        assert(s.drop_first().skip(s.len() - 1 - r.len()) =~= s.skip(s.len() - r.len()));
    } else {
        assert(s.skip(0) =~= s);
    }
}

proof fn dropped_back_is_prefix(s: Seq<char>, f: spec_fn(char) -> bool)
    ensures
        dropped_back(s, f).len() <= s.len(),
        dropped_back(s, f) == s.take(dropped_back(s, f).len() as int),
        dropped_back(s, f).len() > 0 ==> !f(dropped_back(s, f).last()),
    decreases s.len(),
{
    if s.len() > 0 && f(s.last()) {
        dropped_back_is_prefix(s.drop_last(), f);
        let r = dropped_back(s, f);
        assert(s.drop_last().take(r.len() as int) =~= s.take(r.len() as int));
    } else {
        assert(s.take(s.len() as int) =~= s);
    }
}

/// The first position of `s`, from `from` on, that holds no white space.
pub fn skip_white_space(s: &[char], from: usize) -> (i: usize)
    requires
        from <= s@.len(),
    ensures
        from <= i <= s@.len(),
        trimmed_start(s@.skip(from as int)) == s@.skip(i as int),
        i < s@.len() ==> !text::is_white_space(s@[i as int]),
{
    let mut i: usize = from;
    while i < s.len() && text::white_space(s[i])
        invariant
            from <= i <= s@.len(),
            trimmed_start(s@.skip(from as int)) == trimmed_start(s@.skip(i as int)),
        decreases s@.len() - i,
    {
        assert(s@.skip(i as int).drop_first() =~= s@.skip(i + 1));
        i = i + 1;
    }
    i
}

/// `s` without the white space at its start.
pub fn trim_start(s: &str) -> (out: String)
    ensures
        out@ == trimmed_start(s@),
{
    let chars = text::chars_of(s);
    assert(s@.skip(0) =~= s@);
    let i = skip_white_space(&chars, 0);
    let out = text::slice_of(&chars, i, chars.len());
    assert(out@ =~= s@.skip(i as int));
    out
}

/// `s` without the white space at both ends.
pub fn trim(s: &str) -> (out: String)
    ensures
        out@ == trimmed(s@),
{
    let chars = text::chars_of(s);
    assert(s@.skip(0) =~= s@);
    let from = skip_white_space(&chars, 0);
    let mut to: usize = chars.len();
    let ghost ws = |c: char| text::is_white_space(c);
    assert(chars@.subrange(from as int, to as int) =~= s@.skip(from as int));
    while from < to && text::white_space(chars[to - 1])
        invariant
            from <= to <= chars@.len(),
            ws == (|c: char| text::is_white_space(c)),
            trimmed(s@) == dropped_back(chars@.subrange(from as int, to as int), ws),
        decreases to,
    {
        assert(chars@.subrange(from as int, to as int).drop_last() =~= chars@.subrange(
            from as int,
            to - 1,
        ));
        to = to - 1;
    }
    text::slice_of(&chars, from, to)
}

/// `s` without the copies of the character `c` at its start.
pub fn trim_start_char(s: &str, c: char) -> (out: String)
    ensures
        out@ == dropped_front(s@, |d: char| d == c),
{
    let chars = text::chars_of(s);
    let ghost f = |d: char| d == c;
    let mut i: usize = 0;
    assert(s@.skip(0) =~= s@);
    while i < chars.len() && chars[i] == c
        invariant
            i <= chars@.len(),
            f == (|d: char| d == c),
            dropped_front(s@, f) == dropped_front(chars@.skip(i as int), f),
        decreases chars@.len() - i,
    {
        assert(chars@.skip(i as int).drop_first() =~= chars@.skip(i + 1));
        i = i + 1;
    }
    let out = text::slice_of(&chars, i, chars.len());
    assert(out@ =~= chars@.skip(i as int));
    out
}

/// `s` without the copies of the character `c` at its end.
pub fn trim_end_char(s: &str, c: char) -> (out: String)
    ensures
        out@ == dropped_back(s@, |d: char| d == c),
{
    let chars = text::chars_of(s);
    let ghost f = |d: char| d == c;
    let mut to: usize = chars.len();
    assert(chars@.take(to as int) =~= s@);
    while 0 < to && chars[to - 1] == c
        invariant
            to <= chars@.len(),
            f == (|d: char| d == c),
            dropped_back(s@, f) == dropped_back(chars@.take(to as int), f),
        decreases to,
    {
        assert(chars@.take(to as int).drop_last() =~= chars@.take(to - 1));
        to = to - 1;
    }
    let out = text::slice_of(&chars, 0, to);
    assert(out@ =~= chars@.take(to as int));
    out
}

/// `s` without the copies of `p` at its end.
pub fn trim_end_matches(s: &str, p: &str) -> (out: String)
    requires
        p@.len() > 0,
    ensures
        out@ == without_suffixes(s@, p@),
{
    let mut out = text::owned(s);
    while text::search::ends_with(out.as_str(), p)
        invariant
            p@.len() > 0,
            without_suffixes(s@, p@) == without_suffixes(out@, p@),
        decreases out@.len(),
    {
        let chars = text::chars_of(out.as_str());
        let cut = text::chars_of(p);
        let shorter = text::slice_of(&chars, 0, chars.len() - cut.len());
        assert(shorter@ =~= out@.take(out@.len() - p@.len()));
        out = shorter;
    }
    out
}

/// `s` without the copies of `p` at its start.
pub fn trim_start_matches(s: &str, p: &str) -> (out: String)
    requires
        p@.len() > 0,
    ensures
        out@ == without_prefixes(s@, p@),
{
    let mut out = text::owned(s);
    while text::search::starts_with(out.as_str(), p)
        invariant
            p@.len() > 0,
            without_prefixes(s@, p@) == without_prefixes(out@, p@),
        decreases out@.len(),
    {
        let chars = text::chars_of(out.as_str());
        let cut = text::chars_of(p);
        let shorter = text::slice_of(&chars, cut.len(), chars.len());
        assert(shorter@ =~= out@.skip(p@.len() as int));
        out = shorter;
    }
    out
}

/// White space around a text is what is taken off, all of it and nothing else:
/// a text that neither starts nor ends with white space is given back out of
/// any white space around it, and white space alone gives nothing.
pub proof fn padding_comes_off(before: Seq<char>, s: Seq<char>, after: Seq<char>)
    requires
        is_trimmed(s),
        forall|i: int| 0 <= i < before.len() ==> text::is_white_space(#[trigger] before[i]),
        forall|i: int| 0 <= i < after.len() ==> text::is_white_space(#[trigger] after[i]),
    ensures
        trimmed(before + s + after) == s,
        s.len() > 0 ==> trimmed_start(before + s + after) == s + after,
    decreases before.len() + after.len(),
{
    let ws = |c: char| text::is_white_space(c);
    let all = before + s + after;
    if before.len() > 0 {
        assert(all[0] == before[0]);
        assert(all.drop_first() =~= before.drop_first() + s + after);
        assert forall|i: int| 0 <= i < before.drop_first().len() implies text::is_white_space(
            #[trigger] before.drop_first()[i],
        ) by {
            assert(before.drop_first()[i] == before[i + 1]);
        }
        padding_comes_off(before.drop_first(), s, after);
    } else if s.len() > 0 {
        assert(all =~= s + after);
        assert(all[0] == s[0]);
        assert(trimmed_start(all) == all);
        back_comes_off(s, after, ws);
    } else if after.len() > 0 {
        assert(all =~= after);
        assert(all[0] == after[0]);
        assert forall|i: int| 0 <= i < after.drop_first().len() implies text::is_white_space(
            #[trigger] after.drop_first()[i],
        ) by {
            assert(after.drop_first()[i] == after[i + 1]);
        }
        padding_comes_off(before, s, after.drop_first());
        assert(before + s + after.drop_first() =~= all.drop_first());
    } else {
        assert(all =~= s);
    }
}

proof fn back_comes_off(s: Seq<char>, after: Seq<char>, f: spec_fn(char) -> bool)
    requires
        s.len() > 0,
        !f(s.last()),
        forall|i: int| 0 <= i < after.len() ==> f(#[trigger] after[i]),
    ensures
        dropped_back(s + after, f) == s,
    decreases after.len(),
{
    let all = s + after;
    if after.len() > 0 {
        assert(all.last() == after[after.len() - 1]);
        assert(all.drop_last() =~= s + after.drop_last());
        assert forall|i: int| 0 <= i < after.drop_last().len() implies f(
            #[trigger] after.drop_last()[i],
        ) by {
            assert(after.drop_last()[i] == after[i]);
        }
        back_comes_off(s, after.drop_last(), f);
    } else {
        assert(all =~= s);
    }
}

/// Copies of `p` at the start come off one by one until none is left, and so
/// do copies at the end.
pub proof fn copies_come_off(p: Seq<char>, s: Seq<char>)
    requires
        p.len() > 0,
    ensures
        without_prefixes(p + s, p) == without_prefixes(s, p),
        without_suffixes(s + p, p) == without_suffixes(s, p),
        !p.is_prefix_of(s) ==> without_prefixes(s, p) == s,
        !p.is_suffix_of(s) ==> without_suffixes(s, p) == s,
{
    assert((p + s).subrange(0, p.len() as int) =~= p);
    assert((p + s).skip(p.len() as int) =~= s);
    assert((s + p).subrange(s.len() as int, (s + p).len() as int) =~= p);
    assert((s + p).take(s.len() as int) =~= s);
}

} // verus!
