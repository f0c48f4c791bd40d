//! Finding one text inside another, and replacing it.

use crate::text;
use vstd::prelude::*;

verus! {

/// `p` stands in `s` at position `i`.
pub open spec fn occurs_at(s: Seq<char>, p: Seq<char>, i: int) -> bool {
    0 <= i && i + p.len() <= s.len() && s.subrange(i, i + p.len()) == p
}

/// `p` stands somewhere in `s`.
pub open spec fn contains(s: Seq<char>, p: Seq<char>) -> bool {
    exists|i: int| occurs_at(s, p, i)
}

/// The first position of `s`, from `from` on, at which `p` stands.
pub open spec fn first_at(s: Seq<char>, p: Seq<char>, from: int) -> Option<int>
    decreases s.len() - from + 1,
{
    if from < 0 || from + p.len() > s.len() {
        None
    } else if occurs_at(s, p, from) {
        Some(from)
    } else {
        first_at(s, p, from + 1)
    }
}

/// What [`first_at`] gives: an occurrence with none before it, or that there
/// is none.
pub proof fn first_at_is_first(s: Seq<char>, p: Seq<char>, from: int)
    requires
        0 <= from,
    ensures
        match first_at(s, p, from) {
            Some(i) => {
                &&& from <= i
                &&& occurs_at(s, p, i)
                &&& forall|j: int| from <= j < i ==> !occurs_at(s, p, j)
            },
            None => forall|j: int| from <= j ==> !occurs_at(s, p, j),
        },
    decreases s.len() - from + 1,
{
    if from + p.len() <= s.len() && !occurs_at(s, p, from) {
        first_at_is_first(s, p, from + 1);
    }
}

/// An occurrence with none before it is what [`first_at`] gives.
pub proof fn first_at_found(s: Seq<char>, p: Seq<char>, from: int, i: int)
    requires
        0 <= from <= i,
        occurs_at(s, p, i),
        forall|j: int| from <= j < i ==> !occurs_at(s, p, j),
    ensures
        first_at(s, p, from) == Some(i),
    decreases i - from,
{
    if from < i {
        first_at_found(s, p, from + 1, i);
    }
}

/// Where there is no occurrence, [`first_at`] gives none.
pub proof fn first_at_none(s: Seq<char>, p: Seq<char>, from: int)
    requires
        0 <= from,
        forall|j: int| from <= j ==> !occurs_at(s, p, j),
    ensures
        first_at(s, p, from) is None,
{
    first_at_is_first(s, p, from);
}

/// What is left of `s` after the prefix `p`.
pub open spec fn without_prefix(s: Seq<char>, p: Seq<char>) -> Option<Seq<char>> {
    if p.is_prefix_of(s) {
        Some(s.skip(p.len() as int))
    } else {
        None
    }
}

/// What is left of `s` before the suffix `p`.
pub open spec fn without_suffix(s: Seq<char>, p: Seq<char>) -> Option<Seq<char>> {
    if p.is_suffix_of(s) {
        Some(s.take(s.len() - p.len()))
    } else {
        None
    }
}

/// `s` with `to` in place of every occurrence of `from`, taken from the left
/// without overlaps.
pub open spec fn replaced(s: Seq<char>, from: Seq<char>, to: Seq<char>) -> Seq<char>
    decreases s.len(),
{
    if from.len() == 0 {
        s
    } else {
        match first_at(s, from, 0) {
            None => s,
            Some(i) => if 0 <= i && i + from.len() <= s.len() {
                s.take(i) + to + replaced(s.skip(i + from.len()), from, to)
            } else {
                s
            },
        }
    }
}

/// Whether `p` stands in `s` at position `i`.
pub fn at(s: &[char], p: &[char], i: usize) -> (b: bool)
    ensures
        b == occurs_at(s@, p@, i as int),
{
    if i > s.len() || p.len() > s.len() - i {
        return false;
    }
    text::same_chars(vstd::slice::slice_subrange(s, i, i + p.len()), p)
}

/// The first position of `p` in `s`, from `from` on.
pub fn find(s: &[char], p: &[char], from: usize) -> (r: Option<usize>)
    ensures
        first_at(s@, p@, from as int) == (match r {
            Some(i) => Some(i as int),
            None => None,
        }),
        r matches Some(i) ==> from <= i && occurs_at(s@, p@, i as int),
        s@.len() <= usize::MAX,
{
    let len = s.len();
    let mut i: usize = from;
    while i <= s.len() && p.len() <= s.len() - i
        invariant
            from <= i,
            len == s@.len(),
            first_at(s@, p@, from as int) == first_at(s@, p@, i as int),
        decreases s@.len() - i,
    {
        if at(s, p, i) {
            return Some(i);
        }
        if i == s.len() {
            assert(s@.subrange(i as int, i as int) =~= p@);
            return None;
        }
        i = i + 1;
    }
    None
}

/// Whether `p` stands somewhere in `s`.
pub fn has(s: &str, p: &str) -> (b: bool)
    ensures
        b == contains(s@, p@),
{
    let hay = text::chars_of(s);
    let needle = text::chars_of(p);
    proof {
        first_at_is_first(s@, p@, 0);
    }
    match find(&hay, &needle, 0) {
        Some(_) => true,
        None => {
            assert forall|i: int| !occurs_at(s@, p@, i) by {}
            false
        },
    }
}

/// Whether `s` begins with `p`.
pub fn starts_with(s: &str, p: &str) -> (b: bool)
    ensures
        b == p@.is_prefix_of(s@),
{
    let hay = text::chars_of(s);
    let needle = text::chars_of(p);
    at(&hay, &needle, 0)
}

/// Whether `s` ends with `p`.
pub fn ends_with(s: &str, p: &str) -> (b: bool)
    ensures
        b == p@.is_suffix_of(s@),
{
    let hay = text::chars_of(s);
    let needle = text::chars_of(p);
    if needle.len() > hay.len() {
        return false;
    }
    assert(s@.subrange(s@.len() - p@.len(), s@.len() as int) =~= s@.subrange(
        s@.len() - p@.len(),
        s@.len() - p@.len() + p@.len(),
    ));
    at(&hay, &needle, hay.len() - needle.len())
}

/// What is left of `s` after the prefix `p`, if `s` has it.
pub fn strip_prefix(s: &str, p: &str) -> (r: Option<String>)
    ensures
        text::view_opt(r) == without_prefix(s@, p@),
{
    let hay = text::chars_of(s);
    let needle = text::chars_of(p);
    if at(&hay, &needle, 0) {
        let rest = text::slice_of(&hay, needle.len(), hay.len());
        assert(rest@ =~= s@.skip(p@.len() as int));
        Some(rest)
    } else {
        None
    }
}

/// What is left of `s` before the suffix `p`, if `s` has it.
pub fn strip_suffix(s: &str, p: &str) -> (r: Option<String>)
    ensures
        text::view_opt(r) == without_suffix(s@, p@),
{
    if ends_with(s, p) {
        let hay = text::chars_of(s);
        let needle = text::chars_of(p);
        let rest = text::slice_of(&hay, 0, hay.len() - needle.len());
        assert(rest@ =~= s@.take(s@.len() - p@.len()));
        Some(rest)
    } else {
        None
    }
}

/// `s` with `to` in place of every occurrence of `from`.
pub fn replace(s: &str, from: &str, to: &str) -> (out: String)
    requires
        from@.len() > 0,
    ensures
        out@ == replaced(s@, from@, to@),
{
    let hay = text::chars_of(s);
    let needle = text::chars_of(from);
    let mut out = String::new();
    let mut start: usize = 0;
    let len = hay.len();
    assert(s@.skip(0) =~= s@);
    loop
        invariant
            hay@ == s@,
            len == s@.len(),
            needle@ == from@,
            from@.len() > 0,
            start <= s@.len(),
            replaced(s@, from@, to@) == out@ + replaced(s@.skip(start as int), from@, to@),
        decreases s@.len() - start,
    {
        let ghost rest = s@.skip(start as int);
        proof {
            first_at_is_first(rest, from@, 0);
            first_at_is_first(s@, from@, start as int);
            first_at_of_skip(s@, from@, start as int);
        }
        match find(&hay, &needle, start) {
            None => {
                let tail = text::slice_of(&hay, start, hay.len());
                assert(tail@ =~= rest);
                out.append(tail.as_str());
                return out;
            },
            Some(i) => {
                let before = text::slice_of(&hay, start, i);
                assert(before@ =~= rest.take(i - start));
                out.append(before.as_str());
                out.append(to);
                start = i + needle.len();
                assert(rest.skip(start - (s@.len() - rest.len())) =~= s@.skip(start as int));
            },
        }
    }
}

/// Searching a suffix is searching the whole from where the suffix begins.
pub proof fn first_at_of_skip(s: Seq<char>, p: Seq<char>, from: int)
    requires
        0 <= from <= s.len(),
    ensures
        first_at(s.skip(from), p, 0) == (match first_at(s, p, from) {
            Some(i) => Some(i - from),
            None => None,
        }),
{
    first_at_shift(s, p, from, 0);
}

proof fn first_at_shift(s: Seq<char>, p: Seq<char>, from: int, k: int)
    requires
        0 <= from <= s.len(),
        0 <= k,
    ensures
        first_at(s.skip(from), p, k) == (match first_at(s, p, from + k) {
            Some(i) => Some(i - from),
            None => None,
        }),
    decreases s.len() - from - k + 1,
{
    let rest = s.skip(from);
    if k + p.len() <= rest.len() {
        assert(rest.subrange(k, k + p.len()) =~= s.subrange(from + k, from + k + p.len()));
        if !occurs_at(rest, p, k) {
            first_at_shift(s, p, from, k + 1);
        }
    }
}

/// A text in which `from` does not stand is left as it is.
pub proof fn replacing_what_is_not_there(s: Seq<char>, from: Seq<char>, to: Seq<char>)
    requires
        !contains(s, from),
    ensures
        replaced(s, from, to) == s,
{
    first_at_is_first(s, from, 0);
}

/// What stands before the first occurrence stays, the occurrence is replaced,
/// and the rest is treated in the same way.
pub proof fn replacing_goes_on_behind(
    a: Seq<char>,
    from: Seq<char>,
    b: Seq<char>,
    to: Seq<char>,
)
    requires
        from.len() > 0,
        forall|i: int| 0 <= i < a.len() ==> !occurs_at(a + from + b, from, i),
    ensures
        replaced(a + from + b, from, to) == a + to + replaced(b, from, to),
{
    let s = a + from + b;
    assert(s.subrange(a.len() as int, (a.len() + from.len()) as int) =~= from);
    first_at_found(s, from, 0, a.len() as int);
    assert(s.take(a.len() as int) =~= a);
    assert(s.skip((a.len() + from.len()) as int) =~= b);
}

/// A text without the character that `p` starts with does not hold `p`, nor
/// does `p` start in it where it stands before something else.
pub proof fn nothing_starts_without_its_first(a: Seq<char>, p: Seq<char>, b: Seq<char>)
    requires
        p.len() > 0,
        !a.contains(p[0]),
    ensures
        !contains(a, p),
        forall|i: int| 0 <= i < a.len() ==> !occurs_at(a + b, p, i),
{
    assert forall|i: int| !occurs_at(a, p, i) by {
        if occurs_at(a, p, i) {
            assert(a.subrange(i, i + p.len())[0] == a[i]);
        }
    }
    assert forall|i: int| 0 <= i < a.len() implies !occurs_at(a + b, p, i) by {
        if occurs_at(a + b, p, i) {
            assert((a + b).subrange(i, i + p.len())[0] == (a + b)[i]);
            assert((a + b)[i] == a[i]);
        }
    }
}

/// `s` goes on from a prefix, or to a suffix, exactly where it is made of the
/// two parts.
pub proof fn affixes_come_off(p: Seq<char>, rest: Seq<char>)
    ensures
        without_prefix(p + rest, p) == Some(rest),
        without_suffix(rest + p, p) == Some(rest),
        forall|s: Seq<char>|
            (#[trigger] without_prefix(s, p)) matches Some(r) ==> s == p + r,
        forall|s: Seq<char>|
            (#[trigger] without_suffix(s, p)) matches Some(r) ==> s == r + p,
{
    assert(p.is_prefix_of(p + rest)) by {
        assert((p + rest).subrange(0, p.len() as int) =~= p);
    }
    assert((p + rest).skip(p.len() as int) =~= rest);
    assert((rest + p).subrange(rest.len() as int, (rest + p).len() as int) =~= p);
    assert((rest + p).take(rest.len() as int) =~= rest);
    assert forall|s: Seq<char>|
        (#[trigger] without_prefix(s, p)) is Some implies s == p + without_prefix(s, p)->0 by {
        assert(s =~= p + s.skip(p.len() as int));
    }
    assert forall|s: Seq<char>|
        (#[trigger] without_suffix(s, p)) is Some implies s == without_suffix(s, p)->0 + p by {
        assert(s =~= s.take(s.len() - p.len()) + p);
    }
}

/// A text occurs where it stands, and nowhere else: what is before and behind
/// a place where it occurs makes up the rest.
pub proof fn texts_occur_where_they_stand(a: Seq<char>, p: Seq<char>, b: Seq<char>)
    ensures
        occurs_at(a + p + b, p, a.len() as int),
        contains(a + p + b, p),
        forall|s: Seq<char>, i: int| #[trigger]
            occurs_at(s, p, i) ==> 0 <= i && i + p.len() <= s.len() && s == s.take(i) + p + s.skip(
                i + p.len(),
            ),
        forall|s: Seq<char>| #[trigger] contains(s, p) ==> p.len() <= s.len(),
{
    let t = a + p + b;
    assert(t.subrange(a.len() as int, a.len() as int + p.len()) =~= p);
    assert(occurs_at(t, p, a.len() as int));
    assert forall|s: Seq<char>, i: int| #[trigger] occurs_at(s, p, i) implies 0 <= i && i + p.len()
        <= s.len() && s == s.take(i) + p + s.skip(i + p.len()) by {
        assert forall|k: int| 0 <= k < p.len() implies s[i + k] == p[k] by {
            assert(s.subrange(i, i + p.len())[k] == s[i + k]);
        }
        assert(s =~= s.take(i) + p + s.skip(i + p.len()));
    }
}

} // verus!
