//! Cutting a text into pieces.

use crate::text;
use vstd::prelude::*;

verus! {

/// The first position of `s`, from `from` on, at which `f` holds, or the
/// length of `s` where it holds at none.
pub open spec fn first_where(s: Seq<char>, f: spec_fn(char) -> bool, from: int) -> int
    decreases s.len() - from,
{
    if from < 0 || from >= s.len() {
        s.len() as int
    } else if f(s[from]) {
        from
    } else {
        first_where(s, f, from + 1)
    }
}

/// The text before the first character of `s` that `f` holds of; all of `s`
/// where there is none.
pub open spec fn before_first(s: Seq<char>, f: spec_fn(char) -> bool) -> Seq<char> {
    s.take(first_where(s, f, 0))
}

/// The pieces of `s` between the characters that `f` holds of: always one
/// more than there are such characters.
pub open spec fn pieces(s: Seq<char>, f: spec_fn(char) -> bool) -> Seq<Seq<char>>
    decreases s.len(),
{
    let i = first_where(s, f, 0);
    if 0 <= i < s.len() {
        seq![s.take(i)] + pieces(s.skip(i + 1), f)
    } else {
        seq![s]
    }
}

/// The text of `s` behind its last character that `f` holds of; all of `s`
/// where there is none.
pub open spec fn after_last(s: Seq<char>, f: spec_fn(char) -> bool) -> Seq<char>
    decreases s.len(),
{
    if s.len() == 0 || f(s.last()) {
        Seq::empty()
    } else {
        after_last(s.drop_last(), f).push(s.last())
    }
}

/// What [`first_where`] gives.
pub proof fn first_where_is_first(s: Seq<char>, f: spec_fn(char) -> bool, from: int)
    requires
        0 <= from <= s.len(),
    ensures
        from <= first_where(s, f, from) <= s.len(),
        first_where(s, f, from) < s.len() ==> f(s[first_where(s, f, from)]),
        forall|j: int| from <= j < first_where(s, f, from) ==> !f(s[j]),
    decreases s.len() - from,
{
    if from < s.len() && !f(s[from]) {
        first_where_is_first(s, f, from + 1);
    }
}

/// A position with none before it at which `f` holds is what [`first_where`]
/// gives.
pub proof fn first_where_found(s: Seq<char>, f: spec_fn(char) -> bool, from: int, i: int)
    requires
        0 <= from <= i <= s.len(),
        i < s.len() ==> f(s[i]),
        forall|j: int| from <= j < i ==> !f(#[trigger] s[j]),
    ensures
        first_where(s, f, from) == i,
    decreases i - from,
{
    if from < i {
        first_where_found(s, f, from + 1, i);
    }
}

/// Searching behind a cut finds the position that searching the whole text
/// from there finds.
pub proof fn first_where_shift(s: Seq<char>, f: spec_fn(char) -> bool, from: int, k: int)
    requires
        0 <= from,
        0 <= k,
        from + k <= s.len(),
    ensures
        first_where(s, f, from + k) == first_where(s.skip(from), f, k) + from,
    decreases s.len() - from - k,
{
    if from + k < s.len() && !f(s[from + k]) {
        first_where_shift(s, f, from, k + 1);
    }
}

/// The first position of `s`, from `from` on, whose character `test` accepts.
pub fn find_where(
    s: &[char],
    test: impl Fn(char) -> bool,
    from: usize,
    Ghost(f): Ghost<spec_fn(char) -> bool>,
) -> (i: usize)
    requires
        from <= s@.len(),
        forall|c: char| #[trigger] test.requires((c,)),
        forall|c: char, b: bool| #[trigger] test.ensures((c,), b) ==> b == f(c),
    ensures
        i == first_where(s@, f, from as int),
        from <= i <= s@.len(),
        i < s@.len() ==> f(s@[i as int]),
        forall|j: int| from <= j < i ==> !f(s@[j]),
{
    let mut i: usize = from;
    while i < s.len()
        invariant
            from <= i <= s@.len(),
            forall|c: char| #[trigger] test.requires((c,)),
            forall|c: char, b: bool| #[trigger] test.ensures((c,), b) ==> b == f(c),
            first_where(s@, f, from as int) == first_where(s@, f, i as int),
            forall|j: int| from <= j < i ==> !f(s@[j]),
        decreases s@.len() - i,
    {
        if test(s[i]) {
            return i;
        }
        i = i + 1;
    }
    i
}

/// The text before the first character that `test` accepts.
pub fn head(s: &str, test: impl Fn(char) -> bool, Ghost(f): Ghost<spec_fn(char) -> bool>) -> (out:
    String)
    requires
        forall|c: char| #[trigger] test.requires((c,)),
        forall|c: char, b: bool| #[trigger] test.ensures((c,), b) ==> b == f(c),
    ensures
        out@ == before_first(s@, f),
{
    let chars = text::chars_of(s);
    let i = find_where(&chars, test, 0, Ghost(f));
    let out = text::slice_of(&chars, 0, i);
    assert(out@ =~= s@.take(i as int));
    out
}

/// The pieces of `s` between the characters that `test` accepts.
pub fn split(s: &str, test: impl Fn(char) -> bool, Ghost(f): Ghost<spec_fn(char) -> bool>) -> (out:
    Vec<String>)
    requires
        forall|c: char| #[trigger] test.requires((c,)),
        forall|c: char, b: bool| #[trigger] test.ensures((c,), b) ==> b == f(c),
    ensures
        text::views(out@) == pieces(s@, f),
        out@.len() > 0,
{
    let chars = text::chars_of(s);
    let mut out: Vec<String> = Vec::new();
    let mut start: usize = 0;
    let mut i: usize = 0;
    assert(chars@.skip(0) =~= chars@);
    assert(text::views(out@) =~= Seq::<Seq<char>>::empty());
    while i < chars.len()
        invariant
            start <= i <= chars@.len(),
            forall|c: char| #[trigger] test.requires((c,)),
            forall|c: char, b: bool| #[trigger] test.ensures((c,), b) ==> b == f(c),
            text::views(out@) + pieces(chars@.skip(start as int), f) =~= pieces(s@, f),
            first_where(chars@, f, start as int) == first_where(chars@, f, i as int),
        decreases chars@.len() - i,
    {
        if test(chars[i]) {
            let ghost rest = chars@.skip(start as int);
            let ghost before = text::views(out@);
            proof {
                first_where_shift(chars@, f, start as int, 0);
                assert(rest.take(i - start) =~= chars@.subrange(start as int, i as int));
                assert(rest.skip(i - start + 1) =~= chars@.skip(i + 1));
            }
            out.push(text::slice_of(&chars, start, i));
            assert(text::views(out@) =~= before.push(chars@.subrange(start as int, i as int)));
            start = i + 1;
        }
        i = i + 1;
    }
    let ghost rest = chars@.skip(start as int);
    let ghost before = text::views(out@);
    proof {
        first_where_shift(chars@, f, start as int, 0);
        assert(rest =~= chars@.subrange(start as int, chars@.len() as int));
    }
    out.push(text::slice_of(&chars, start, chars.len()));
    assert(text::views(out@) =~= before.push(rest));
    assert(pieces(rest, f) =~= seq![rest]);
    out
}

/// The texts of `list` that are not empty, in order.
pub open spec fn nonempty(list: Seq<Seq<char>>) -> Seq<Seq<char>>
    decreases list.len(),
{
    if list.len() == 0 {
        Seq::empty()
    } else if list.last().len() > 0 {
        nonempty(list.drop_last()).push(list.last())
    } else {
        nonempty(list.drop_last())
    }
}

pub fn keep_nonempty(list: &Vec<String>) -> (out: Vec<String>)
    ensures
        text::views(out@) == nonempty(text::views(list@)),
{
    let mut out: Vec<String> = Vec::new();
    assert(text::views(out@) =~= nonempty(text::views(list@.take(0))));
    for i in 0..list.len()
        invariant
            text::views(out@) == nonempty(text::views(list@.take(i as int))),
    {
        let ghost upto = text::views(list@.take(i + 1));
        let ghost before = text::views(out@);
        assert(upto.drop_last() =~= text::views(list@.take(i as int)));
        assert(upto.last() == list@[i as int]@);
        if !text::is_empty(list[i].as_str()) {
            out.push(text::owned(list[i].as_str()));
            assert(text::views(out@) =~= before.push(list@[i as int]@));
        }
    }
    assert(list@.take(list@.len() as int) =~= list@);
    out
}

/// The words of `s`: its longest pieces without white space.
pub open spec fn words(s: Seq<char>) -> Seq<Seq<char>> {
    nonempty(pieces(s, |c: char| text::is_white_space(c)))
}

/// No character of `s` is white space.
pub open spec fn is_unbroken(s: Seq<char>) -> bool {
    forall|i: int| 0 <= i < s.len() ==> !text::is_white_space(#[trigger] s[i])
}

/// Pieces between white space hold none.
proof fn pieces_are_unbroken(s: Seq<char>, f: spec_fn(char) -> bool)
    requires
        forall|c: char| #[trigger] f(c) == text::is_white_space(c),
    ensures
        forall|k: int|
            0 <= k < pieces(s, f).len() ==> is_unbroken(#[trigger] pieces(s, f)[k]),
    decreases s.len(),
{
    first_where_is_first(s, f, 0);
    let i = first_where(s, f, 0);
    if i < s.len() {
        let rest = pieces(s.skip(i + 1), f);
        pieces_are_unbroken(s.skip(i + 1), f);
        assert forall|k: int| 0 <= k < pieces(s, f).len() implies is_unbroken(
            #[trigger] pieces(s, f)[k],
        ) by {
            if k == 0 {
                assert(pieces(s, f)[k] == s.take(i));
                assert forall|j: int| 0 <= j < i implies !text::is_white_space(
                    #[trigger] s.take(i)[j],
                ) by {
                    assert(!f(s[j]));
                }
            } else {
                assert(pieces(s, f)[k] == rest[k - 1]);
            }
        }
    } else {
        assert forall|j: int| 0 <= j < s.len() implies !text::is_white_space(#[trigger] s[j]) by {
            assert(!f(s[j]));
        }
    }
}

/// What [`nonempty`] keeps is not empty and stands in the list.
proof fn nonempty_keeps(list: Seq<Seq<char>>)
    ensures
        forall|k: int|
            0 <= k < nonempty(list).len() ==> (#[trigger] nonempty(list)[k]).len() > 0
                && list.contains(nonempty(list)[k]),
    decreases list.len(),
{
    if list.len() > 0 {
        let front = list.drop_last();
        nonempty_keeps(front);
        assert forall|k: int| 0 <= k < nonempty(list).len() implies (#[trigger] nonempty(
            list,
        )[k]).len() > 0 && list.contains(nonempty(list)[k]) by {
            if k < nonempty(front).len() {
                let w = nonempty(front)[k];
                let j = choose|j: int| 0 <= j < front.len() && front[j] == w;
                assert(list[j] == w);
            } else {
                assert(list[list.len() - 1] == list.last());
            }
        }
    }
}

/// A list without empty texts is kept whole.
pub proof fn nonempty_stays(list: Seq<Seq<char>>)
    requires
        forall|k: int| 0 <= k < list.len() ==> (#[trigger] list[k]).len() > 0,
    ensures
        nonempty(list) == list,
    decreases list.len(),
{
    if list.len() > 0 {
        nonempty_stays(list.drop_last());
        assert(list.drop_last().push(list.last()) =~= list);
    }
}

/// Joining from the front.
proof fn joined_from_front(list: Seq<Seq<char>>, sep: Seq<char>)
    requires
        list.len() > 1,
    ensures
        text::joined(list, sep) == list[0] + sep + text::joined(list.drop_first(), sep),
    decreases list.len(),
{
    let front = list.drop_last();
    let rest = list.drop_first();
    if list.len() == 2 {
        assert(front[0] == list[0]);
        assert(rest[0] == list.last());
        assert(text::joined(front, sep) == list[0]);
        assert(text::joined(rest, sep) == list.last());
    } else {
        joined_from_front(front, sep);
        assert(front.drop_first() =~= rest.drop_last());
        assert(rest.last() == list.last());
        assert(text::joined(list, sep) =~= list[0] + sep + (text::joined(
            front.drop_first(),
            sep,
        ) + sep + list.last()));
    }
}

/// Words that are joined by spaces are the pieces of what they are joined to.
proof fn pieces_of_joined(list: Seq<Seq<char>>)
    requires
        list.len() > 0,
        forall|k: int| 0 <= k < list.len() ==> is_unbroken(#[trigger] list[k]),
    ensures
        pieces(text::joined(list, " "@), |c: char| text::is_white_space(c)) == list,
    decreases list.len(),
{
    reveal_strlit(" ");
    let f = |c: char| text::is_white_space(c);
    let s = text::joined(list, " "@);
    let first = list[0];
    assert(is_unbroken(first));
    if list.len() == 1 {
        first_where_found(s, f, 0, s.len() as int);
        assert(seq![s] =~= list);
    } else {
        let rest = list.drop_first();
        joined_from_front(list, " "@);
        let i = first.len() as int;
        assert(s[i] == ' ');
        assert forall|j: int| 0 <= j < i implies !f(#[trigger] s[j]) by {
            assert(s[j] == first[j]);
        }
        first_where_found(s, f, 0, i);
        assert(s.take(i) =~= first);
        assert(s.skip(i + 1) =~= text::joined(rest, " "@));
        pieces_of_joined(rest);
        assert(seq![first] + rest =~= list);
    }
}

/// Words that are joined by spaces are the words of what they are joined to.
pub proof fn words_stay(s: Seq<char>)
    ensures
        words(text::joined(words(s), " "@)) == words(s),
{
    let f = |c: char| text::is_white_space(c);
    let all = pieces(s, f);
    let list = words(s);
    pieces_are_unbroken(s, f);
    nonempty_keeps(all);
    nonempty_stays(list);
    if list.len() == 0 {
        let none = Seq::<char>::empty();
        assert(pieces(none, f) =~= seq![none]);
        assert(seq![none].last() == none);
        assert(seq![none].drop_last() =~= Seq::<Seq<char>>::empty());
        assert(nonempty(seq![none]) =~= Seq::<Seq<char>>::empty());
        assert(list =~= Seq::<Seq<char>>::empty());
    } else {
        assert forall|k: int| 0 <= k < list.len() implies is_unbroken(#[trigger] list[k]) by {
            let j = choose|j: int| 0 <= j < all.len() && all[j] == list[k];
            assert(is_unbroken(all[j]));
        }
        pieces_of_joined(list);
    }
}

pub fn words_of(s: &str) -> (out: Vec<String>)
    ensures
        text::views(out@) == words(s@),
{
    let pieces = split(s, text::white_space, Ghost(|c: char| text::is_white_space(c)));
    keep_nonempty(&pieces)
}

/// The text of `s` behind its last character that equals `c`.
pub fn tail(s: &str, c: char) -> (out: String)
    ensures
        out@ == after_last(s@, |d: char| d == c),
{
    let chars = text::chars_of(s);
    let ghost f = |d: char| d == c;
    let mut start: usize = chars.len();
    assert(chars@.take(start as int) =~= s@);
    assert(after_last(s@, f) =~= after_last(chars@.take(start as int), f) + chars@.skip(
        start as int,
    ));
    while start > 0 && chars[start - 1] != c
        invariant
            start <= chars@.len(),
            f == (|d: char| d == c),
            after_last(s@, f) == after_last(chars@.take(start as int), f) + chars@.skip(
                start as int,
            ),
        decreases start,
    {
        let ghost upto = chars@.take(start as int);
        assert(upto.drop_last() =~= chars@.take(start - 1));
        assert(after_last(upto, f) + chars@.skip(start as int) =~= after_last(
            chars@.take(start - 1),
            f,
        ) + chars@.skip(start - 1));
        start = start - 1;
    }
    let out = text::slice_of(&chars, start, chars.len());
    assert(out@ =~= Seq::<char>::empty() + chars@.skip(start as int));
    out
}

/// Pieces that are put together with a separator between them are found again
/// when the whole is cut at the separators.
pub proof fn pieces_are_found_again(list: Seq<Seq<char>>, c: char, f: spec_fn(char) -> bool)
    requires
        list.len() > 0,
        f(c),
        forall|k: int, i: int|
            0 <= k < list.len() && 0 <= i < list[k].len() ==> !f(#[trigger] list[k][i]),
    ensures
        pieces(text::joined(list, seq![c]), f) == list,
    decreases list.len(),
{
    let s = text::joined(list, seq![c]);
    let first = list[0];
    assert forall|i: int| 0 <= i < first.len() implies !f(#[trigger] first[i]) by {
        assert(!f(list[0][i]));
    }
    if list.len() == 1 {
        assert(s == first);
        first_where_found(s, f, 0, s.len() as int);
        assert(seq![s] =~= list);
    } else {
        let rest = list.drop_first();
        joined_from_front(list, seq![c]);
        let i = first.len() as int;
        assert(s[i] == c);
        assert forall|j: int| 0 <= j < i implies !f(#[trigger] s[j]) by {
            assert(s[j] == first[j]);
        }
        first_where_found(s, f, 0, i);
        assert(s.take(i) =~= first);
        assert(s.skip(i + 1) =~= text::joined(rest, seq![c]));
        assert forall|k: int, j: int|
            0 <= k < rest.len() && 0 <= j < rest[k].len() implies !f(#[trigger] rest[k][j]) by {
            assert(rest[k] == list[k + 1]);
            assert(!f(list[k + 1][j]));
        }
        pieces_are_found_again(rest, c, f);
        assert(seq![first] + rest =~= list);
    }
}

/// What stands before the first separator, and behind the last one.
pub proof fn ends_are_cut_at_separators(
    a: Seq<char>,
    c: char,
    b: Seq<char>,
    f: spec_fn(char) -> bool,
)
    requires
        f(c),
    ensures
        (forall|i: int| 0 <= i < a.len() ==> !f(#[trigger] a[i])) ==> before_first(
            a + seq![c] + b,
            f,
        ) == a && before_first(a, f) == a,
        (forall|i: int| 0 <= i < b.len() ==> !f(#[trigger] b[i])) ==> after_last(
            a + seq![c] + b,
            f,
        ) == b && after_last(b, f) == b,
{
    let s = a + seq![c] + b;
    if forall|i: int| 0 <= i < a.len() ==> !f(#[trigger] a[i]) {
        assert forall|j: int| 0 <= j < a.len() implies !f(#[trigger] s[j]) by {
            assert(s[j] == a[j]);
        }
        assert(s[a.len() as int] == c);
        first_where_found(s, f, 0, a.len() as int);
        assert(s.take(a.len() as int) =~= a);
        first_where_found(a, f, 0, a.len() as int);
        assert(a.take(a.len() as int) =~= a);
    }
    if forall|i: int| 0 <= i < b.len() ==> !f(#[trigger] b[i]) {
        tail_is_kept(a + seq![c], b, f);
        tail_is_kept(Seq::empty(), b, f);
        assert(Seq::empty() + b =~= b);
        assert((a + seq![c]).last() == c);
    }
}

proof fn tail_is_kept(front: Seq<char>, b: Seq<char>, f: spec_fn(char) -> bool)
    requires
        front.len() > 0 ==> f(front.last()),
        forall|i: int| 0 <= i < b.len() ==> !f(#[trigger] b[i]),
    ensures
        after_last(front + b, f) == b,
    decreases b.len(),
{
    let s = front + b;
    if b.len() > 0 {
        assert(s.last() == b[b.len() - 1]);
        assert(s.drop_last() =~= front + b.drop_last());
        assert forall|i: int| 0 <= i < b.drop_last().len() implies !f(
            #[trigger] b.drop_last()[i],
        ) by {
            assert(b.drop_last()[i] == b[i]);
        }
        tail_is_kept(front, b.drop_last(), f);
        assert(b.drop_last().push(b.last()) =~= b);
    } else {
        assert(s =~= front);
        assert(b =~= Seq::empty());
    }
}

/// A text has no empty word.
pub proof fn words_are_not_empty(s: Seq<char>)
    ensures
        forall|k: int| 0 <= k < words(s).len() ==> (#[trigger] words(s)[k]).len() > 0,
{
    nonempty_keeps(pieces(s, |c: char| text::is_white_space(c)));
}

/// Words that are put together with a space between them are found again, in
/// order and letter by letter.
pub proof fn words_are_found_again(list: Seq<Seq<char>>)
    requires
        list.len() > 0,
        forall|k: int| 0 <= k < list.len() ==> (#[trigger] list[k]).len() > 0,
        forall|k: int| 0 <= k < list.len() ==> is_unbroken(#[trigger] list[k]),
    ensures
        words(text::joined(list, " "@)) == list,
{
    pieces_of_joined(list);
    nonempty_stays(list);
}

} // verus!
