//! Laying a tab out on pages.
//!
//! A page is A4 with 15 mm margins, set in Courier at 8.5 points with lines
//! 10.5 points apart: a line holds 100 characters, a page 72 lines.

use crate::html;
use crate::text;
use vstd::prelude::*;

verus! {

/// How many characters fit on a line.
pub const MAX_CHARS: usize = 100;

/// How many lines fit on a page.
pub const LINES_PER_PAGE: usize = 72;

/// A tab as plain text: its markers gone, its line ends uniform, its entities
/// decoded.
pub open spec fn plain_tab(raw: Seq<char>) -> Seq<char> {
    html::unescaped(unmarked_tab(raw))
}

/// A tab without its markers, and with uniform line ends.
pub open spec fn unmarked_tab(raw: Seq<char>) -> Seq<char> {
    let s = text::search::replaced(raw, "[tab]"@, ""@);
    let s = text::search::replaced(s, "[/tab]"@, ""@);
    let s = text::search::replaced(s, "[ch]"@, ""@);
    let s = text::search::replaced(s, "[/ch]"@, ""@);
    let s = text::search::replaced(s, "\r\n"@, "\n"@);
    text::search::replaced(s, "\r"@, "\n"@)
}

/// A tab without its markers, and with uniform line ends.
pub fn unmark_tab(raw: &str) -> (out: String)
    ensures
        out@ == unmarked_tab(raw@),
{
    proof {
        reveal_strlit("[tab]");
        reveal_strlit("[/tab]");
        reveal_strlit("[ch]");
        reveal_strlit("[/ch]");
        reveal_strlit("\r\n");
        reveal_strlit("\r");
    }
    let s = text::search::replace(raw, "[tab]", "");
    let s = text::search::replace(s.as_str(), "[/tab]", "");
    let s = text::search::replace(s.as_str(), "[ch]", "");
    let s = text::search::replace(s.as_str(), "[/ch]", "");
    let s = text::search::replace(s.as_str(), "\r\n", "\n");
    text::search::replace(s.as_str(), "\r", "\n")
}

/// A tab as plain text.
pub fn clean_tab_text(raw: &str) -> (out: String)
    ensures
        out@ == plain_tab(raw@),
{
    html::decode_entities(unmark_tab(raw).as_str())
}

/// A line cut into pieces of at most `n` characters; one empty piece for an
/// empty line.
pub open spec fn wrapped(s: Seq<char>, n: nat) -> Seq<Seq<char>>
    decreases s.len(),
{
    if n == 0 || s.len() <= n {
        seq![s]
    } else {
        seq![s.take(n as int)] + wrapped(s.skip(n as int), n)
    }
}

/// The lines of a list of lines, each cut to `n` characters.
pub open spec fn all_wrapped(lines: Seq<Seq<char>>, n: nat) -> Seq<Seq<char>>
    decreases lines.len(),
{
    if lines.len() == 0 {
        Seq::empty()
    } else {
        all_wrapped(lines.drop_last(), n) + wrapped(lines.last(), n)
    }
}

/// The lines of a document: its title, a blank line, and its body cut to the
/// width of a page.
pub open spec fn document_lines(title: Seq<char>, body: Seq<char>) -> Seq<Seq<char>> {
    seq![title, Seq::<char>::empty()] + all_wrapped(
        text::split::pieces(body, |c: char| c == '\n'),
        MAX_CHARS as nat,
    )
}

/// A list cut into pages of at most `n` lines.
pub open spec fn paged(lines: Seq<Seq<char>>, n: nat) -> Seq<Seq<Seq<char>>>
    decreases lines.len(),
{
    if lines.len() == 0 || n == 0 {
        Seq::empty()
    } else if lines.len() <= n {
        seq![lines]
    } else {
        seq![lines.take(n as int)] + paged(lines.skip(n as int), n)
    }
}

fn push_wrapped(lines: &mut Vec<String>, line: &str)
    ensures
        text::views(final(lines)@) == text::views(old(lines)@) + wrapped(line@, MAX_CHARS as nat),
{
    let chars = text::chars_of(line);
    let mut start: usize = 0;
    let len = chars.len();
    let ghost before = text::views(lines@);
    assert(chars@.skip(0) =~= chars@);
    while chars.len() - start > MAX_CHARS
        invariant
            chars@ == line@,
            len == chars@.len(),
            start <= chars@.len(),
            before + wrapped(line@, MAX_CHARS as nat) == text::views(lines@) + wrapped(
                chars@.skip(start as int),
                MAX_CHARS as nat,
            ),
        decreases chars@.len() - start,
    {
        let ghost done = text::views(lines@);
        let ghost rest = chars@.skip(start as int);
        let piece = text::slice_of(&chars, start, start + MAX_CHARS);
        let ghost p = piece@;
        lines.push(piece);
        assert(text::views(lines@) =~= done.push(p));
        assert(p =~= rest.take(MAX_CHARS as int));
        assert(rest.skip(MAX_CHARS as int) =~= chars@.skip(start + MAX_CHARS));
        let ghost more = wrapped(chars@.skip(start + MAX_CHARS), MAX_CHARS as nat);
        assert(done + (seq![p] + more) =~= text::views(lines@) + more);
        start = start + MAX_CHARS;
    }
    let ghost done = text::views(lines@);
    let piece = text::slice_of(&chars, start, chars.len());
    let ghost p = piece@;
    assert(p =~= chars@.skip(start as int));
    lines.push(piece);
    assert(text::views(lines@) =~= done + seq![p]);
}

fn newline(c: char) -> (b: bool)
    ensures
        b == (c == '\n'),
{
    c == '\n'
}

/// The lines of a document.
pub fn lines_of(title: &str, body: &str) -> (out: Vec<String>)
    ensures
        text::views(out@) == document_lines(title@, body@),
{
    let mut out: Vec<String> = vec![text::owned(title), String::new()];
    let ghost head = seq![title@, Seq::<char>::empty()];
    let raw = text::split::split(body, newline, Ghost(|c: char| c == '\n'));
    let ghost all = text::views(raw@);
    assert(text::views(out@) =~= head + all_wrapped(all.take(0), MAX_CHARS as nat));
    for i in 0..raw.len()
        invariant
            all == text::views(raw@),
            text::views(out@) == head + all_wrapped(all.take(i as int), MAX_CHARS as nat),
    {
        push_wrapped(&mut out, raw[i].as_str());
        assert(all.take(i + 1).drop_last() =~= all.take(i as int));
        assert(all.take(i + 1).last() == raw@[i as int]@);
        assert(text::views(out@) =~= head + all_wrapped(all.take(i + 1), MAX_CHARS as nat));
    }
    assert(all.take(all.len() as int) =~= all);
    out
}

/// The views of a list of pages.
pub open spec fn page_views(pages: Seq<Vec<String>>) -> Seq<Seq<Seq<char>>> {
    pages.map_values(|p: Vec<String>| text::views(p@))
}

/// A list of lines cut into pages.
pub fn paginate(lines: &Vec<String>) -> (out: Vec<Vec<String>>)
    ensures
        page_views(out@) == paged(text::views(lines@), LINES_PER_PAGE as nat),
{
    let mut out: Vec<Vec<String>> = Vec::new();
    let ghost all = text::views(lines@);
    let ghost goal = paged(all, LINES_PER_PAGE as nat);
    let mut start: usize = 0;
    assert(all.skip(0) =~= all);
    assert(page_views(out@) =~= Seq::<Seq<Seq<char>>>::empty());
    assert(page_views(out@) + goal =~= goal);
    while start < lines.len()
        invariant
            all == text::views(lines@),
            start <= lines@.len(),
            goal == page_views(out@) + paged(all.skip(start as int), LINES_PER_PAGE as nat),
        decreases lines@.len() - start,
    {
        let ghost done = page_views(out@);
        let ghost rest = all.skip(start as int);
        let end: usize = if lines.len() - start <= LINES_PER_PAGE {
            lines.len()
        } else {
            start + LINES_PER_PAGE
        };
        let mut page: Vec<String> = Vec::new();
        assert(text::views(page@) =~= all.subrange(start as int, start as int));
        for i in start..end
            invariant
                all == text::views(lines@),
                start <= end <= lines@.len(),
                text::views(page@) == all.subrange(start as int, i as int),
        {
            let ghost before = text::views(page@);
            page.push(text::owned(lines[i].as_str()));
            assert(text::views(page@) =~= before.push(all[i as int]));
            assert(all.subrange(start as int, i + 1) =~= before.push(all[i as int]));
        }
        let ghost p = text::views(page@);
        out.push(page);
        assert(page_views(out@) =~= done.push(p));
        let ghost more = paged(all.skip(end as int), LINES_PER_PAGE as nat);
        proof {
            if rest.len() <= LINES_PER_PAGE {
                assert(p =~= rest);
                assert(more =~= Seq::<Seq<Seq<char>>>::empty());
                assert(done + seq![p] =~= page_views(out@) + more);
            } else {
                assert(p =~= rest.take(LINES_PER_PAGE as int));
                assert(rest.skip(LINES_PER_PAGE as int) =~= all.skip(end as int));
                assert(done + (seq![p] + more) =~= page_views(out@) + more);
            }
        }
        start = end;
    }
    assert(goal =~= page_views(out@));
    out
}

/// The pages of a document.
pub fn layout(title: &str, body: &str) -> (pages: Vec<Vec<String>>)
    ensures
        page_views(pages@) == paged(document_lines(title@, body@), LINES_PER_PAGE as nat),
{
    let lines = lines_of(title, body);
    paginate(&lines)
}

/// A list of texts, one after the other.
pub open spec fn flattened(list: Seq<Seq<char>>) -> Seq<char>
    decreases list.len(),
{
    if list.len() == 0 {
        Seq::empty()
    } else {
        list[0] + flattened(list.drop_first())
    }
}

/// Cutting a line loses nothing, and makes no piece longer than `n`.
pub proof fn wrapping_keeps_the_line(s: Seq<char>, n: nat)
    requires
        n > 0,
    ensures
        flattened(wrapped(s, n)) == s,
        wrapped(s, n).len() > 0,
        forall|i: int| 0 <= i < wrapped(s, n).len() ==> (#[trigger] wrapped(s, n)[i]).len() <= n,
    decreases s.len(),
{
    if s.len() <= n {
        assert(wrapped(s, n).drop_first() =~= Seq::<Seq<char>>::empty());
        assert(flattened(Seq::<Seq<char>>::empty()) =~= Seq::<char>::empty());
        assert(flattened(wrapped(s, n)) =~= s);
    } else {
        let tail = wrapped(s.skip(n as int), n);
        wrapping_keeps_the_line(s.skip(n as int), n);
        assert(wrapped(s, n).drop_first() =~= tail);
        assert(s.take(n as int) + s.skip(n as int) =~= s);
        assert forall|i: int| 0 <= i < wrapped(s, n).len() implies (#[trigger] wrapped(
            s,
            n,
        )[i]).len() <= n by {
            if i > 0 {
                assert(wrapped(s, n)[i] == tail[i - 1]);
            }
        }
    }
}

/// Every line of the body fits on a line of the page.
pub proof fn body_lines_fit(lines: Seq<Seq<char>>, n: nat)
    requires
        n > 0,
    ensures
        forall|i: int|
            0 <= i < all_wrapped(lines, n).len() ==> (#[trigger] all_wrapped(lines, n)[i]).len()
                <= n,
        all_wrapped(lines, n).len() >= lines.len(),
    decreases lines.len(),
{
    if lines.len() > 0 {
        body_lines_fit(lines.drop_last(), n);
        wrapping_keeps_the_line(lines.last(), n);
        let front = all_wrapped(lines.drop_last(), n);
        let back = wrapped(lines.last(), n);
        assert forall|i: int| 0 <= i < all_wrapped(lines, n).len() implies (#[trigger] all_wrapped(
            lines,
            n,
        )[i]).len() <= n by {
            if i >= front.len() {
                assert(all_wrapped(lines, n)[i] == back[i - front.len()]);
            } else {
                assert(all_wrapped(lines, n)[i] == front[i]);
            }
        }
    }
}

/// The pages one after the other.
pub open spec fn unpaged(pages: Seq<Seq<Seq<char>>>) -> Seq<Seq<char>>
    decreases pages.len(),
{
    if pages.len() == 0 {
        Seq::empty()
    } else {
        pages[0] + unpaged(pages.drop_first())
    }
}

/// Paging loses no line and changes no order. No page is empty, and none has
/// more than `n` lines.
pub proof fn paging_keeps_the_lines(lines: Seq<Seq<char>>, n: nat)
    requires
        n > 0,
    ensures
        unpaged(paged(lines, n)) == lines,
        forall|i: int|
            0 <= i < paged(lines, n).len() ==> 0 < (#[trigger] paged(lines, n)[i]).len() <= n,
    decreases lines.len(),
{
    if lines.len() == 0 {
        assert(unpaged(paged(lines, n)) =~= lines);
    } else if lines.len() <= n {
        assert(paged(lines, n).drop_first() =~= Seq::<Seq<Seq<char>>>::empty());
        assert(unpaged(Seq::<Seq<Seq<char>>>::empty()) =~= Seq::<Seq<char>>::empty());
        assert(unpaged(paged(lines, n)) =~= lines);
    } else {
        let tail = paged(lines.skip(n as int), n);
        paging_keeps_the_lines(lines.skip(n as int), n);
        assert(paged(lines, n).drop_first() =~= tail);
        assert(lines.take(n as int) + lines.skip(n as int) =~= lines);
        assert forall|i: int| 0 <= i < paged(lines, n).len() implies 0 < (#[trigger] paged(
            lines,
            n,
        )[i]).len() <= n by {
            if i > 0 {
                assert(paged(lines, n)[i] == tail[i - 1]);
            }
        }
    }
}

/// A line that fits stays as it is, and a longer one is cut into lines that
/// are full but for the last.
pub proof fn lines_are_filled(s: Seq<char>, n: nat)
    requires
        n > 0,
    ensures
        s.len() <= n ==> wrapped(s, n) == seq![s],
        forall|i: int|
            0 <= i < wrapped(s, n).len() - 1 ==> (#[trigger] wrapped(s, n)[i]).len() == n,
    decreases s.len(),
{
    if s.len() > n {
        let tail = wrapped(s.skip(n as int), n);
        lines_are_filled(s.skip(n as int), n);
        assert forall|i: int| 0 <= i < wrapped(s, n).len() - 1 implies (#[trigger] wrapped(
            s,
            n,
        )[i]).len() == n by {
            if i > 0 {
                assert(wrapped(s, n)[i] == tail[i - 1]);
            }
        }
    }
}

/// The lines of two lists are those of the one and then those of the other,
/// and a line alone is cut by itself.
pub proof fn lines_are_cut_one_by_one(a: Seq<Seq<char>>, b: Seq<Seq<char>>, n: nat)
    ensures
        all_wrapped(a + b, n) == all_wrapped(a, n) + all_wrapped(b, n),
        forall|l: Seq<char>| #[trigger] all_wrapped(seq![l], n) == wrapped(l, n),
    decreases b.len(),
{
    assert forall|l: Seq<char>| #[trigger] all_wrapped(seq![l], n) == wrapped(l, n) by {
        assert(seq![l].drop_last() =~= Seq::<Seq<char>>::empty());
        assert(seq![l].last() == l);
        assert(all_wrapped(Seq::<Seq<char>>::empty(), n) =~= Seq::<Seq<char>>::empty());
        assert(all_wrapped(seq![l], n) =~= wrapped(l, n));
    }
    if b.len() == 0 {
        assert(a + b =~= a);
        assert(all_wrapped(a, n) + all_wrapped(b, n) =~= all_wrapped(a, n));
    } else {
        assert((a + b).drop_last() =~= a + b.drop_last());
        assert((a + b).last() == b.last());
        lines_are_cut_one_by_one(a, b.drop_last(), n);
        assert(all_wrapped(a + b, n) =~= all_wrapped(a, n) + all_wrapped(b, n));
    }
}

/// Texts of two lists, one after the other.
proof fn flattening_goes_on(a: Seq<Seq<char>>, b: Seq<Seq<char>>)
    ensures
        flattened(a + b) == flattened(a) + flattened(b),
    decreases a.len(),
{
    if a.len() == 0 {
        assert(a + b =~= b);
        assert(flattened(a) + flattened(b) =~= flattened(b));
    } else {
        assert((a + b)[0] == a[0]);
        assert((a + b).drop_first() =~= a.drop_first() + b);
        flattening_goes_on(a.drop_first(), b);
        assert(a[0] + (flattened(a.drop_first()) + flattened(b)) =~= (a[0] + flattened(
            a.drop_first(),
        )) + flattened(b));
    }
}

/// Nothing of the body is lost, and nothing is added: the lines of the
/// document one after the other read as the lines of the body do.
pub proof fn nothing_of_the_body_is_lost(lines: Seq<Seq<char>>, n: nat)
    requires
        n > 0,
    ensures
        flattened(all_wrapped(lines, n)) == flattened(lines),
    decreases lines.len(),
{
    if lines.len() > 0 {
        let front = lines.drop_last();
        let line = lines.last();
        nothing_of_the_body_is_lost(front, n);
        wrapping_keeps_the_line(line, n);
        lines_are_cut_one_by_one(front, seq![line], n);
        assert(front + seq![line] =~= lines);
        flattening_goes_on(all_wrapped(front, n), wrapped(line, n));
        flattening_goes_on(front, seq![line]);
        assert(seq![line].drop_first() =~= Seq::<Seq<char>>::empty());
        assert(flattened(Seq::<Seq<char>>::empty()) =~= Seq::<char>::empty());
        assert(flattened(seq![line]) =~= line);
    }
}

/// Lines that fit are kept as they are, one for one, with all their white
/// space.
proof fn fitting_lines_stay(lines: Seq<Seq<char>>, n: nat)
    requires
        forall|i: int| 0 <= i < lines.len() ==> (#[trigger] lines[i]).len() <= n,
    ensures
        all_wrapped(lines, n) == lines,
    decreases lines.len(),
{
    if lines.len() > 0 {
        let front = lines.drop_last();
        assert forall|i: int| 0 <= i < front.len() implies (#[trigger] front[i]).len() <= n by {
            assert(front[i] == lines[i]);
        }
        fitting_lines_stay(front, n);
        let line = lines.last();
        assert(line == lines[lines.len() - 1]);
        assert(front + seq![line] =~= lines);
        lines_are_cut_one_by_one(front, seq![line], n);
        assert(wrapped(line, n) == seq![line]);
    }
}

/// A document is its title, a blank line, and the lines of its body. Lines of
/// up to a hundred characters stand in it as they stand in the body, with
/// their indent and all; so chords stay above the words that they belong to.
pub proof fn documents_keep_their_lines(title: Seq<char>, lines: Seq<Seq<char>>)
    requires
        lines.len() > 0,
        forall|k: int, i: int|
            0 <= k < lines.len() && 0 <= i < lines[k].len() ==> #[trigger] lines[k][i] != '\n',
        forall|k: int| 0 <= k < lines.len() ==> (#[trigger] lines[k]).len() <= 100,
    ensures
        document_lines(title, text::joined(lines, seq!['\n'])) == seq![title, Seq::<char>::empty()]
            + lines,
{
    let f = |c: char| c == '\n';
    text::split::pieces_are_found_again(lines, '\n', f);
    fitting_lines_stay(lines, MAX_CHARS as nat);
}

/// Whatever the body, no line of it is longer than a hundred characters, and
/// the lines behind the title and the blank line read as the body does without
/// its line ends.
pub proof fn documents_keep_their_text(title: Seq<char>, body: Seq<char>)
    ensures
        document_lines(title, body).len() >= 3,
        document_lines(title, body)[0] == title,
        document_lines(title, body)[1].len() == 0,
        forall|i: int|
            2 <= i < document_lines(title, body).len() ==> (#[trigger] document_lines(title, body)[
            i]).len() <= 100,
        flattened(document_lines(title, body).skip(2)) == flattened(
            text::split::pieces(body, |c: char| c == '\n'),
        ),
{
    let lines = text::split::pieces(body, |c: char| c == '\n');
    let cut = all_wrapped(lines, MAX_CHARS as nat);
    body_lines_fit(lines, MAX_CHARS as nat);
    nothing_of_the_body_is_lost(lines, MAX_CHARS as nat);
    let all = document_lines(title, body);
    assert(all.skip(2) =~= cut);
    assert forall|i: int| 2 <= i < all.len() implies (#[trigger] all[i]).len() <= 100 by {
        assert(all[i] == cut[i - 2]);
    }
}

/// Every page but the last is full.
pub proof fn pages_are_filled(lines: Seq<Seq<char>>, n: nat)
    requires
        n > 0,
    ensures
        forall|i: int|
            0 <= i < paged(lines, n).len() - 1 ==> (#[trigger] paged(lines, n)[i]).len() == n,
    decreases lines.len(),
{
    if lines.len() > n {
        let tail = paged(lines.skip(n as int), n);
        pages_are_filled(lines.skip(n as int), n);
        assert forall|i: int| 0 <= i < paged(lines, n).len() - 1 implies (#[trigger] paged(
            lines,
            n,
        )[i]).len() == n by {
            if i > 0 {
                assert(paged(lines, n)[i] == tail[i - 1]);
            }
        }
    }
}

/// A text without markers and carriage returns is kept as it is. A marker is
/// taken out, and nothing around it; a carriage return, alone or before a line
/// feed, becomes a line feed.
pub proof fn only_markers_are_taken_out(a: Seq<char>, b: Seq<char>)
    requires
        !a.contains('['),
        !a.contains('\r'),
        !b.contains('['),
        !b.contains('\r'),
    ensures
        unmarked_tab(a) == a,
        unmarked_tab(a + "[tab]"@ + b) == a + b,
        unmarked_tab(a + "[/tab]"@ + b) == a + b,
        unmarked_tab(a + "[ch]"@ + b) == a + b,
        unmarked_tab(a + "[/ch]"@ + b) == a + b,
        unmarked_tab(a + "\r\n"@ + b) == a + "\n"@ + b,
        b.len() > 0 && b[0] != '\n' ==> unmarked_tab(a + "\r"@ + b) == a + "\n"@ + b,
{
    reveal_strlit("[tab]");
    reveal_strlit("[/tab]");
    reveal_strlit("[ch]");
    reveal_strlit("[/ch]");
    reveal_strlit("\r\n");
    reveal_strlit("\r");
    reveal_strlit("\n");
    reveal_strlit("");
    assert(a + ""@ + b =~= a + b);
    plain_stays(a);
    plain_stays_put_together(a, b);
    plain_stays(a + b);
    one_marker_goes(a, "[tab]"@, b, "[tab]"@);
    one_marker_stays(a, "[/tab]"@, b, "[tab]"@, 1);
    one_marker_goes(a, "[/tab]"@, b, "[/tab]"@);
    one_marker_stays(a, "[ch]"@, b, "[tab]"@, 1);
    one_marker_stays(a, "[ch]"@, b, "[/tab]"@, 1);
    one_marker_goes(a, "[ch]"@, b, "[ch]"@);
    one_marker_stays(a, "[/ch]"@, b, "[tab]"@, 1);
    one_marker_stays(a, "[/ch]"@, b, "[/tab]"@, 2);
    one_marker_stays(a, "[/ch]"@, b, "[ch]"@, 1);
    one_marker_goes(a, "[/ch]"@, b, "[/ch]"@);
    ends_are_made_uniform(a, b);
}

/// None of the things that are replaced stands in the text.
spec fn is_plain(s: Seq<char>) -> bool {
    !s.contains('[') && !s.contains('\r')
}

proof fn plain_stays_put_together(a: Seq<char>, b: Seq<char>)
    requires
        is_plain(a),
        is_plain(b),
    ensures
        is_plain(a + b),
{
    let s = a + b;
    assert forall|i: int| 0 <= i < s.len() implies s[i] != '[' && s[i] != '\r' by {
        if i < a.len() {
            assert(a.contains(a[i]));
        } else {
            assert(b.contains(b[i - a.len()]));
        }
    }
}

proof fn plain_stays(s: Seq<char>)
    requires
        is_plain(s),
    ensures
        unmarked_tab(s) == s,
        text::search::replaced(s, "[tab]"@, ""@) == s,
        text::search::replaced(s, "[/tab]"@, ""@) == s,
        text::search::replaced(s, "[ch]"@, ""@) == s,
        text::search::replaced(s, "[/ch]"@, ""@) == s,
        text::search::replaced(s, "\r\n"@, "\n"@) == s,
        text::search::replaced(s, "\r"@, "\n"@) == s,
{
    reveal_strlit("[tab]");
    reveal_strlit("[/tab]");
    reveal_strlit("[ch]");
    reveal_strlit("[/ch]");
    reveal_strlit("\r\n");
    reveal_strlit("\r");
    let e = Seq::<char>::empty();
    text::search::nothing_starts_without_its_first(s, "[tab]"@, e);
    text::search::nothing_starts_without_its_first(s, "[/tab]"@, e);
    text::search::nothing_starts_without_its_first(s, "[ch]"@, e);
    text::search::nothing_starts_without_its_first(s, "[/ch]"@, e);
    text::search::nothing_starts_without_its_first(s, "\r\n"@, e);
    text::search::nothing_starts_without_its_first(s, "\r"@, e);
    text::search::replacing_what_is_not_there(s, "[tab]"@, ""@);
    text::search::replacing_what_is_not_there(s, "[/tab]"@, ""@);
    text::search::replacing_what_is_not_there(s, "[ch]"@, ""@);
    text::search::replacing_what_is_not_there(s, "[/ch]"@, ""@);
    text::search::replacing_what_is_not_there(s, "\r\n"@, "\n"@);
    text::search::replacing_what_is_not_there(s, "\r"@, "\n"@);
}

proof fn one_marker_goes(a: Seq<char>, m: Seq<char>, b: Seq<char>, p: Seq<char>)
    requires
        is_plain(a),
        is_plain(b),
        m == p,
        p.len() > 0,
        p[0] == '[',
    ensures
        text::search::replaced(a + m + b, p, ""@) == a + b,
{
    reveal_strlit("");
    text::search::nothing_starts_without_its_first(a, p, p + b);
    assert(a + p + b =~= a + (p + b));
    text::search::replacing_goes_on_behind(a, p, b, ""@);
    text::search::nothing_starts_without_its_first(b, p, Seq::empty());
    text::search::replacing_what_is_not_there(b, p, ""@);
    assert(a + ""@ + b =~= a + b);
}

/// A marker is not taken for another one, from which it differs in its `k`-th
/// character.
proof fn one_marker_stays(a: Seq<char>, m: Seq<char>, b: Seq<char>, p: Seq<char>, k: int)
    requires
        is_plain(a),
        is_plain(b),
        0 < k < m.len(),
        k < p.len(),
        m[k] != p[k],
        p[0] == '[',
        forall|i: int| 0 < i < m.len() ==> #[trigger] m[i] != '[',
    ensures
        text::search::replaced(a + m + b, p, ""@) == a + m + b,
{
    let s = a + m + b;
    assert forall|i: int| !text::search::occurs_at(s, p, i) by {
        if text::search::occurs_at(s, p, i) {
            let part = s.subrange(i, i + p.len());
            assert(part[0] == s[i]);
            assert(part[k] == s[i + k]);
            if i < a.len() {
                assert(a.contains(a[i]));
            } else if i < a.len() + m.len() {
                assert(s[i] == m[i - a.len()]);
                assert(i == a.len());
                assert(s[i + k] == m[k]);
            } else {
                assert(s[i] == b[i - a.len() - m.len()]);
                assert(b.contains(s[i]));
            }
        }
    }
    text::search::replacing_what_is_not_there(s, p, ""@);
}

proof fn ends_are_made_uniform(a: Seq<char>, b: Seq<char>)
    requires
        is_plain(a),
        is_plain(b),
    ensures
        unmarked_tab(a + "\r\n"@ + b) == a + "\n"@ + b,
        b.len() > 0 && b[0] != '\n' ==> unmarked_tab(a + "\r"@ + b) == a + "\n"@ + b,
{
    reveal_strlit("[tab]");
    reveal_strlit("[/tab]");
    reveal_strlit("[ch]");
    reveal_strlit("[/ch]");
    reveal_strlit("\r\n");
    reveal_strlit("\r");
    reveal_strlit("\n");
    let crlf = a + "\r\n"@ + b;
    let cr = a + "\r"@ + b;
    let lf = a + "\n"@ + b;
    let e = Seq::<char>::empty();
    assert forall|i: int| 0 <= i < crlf.len() implies crlf[i] != '[' by {
        if i < a.len() {
            assert(a.contains(a[i]));
        } else if i >= a.len() + 2 {
            assert(b.contains(b[i - a.len() - 2]));
        }
    }
    assert forall|i: int| 0 <= i < cr.len() implies cr[i] != '[' by {
        if i < a.len() {
            assert(a.contains(a[i]));
        } else if i >= a.len() + 1 {
            assert(b.contains(b[i - a.len() - 1]));
        }
    }
    assert forall|i: int| 0 <= i < lf.len() implies lf[i] != '[' && lf[i] != '\r' by {
        if i < a.len() {
            assert(a.contains(a[i]));
        } else if i >= a.len() + 1 {
            assert(b.contains(b[i - a.len() - 1]));
        }
    }
    no_brackets_no_markers(crlf);
    no_brackets_no_markers(cr);
    plain_stays(lf);
    plain_stays(b);
    text::search::nothing_starts_without_its_first(a, "\r\n"@, "\r\n"@ + b);
    assert(a + "\r\n"@ + b =~= a + ("\r\n"@ + b));
    text::search::replacing_goes_on_behind(a, "\r\n"@, b, "\n"@);
    if b.len() > 0 && b[0] != '\n' {
        assert forall|i: int| !text::search::occurs_at(cr, "\r\n"@, i) by {
            if text::search::occurs_at(cr, "\r\n"@, i) {
                let part = cr.subrange(i, i + 2);
                assert(part[0] == cr[i] && part[1] == cr[i + 1]);
                if i < a.len() {
                    assert(a.contains(a[i]));
                } else if i > a.len() {
                    assert(b.contains(b[i - a.len() - 1]));
                } else {
                    assert(cr[i + 1] == b[0]);
                }
            }
        }
        text::search::replacing_what_is_not_there(cr, "\r\n"@, "\n"@);
        text::search::nothing_starts_without_its_first(a, "\r"@, "\r"@ + b);
        assert(a + "\r"@ + b =~= a + ("\r"@ + b));
        text::search::replacing_goes_on_behind(a, "\r"@, b, "\n"@);
    }
}

proof fn no_brackets_no_markers(s: Seq<char>)
    requires
        !s.contains('['),
    ensures
        text::search::replaced(s, "[tab]"@, ""@) == s,
        text::search::replaced(s, "[/tab]"@, ""@) == s,
        text::search::replaced(s, "[ch]"@, ""@) == s,
        text::search::replaced(s, "[/ch]"@, ""@) == s,
{
    reveal_strlit("[tab]");
    reveal_strlit("[/tab]");
    reveal_strlit("[ch]");
    reveal_strlit("[/ch]");
    let e = Seq::<char>::empty();
    text::search::nothing_starts_without_its_first(s, "[tab]"@, e);
    text::search::nothing_starts_without_its_first(s, "[/tab]"@, e);
    text::search::nothing_starts_without_its_first(s, "[ch]"@, e);
    text::search::nothing_starts_without_its_first(s, "[/ch]"@, e);
    text::search::replacing_what_is_not_there(s, "[tab]"@, ""@);
    text::search::replacing_what_is_not_there(s, "[/tab]"@, ""@);
    text::search::replacing_what_is_not_there(s, "[ch]"@, ""@);
    text::search::replacing_what_is_not_there(s, "[/ch]"@, ""@);
}

/// A page holds seventy-two lines of a hundred characters.
pub proof fn pages_have_their_size()
    ensures
        MAX_CHARS == 100,
        LINES_PER_PAGE == 72,
{
}

/// The view of pages has the lines of each, in order.
pub proof fn page_views_are_those_of_each(pages: Seq<Vec<String>>)
    ensures
        page_views(pages).len() == pages.len(),
        forall|i: int|
            0 <= i < pages.len() ==> (#[trigger] page_views(pages)[i]) == text::views(pages[i]@),
{
}

/// Entities are decoded in what the markers leave, so that nothing that only
/// decoding brings out is taken for a marker.
pub proof fn markers_go_before_entities(a: Seq<char>, b: Seq<char>)
    requires
        !a.contains('['),
        !a.contains('\r'),
        !b.contains('['),
        !b.contains('\r'),
    ensures
        plain_tab(a) == html::unescaped(a),
        plain_tab(a + "[ch]"@ + b) == html::unescaped(a + b),
        plain_tab(a + "[/tab]"@ + b) == html::unescaped(a + b),
{
    only_markers_are_taken_out(a, b);
}

} // verus!
