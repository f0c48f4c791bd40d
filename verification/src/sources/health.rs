//! How the sources are doing: the last success and failure of each, and how
//! many there were.

use crate::clock;
use crate::text;
use vstd::prelude::*;

verus! {

/// As many failures in a row make a source degraded.
pub const DEGRADED_THRESHOLD: u32 = 4;

/// How much of an error message is kept.
pub const MESSAGE_KEPT: usize = 500;

/// How one source is doing.
#[derive(Debug)]
pub struct SourceHealth {
    pub last_ok: Option<i128>,
    pub last_error_at: Option<i128>,
    pub last_error_msg: Option<String>,
    pub consecutive_fails: u32,
    pub consecutive_oks: u32,
    pub total_ok: u64,
    pub total_fail: u64,
}

/// The view of a [`SourceHealth`].
pub struct HealthView {
    pub last_ok: Option<i128>,
    pub last_error_at: Option<i128>,
    pub last_error_msg: Option<Seq<char>>,
    pub consecutive_fails: u32,
    pub consecutive_oks: u32,
    pub total_ok: u64,
    pub total_fail: u64,
}

impl View for SourceHealth {
    type V = HealthView;

    open spec fn view(&self) -> HealthView {
        HealthView {
            last_ok: self.last_ok,
            last_error_at: self.last_error_at,
            last_error_msg: text::view_opt(self.last_error_msg),
            consecutive_fails: self.consecutive_fails,
            consecutive_oks: self.consecutive_oks,
            total_ok: self.total_ok,
            total_fail: self.total_fail,
        }
    }
}

/// A count that has reached its top stays there.
pub open spec fn bumped32(n: u32) -> u32 {
    if n == u32::MAX {
        n
    } else {
        (n + 1) as u32
    }
}

/// A count that has reached its top stays there.
pub open spec fn bumped64(n: u64) -> u64 {
    if n == u64::MAX {
        n
    } else {
        (n + 1) as u64
    }
}

/// What is kept of an error message: its first characters, and an ellipsis
/// where there were more.
pub open spec fn kept_message(msg: Seq<char>) -> Seq<char> {
    if msg.len() > MESSAGE_KEPT {
        msg.take(MESSAGE_KEPT as int).push('…')
    } else {
        msg
    }
}

/// The health of a source of which nothing is known.
pub open spec fn fresh() -> HealthView {
    HealthView {
        last_ok: None,
        last_error_at: None,
        last_error_msg: None,
        consecutive_fails: 0,
        consecutive_oks: 0,
        total_ok: 0,
        total_fail: 0,
    }
}

/// The health after a success.
pub open spec fn after_ok(h: HealthView, now: i128) -> HealthView {
    HealthView {
        last_ok: Some(now),
        consecutive_fails: 0,
        consecutive_oks: bumped32(h.consecutive_oks),
        total_ok: bumped64(h.total_ok),
        ..h
    }
}

/// The health after a failure.
pub open spec fn after_err(h: HealthView, msg: Seq<char>, now: i128) -> HealthView {
    HealthView {
        last_error_at: Some(now),
        last_error_msg: Some(kept_message(msg)),
        consecutive_oks: 0,
        consecutive_fails: bumped32(h.consecutive_fails),
        total_fail: bumped64(h.total_fail),
        ..h
    }
}

/// The source has failed often enough in a row.
pub open spec fn degraded(h: HealthView) -> bool {
    h.consecutive_fails >= DEGRADED_THRESHOLD
}

fn bump32(n: u32) -> (m: u32)
    ensures
        m == bumped32(n),
{
    if n == u32::MAX {
        n
    } else {
        n + 1
    }
}

fn bump64(n: u64) -> (m: u64)
    ensures
        m == bumped64(n),
{
    if n == u64::MAX {
        n
    } else {
        n + 1
    }
}

fn keep_message(msg: &str) -> (out: String)
    ensures
        out@ == kept_message(msg@),
{
    let chars = text::chars_of(msg);
    if chars.len() > MESSAGE_KEPT {
        let mut out = text::slice_of(&chars, 0, MESSAGE_KEPT);
        assert(out@ =~= msg@.take(MESSAGE_KEPT as int));
        out.push('…');
        out
    } else {
        text::owned(msg)
    }
}

impl Default for SourceHealth {
    fn default() -> (h: Self)
        ensures
            h@ == fresh(),
    {
        SourceHealth {
            last_ok: None,
            last_error_at: None,
            last_error_msg: None,
            consecutive_fails: 0,
            consecutive_oks: 0,
            total_ok: 0,
            total_fail: 0,
        }
    }
}

impl SourceHealth {
    /// Notes a success at the instant `now`.
    pub fn record_ok_at(&mut self, now: i128)
        ensures
            final(self)@ == after_ok(old(self)@, now),
    {
        self.last_ok = Some(now);
        self.consecutive_fails = 0;
        self.consecutive_oks = bump32(self.consecutive_oks);
        self.total_ok = bump64(self.total_ok);
    }

    /// Notes a failure at the instant `now`.
    pub fn record_err_at(&mut self, err: &str, now: i128)
        ensures
            final(self)@ == after_err(old(self)@, err@, now),
    {
        self.last_error_at = Some(now);
        self.last_error_msg = Some(keep_message(err));
        self.consecutive_oks = 0;
        self.consecutive_fails = bump32(self.consecutive_fails);
        self.total_fail = bump64(self.total_fail);
    }

    /// Notes a success.
    pub fn record_ok(&mut self)
        ensures
            exists|now: i128|
                clock::in_calendar(now) && final(self)@ == #[trigger] after_ok(old(self)@, now),
    {
        let now = clock::now();
        self.record_ok_at(now);
    }

    /// Notes a failure.
    pub fn record_err(&mut self, err: &str)
        ensures
            exists|now: i128|
                clock::in_calendar(now) && final(self)@ == #[trigger] after_err(
                    old(self)@,
                    err@,
                    now,
                ),
    {
        let now = clock::now();
        self.record_err_at(err, now);
    }

    /// Whether the source has failed often enough in a row.
    pub fn is_degraded(&self) -> (b: bool)
        ensures
            b == degraded(self@),
    {
        self.consecutive_fails >= DEGRADED_THRESHOLD
    }

    /// A copy.
    pub fn duplicate(&self) -> (h: Self)
        ensures
            h@ == self@,
    {
        let msg = match &self.last_error_msg {
            Some(m) => Some(text::owned(m.as_str())),
            None => None,
        };
        SourceHealth {
            last_ok: self.last_ok,
            last_error_at: self.last_error_at,
            last_error_msg: msg,
            consecutive_fails: self.consecutive_fails,
            consecutive_oks: self.consecutive_oks,
            total_ok: self.total_ok,
            total_fail: self.total_fail,
        }
    }
}

/// How a request to a source ended, and when.
pub enum Outcome {
    Success(i128),
    Failure(Seq<char>, i128),
}

/// The health after a list of outcomes.
pub open spec fn after_all(h: HealthView, outcomes: Seq<Outcome>) -> HealthView
    decreases outcomes.len(),
{
    if outcomes.len() == 0 {
        h
    } else {
        let before = after_all(h, outcomes.drop_last());
        match outcomes.last() {
            Outcome::Success(now) => after_ok(before, now),
            Outcome::Failure(msg, now) => after_err(before, msg, now),
        }
    }
}

/// How many failures stand at the end of a list of outcomes.
pub open spec fn trailing_fails(outcomes: Seq<Outcome>) -> nat
    decreases outcomes.len(),
{
    if outcomes.len() == 0 || outcomes.last() is Success {
        0
    } else {
        trailing_fails(outcomes.drop_last()) + 1
    }
}

/// Whatever successes and failures came before, in whatever order, a source
/// is degraded exactly where the last [`DEGRADED_THRESHOLD`] outcomes were all
/// failures.
pub proof fn degraded_by_a_row_of_failures(h: HealthView, outcomes: Seq<Outcome>)
    requires
        h.consecutive_fails == 0,
    ensures
        degraded(after_all(h, outcomes)) <==> outcomes.len() >= DEGRADED_THRESHOLD && forall|i: int|
            outcomes.len() - DEGRADED_THRESHOLD <= i < outcomes.len()
                ==> (#[trigger] outcomes[i]) is Failure,
{
    fails_are_counted(h, outcomes);
    trailing_fails_are_last(outcomes);
    let n = trailing_fails(outcomes) as int;
    if n < DEGRADED_THRESHOLD && outcomes.len() >= DEGRADED_THRESHOLD {
        assert(outcomes[outcomes.len() - n - 1] is Success);
    }
}

/// The count of failures in a row is that of the failures at the end, as far
/// as it goes.
proof fn fails_are_counted(h: HealthView, outcomes: Seq<Outcome>)
    requires
        h.consecutive_fails == 0,
    ensures
        after_all(h, outcomes).consecutive_fails == (if trailing_fails(outcomes) < u32::MAX {
            trailing_fails(outcomes)
        } else {
            u32::MAX as nat
        }),
    decreases outcomes.len(),
{
    if outcomes.len() > 0 {
        fails_are_counted(h, outcomes.drop_last());
    }
}

/// The outcomes at the end are failures, and the one before them is none.
proof fn trailing_fails_are_last(outcomes: Seq<Outcome>)
    ensures
        trailing_fails(outcomes) <= outcomes.len(),
        forall|i: int|
            outcomes.len() - trailing_fails(outcomes) <= i < outcomes.len()
                ==> (#[trigger] outcomes[i]) is Failure,
        trailing_fails(outcomes) < outcomes.len() ==> outcomes[outcomes.len() - trailing_fails(
            outcomes,
        ) - 1] is Success,
    decreases outcomes.len(),
{
    if outcomes.len() > 0 && outcomes.last() is Failure {
        let front = outcomes.drop_last();
        trailing_fails_are_last(front);
        assert forall|i: int|
            outcomes.len() - trailing_fails(outcomes) <= i < outcomes.len() implies (
        #[trigger] outcomes[i]) is Failure by {
            if i < front.len() {
                assert(front[i] == outcomes[i]);
            }
        }
        if trailing_fails(outcomes) < outcomes.len() {
            let k = front.len() - trailing_fails(front) - 1;
            assert(front[k] == outcomes[k]);
        }
    }
}

/// A success ends the row of failures, and a failure that of successes.
pub proof fn rows_end(h: HealthView, msg: Seq<char>, now: i128)
    ensures
        !degraded(after_ok(h, now)),
        after_ok(h, now).consecutive_oks > 0,
        after_err(h, msg, now).consecutive_oks == 0,
        after_err(h, msg, now).consecutive_fails > 0,
{
}

/// The health of every source. Its sources are fixed when it is made.
pub struct HealthMap {
    entries: Vec<(&'static str, SourceHealth)>,
}

/// The views of a list of sources with their health.
pub open spec fn entry_views(entries: Seq<(&'static str, SourceHealth)>) -> Seq<
    (Seq<char>, HealthView),
> {
    entries.map_values(|e: (&'static str, SourceHealth)| (e.0@, e.1@))
}

/// No source is listed twice.
pub open spec fn distinct_ids(entries: Seq<(Seq<char>, HealthView)>) -> bool {
    forall|i: int, j: int|
        0 <= i < j < entries.len() ==> (#[trigger] entries[i]).0 != (#[trigger] entries[j]).0
}

/// The map after a success of the source `id`.
pub open spec fn map_after_ok(
    entries: Seq<(Seq<char>, HealthView)>,
    id: Seq<char>,
    now: i128,
) -> Seq<(Seq<char>, HealthView)> {
    entries.map_values(
        |e: (Seq<char>, HealthView)|
            if e.0 == id {
                (e.0, after_ok(e.1, now))
            } else {
                e
            },
    )
}

/// The map after a failure of the source `id`.
pub open spec fn map_after_err(
    entries: Seq<(Seq<char>, HealthView)>,
    id: Seq<char>,
    msg: Seq<char>,
    now: i128,
) -> Seq<(Seq<char>, HealthView)> {
    entries.map_values(
        |e: (Seq<char>, HealthView)|
            if e.0 == id {
                (e.0, after_err(e.1, msg, now))
            } else {
                e
            },
    )
}

/// The entries for a list of ids, of which nothing is known: each id once, in
/// the order of its first mention.
pub open spec fn fresh_entries(ids: Seq<Seq<char>>) -> Seq<(Seq<char>, HealthView)>
    decreases ids.len(),
{
    if ids.len() == 0 {
        Seq::empty()
    } else {
        let before = fresh_entries(ids.drop_last());
        if before.contains((ids.last(), fresh())) {
            before
        } else {
            before.push((ids.last(), fresh()))
        }
    }
}

impl View for HealthMap {
    type V = Seq<(Seq<char>, HealthView)>;

    closed spec fn view(&self) -> Seq<(Seq<char>, HealthView)> {
        entry_views(self.entries@)
    }
}

impl HealthMap {
    /// The invariant: no source is listed twice.
    pub open spec fn wf(self) -> bool {
        distinct_ids(self@)
    }

    /// Where a source is listed.
    fn position(&self, source_id: &str) -> (r: Option<usize>)
        ensures
            match r {
                Some(i) => i < self.entries@.len() && self@[i as int].0 == source_id@,
                None => forall|j: int|
                    0 <= j < self@.len() ==> (#[trigger] self@[j]).0 != source_id@,
            },
            self@.len() == self.entries@.len(),
    {
        for i in 0..self.entries.len()
            invariant
                self@.len() == self.entries@.len(),
                forall|j: int| 0 <= j < i ==> (#[trigger] self@[j]).0 != source_id@,
        {
            assert(self@[i as int].0 == self.entries@[i as int].0@);
            if text::same(self.entries[i].0, source_id) {
                return Some(i);
            }
        }
        None
    }
}

/// A map for these sources, of which nothing is known. An id that is given
/// twice is listed once.
pub fn new(ids: &[&'static str]) -> (map: HealthMap)
    ensures
        map.wf(),
        map@ == fresh_entries(ids@.map_values(|s: &'static str| s@)),
{
    let mut map = HealthMap { entries: Vec::new() };
    let ghost names = ids@.map_values(|s: &'static str| s@);
    assert(map@ =~= Seq::<(Seq<char>, HealthView)>::empty());
    for k in 0..ids.len()
        invariant
            map.wf(),
            names == ids@.map_values(|s: &'static str| s@),
            forall|i: int| 0 <= i < map@.len() ==> (#[trigger] map@[i]).1 == fresh(),
            map@ == fresh_entries(names.take(k as int)),
    {
        let id = ids[k];
        let ghost before = map@;
        assert(names.take(k + 1).drop_last() =~= names.take(k as int));
        assert(names.take(k + 1).last() == id@);
        let found = map.position(id);
        match found {
            Some(i) => {
                assert(before[i as int] == (id@, fresh()));
            },
            None => {
                map.entries.push((id, SourceHealth::default()));
                assert(map@ =~= before.push((id@, fresh())));
            },
        }
    }
    assert(names.take(names.len() as int) =~= names);
    map
}

/// Notes a success of a source at the instant `now`. A source that is not
/// listed is passed over.
pub fn record_ok_at(map: &mut HealthMap, source_id: &str, now: i128)
    requires
        old(map).wf(),
    ensures
        final(map).wf(),
        final(map)@ == map_after_ok(old(map)@, source_id@, now),
{
    let ghost before = map@;
    let ghost goal = map_after_ok(before, source_id@, now);
    match map.position(source_id) {
        Some(i) => {
            assert(before[i as int].1 == map.entries@[i as int].1@);
            let (id, mut h) = (map.entries[i].0, map.entries[i].1.duplicate());
            h.record_ok_at(now);
            map.entries.set(i, (id, h));
            assert(map@ =~= before.update(i as int, (source_id@, after_ok(before[i as int].1, now))));
            assert(map@ =~= goal);
        },
        None => {
            assert(map@ =~= goal);
        },
    }
}

/// Notes a failure of a source at the instant `now`. A source that is not
/// listed is passed over.
pub fn record_err_at(map: &mut HealthMap, source_id: &str, err: &str, now: i128)
    requires
        old(map).wf(),
    ensures
        final(map).wf(),
        final(map)@ == map_after_err(old(map)@, source_id@, err@, now),
{
    let ghost before = map@;
    let ghost goal = map_after_err(before, source_id@, err@, now);
    match map.position(source_id) {
        Some(i) => {
            assert(before[i as int].1 == map.entries@[i as int].1@);
            let (id, mut h) = (map.entries[i].0, map.entries[i].1.duplicate());
            h.record_err_at(err, now);
            map.entries.set(i, (id, h));
            assert(map@ =~= before.update(
                i as int,
                (source_id@, after_err(before[i as int].1, err@, now)),
            ));
            assert(map@ =~= goal);
        },
        None => {
            assert(map@ =~= goal);
        },
    }
}

/// Notes a success of a source.
pub fn record_ok(map: &mut HealthMap, source_id: &str)
    requires
        old(map).wf(),
    ensures
        final(map).wf(),
        exists|now: i128|
            clock::in_calendar(now) && final(map)@ == #[trigger] map_after_ok(
                old(map)@,
                source_id@,
                now,
            ),
{
    let now = clock::now();
    record_ok_at(map, source_id, now);
}

/// Notes a failure of a source.
pub fn record_err(map: &mut HealthMap, source_id: &str, err: &str)
    requires
        old(map).wf(),
    ensures
        final(map).wf(),
        exists|now: i128|
            clock::in_calendar(now) && final(map)@ == #[trigger] map_after_err(
                old(map)@,
                source_id@,
                err@,
                now,
            ),
{
    let now = clock::now();
    record_err_at(map, source_id, err, now);
}

/// Entries in the order of their ids, none of which occurs twice.
pub open spec fn in_order(entries: Seq<(Seq<char>, HealthView)>) -> bool {
    forall|i: int, j: int|
        0 <= i < j < entries.len() ==> {
            &&& text::lex_le((#[trigger] entries[i]).0, (#[trigger] entries[j]).0)
            &&& entries[i].0 != entries[j].0
        }
}

/// The health of every source, in the order of the ids.
pub fn snapshot(map: &HealthMap) -> (out: Vec<(&'static str, SourceHealth)>)
    requires
        map.wf(),
    ensures
        out@.len() == map@.len(),
        in_order(entry_views(out@)),
        forall|i: int|
            0 <= i < map@.len() ==> entry_views(out@).contains(#[trigger] map@[i]),
        forall|i: int|
            0 <= i < out@.len() ==> map@.contains(#[trigger] entry_views(out@)[i]),
{
    let mut out: Vec<(&'static str, SourceHealth)> = Vec::new();
    for k in 0..map.entries.len()
        invariant
            map.wf(),
            map@ == entry_views(map.entries@),
            map@.len() == map.entries@.len(),
            out@.len() == k,
            in_order(entry_views(out@)),
            forall|i: int| 0 <= i < k ==> entry_views(out@).contains(#[trigger] map@[i]),
            forall|i: int|
                0 <= i < out@.len() ==> map@.take(k as int).contains(
                    #[trigger] entry_views(out@)[i],
                ),
    {
        let id = map.entries[k].0;
        let ghost sorted = entry_views(out@);
        let ghost entry = map@[k as int];
        let mut p: usize = 0;
        while p < out.len() && text::at_most(out[p].0, id)
            invariant
                p <= out@.len(),
                sorted == entry_views(out@),
                forall|i: int| 0 <= i < p ==> text::lex_le((#[trigger] sorted[i]).0, id@),
            decreases out@.len() - p,
        {
            assert(sorted[p as int].0 == out@[p as int].0@);
            p = p + 1;
        }
        proof {
            assert forall|i: int| 0 <= i < sorted.len() implies (#[trigger] sorted[i]).0 != entry.0 by {
                let j = choose|j: int| 0 <= j < k && map@.take(k as int)[j] == sorted[i];
                assert(map@[j] == sorted[i]);
            }
            if p < sorted.len() {
                assert(sorted[p as int].0 == out@[p as int].0@);
                text::lex_le_total(sorted[p as int].0, id@);
                assert forall|i: int| p <= i < sorted.len() implies text::lex_le(
                    id@,
                    (#[trigger] sorted[i]).0,
                ) by {
                    if i > p {
                        text::lex_le_transitive(id@, sorted[p as int].0, sorted[i].0);
                    }
                }
            }
        }
        let h = map.entries[k].1.duplicate();
        out.insert(p, (id, h));
        proof {
            let now = entry_views(out@);
            assert(now =~= sorted.insert(p as int, entry));
            assert(now[p as int] == entry);
            assert forall|i: int| 0 <= i < k + 1 implies now.contains(#[trigger] map@[i]) by {
                if i < k {
                    let j = choose|j: int| 0 <= j < sorted.len() && sorted[j] == map@[i];
                    if j < p {
                        assert(now[j] == map@[i]);
                    } else {
                        assert(now[j + 1] == map@[i]);
                    }
                }
            }
            assert forall|i: int| 0 <= i < now.len() implies map@.take(k + 1).contains(
                #[trigger] now[i],
            ) by {
                if i == p {
                    assert(map@.take(k + 1)[k as int] == now[i]);
                } else {
                    let o = if i < p {
                        i
                    } else {
                        i - 1
                    };
                    assert(now[i] == sorted[o]);
                    let j = choose|j: int| 0 <= j < k && map@.take(k as int)[j] == sorted[o];
                    assert(map@.take(k + 1)[j] == now[i]);
                }
            }
        }
    }
    assert(map@.take(map@.len() as int) =~= map@);
    out
}

/// A success adds one to the successes and notes its time, and leaves what is
/// known of failures; a failure the other way round, with its message.
pub proof fn outcomes_are_counted(h: HealthView, msg: Seq<char>, now: i128)
    requires
        h.total_ok < u64::MAX,
        h.total_fail < u64::MAX,
        h.consecutive_oks < u32::MAX,
        h.consecutive_fails < u32::MAX,
    ensures
        ({
            let g = after_ok(h, now);
            &&& g.total_ok == h.total_ok + 1
            &&& g.total_fail == h.total_fail
            &&& g.consecutive_oks == h.consecutive_oks + 1
            &&& g.consecutive_fails == 0
            &&& g.last_ok == Some(now)
            &&& g.last_error_at == h.last_error_at
            &&& g.last_error_msg == h.last_error_msg
        }),
        ({
            let b = after_err(h, msg, now);
            &&& b.total_ok == h.total_ok
            &&& b.total_fail == h.total_fail + 1
            &&& b.consecutive_oks == 0
            &&& b.consecutive_fails == h.consecutive_fails + 1
            &&& b.last_ok == h.last_ok
            &&& b.last_error_at == Some(now)
            &&& msg.len() <= 500 ==> b.last_error_msg == Some(msg)
        }),
        degraded(h) <==> h.consecutive_fails >= 4,
{
}

/// Counts stop at their top, and a message is cut behind its first five
/// hundred characters.
pub proof fn counts_and_messages_have_a_top(h: HealthView, msg: Seq<char>, more: Seq<char>, now: i128)
    ensures
        h.total_ok == u64::MAX ==> after_ok(h, now).total_ok == u64::MAX,
        h.total_fail == u64::MAX ==> after_err(h, msg, now).total_fail == u64::MAX,
        h.consecutive_oks == u32::MAX ==> after_ok(h, now).consecutive_oks == u32::MAX,
        h.consecutive_fails == u32::MAX ==> after_err(h, msg, now).consecutive_fails == u32::MAX,
        msg.len() == 500 && more.len() > 0 ==> kept_message(msg + more) == msg + seq!['…'],
{
    if msg.len() == 500 && more.len() > 0 {
        assert((msg + more).take(500) =~= msg);
        assert(kept_message(msg + more) =~= msg + seq!['…']);
    }
}

/// Only the source that was asked changes; the others, their order and their
/// ids stay.
pub proof fn other_sources_stay(
    entries: Seq<(Seq<char>, HealthView)>,
    id: Seq<char>,
    msg: Seq<char>,
    now: i128,
)
    ensures
        map_after_ok(entries, id, now).len() == entries.len(),
        map_after_err(entries, id, msg, now).len() == entries.len(),
        forall|i: int|
            0 <= i < entries.len() && (#[trigger] entries[i]).0 != id ==> map_after_ok(
                entries,
                id,
                now,
            )[i] == entries[i] && map_after_err(entries, id, msg, now)[i] == entries[i],
        forall|i: int|
            0 <= i < entries.len() && (#[trigger] entries[i]).0 == id ==> map_after_ok(
                entries,
                id,
                now,
            )[i] == (id, after_ok(entries[i].1, now)) && map_after_err(entries, id, msg, now)[i]
                == (id, after_err(entries[i].1, msg, now)),
{
}

/// Every source that is named is listed, with nothing known of it; naming it
/// again adds nothing, and a new one comes last.
pub proof fn sources_are_listed_once(ids: Seq<Seq<char>>, id: Seq<char>)
    ensures
        forall|k: int|
            0 <= k < ids.len() ==> fresh_entries(ids).contains((#[trigger] ids[k], fresh())),
        forall|i: int|
            0 <= i < fresh_entries(ids).len() ==> ids.contains(
                (#[trigger] fresh_entries(ids)[i]).0,
            ) && fresh_entries(ids)[i].1 == fresh(),
        ids.contains(id) ==> fresh_entries(ids.push(id)) == fresh_entries(ids),
        !ids.contains(id) ==> fresh_entries(ids.push(id)) == fresh_entries(ids).push(
            (id, fresh()),
        ),
        fresh().last_ok is None && fresh().last_error_at is None && fresh().last_error_msg is None
            && fresh().total_ok == 0 && fresh().total_fail == 0 && fresh().consecutive_oks == 0
            && fresh().consecutive_fails == 0,
    decreases ids.len(),
{
    assert(ids.push(id).drop_last() =~= ids);
    assert(ids.push(id).last() == id);
    if ids.len() > 0 {
        let front = ids.drop_last();
        let last = ids.last();
        let before = fresh_entries(front);
        let all = fresh_entries(ids);
        sources_are_listed_once(front, last);
        assert(front.push(last) =~= ids);
        assert forall|k: int| 0 <= k < ids.len() implies all.contains(
            (#[trigger] ids[k], fresh()),
        ) by {
            if k < front.len() {
                assert(front[k] == ids[k]);
                let j = choose|j: int| 0 <= j < before.len() && before[j] == (ids[k], fresh());
                assert(all[j] == before[j]);
            } else if !before.contains((last, fresh())) {
                assert(all[before.len() as int] == (last, fresh()));
            }
        }
        assert forall|i: int| 0 <= i < all.len() implies ids.contains((#[trigger] all[i]).0)
            && all[i].1 == fresh() by {
            if i < before.len() {
                assert(all[i] == before[i]);
                let j = choose|j: int| 0 <= j < front.len() && front[j] == before[i].0;
                assert(ids[j] == before[i].0);
            } else {
                assert(ids[ids.len() - 1] == last);
            }
        }
    }
    if ids.contains(id) {
        let k = choose|k: int| 0 <= k < ids.len() && ids[k] == id;
        assert(fresh_entries(ids).contains((ids[k], fresh())));
    } else if fresh_entries(ids).contains((id, fresh())) {
        let i = choose|i: int| 0 <= i < fresh_entries(ids).len() && fresh_entries(ids)[i] == (id, fresh());
        assert(ids.contains(fresh_entries(ids)[i].0));
    }
}

/// The view of a health record has every field of it.
pub proof fn views_show_every_field(h: SourceHealth)
    ensures
        h@.last_ok == h.last_ok,
        h@.last_error_at == h.last_error_at,
        h@.last_error_msg == text::view_opt(h.last_error_msg),
        h@.consecutive_fails == h.consecutive_fails,
        h@.consecutive_oks == h.consecutive_oks,
        h@.total_ok == h.total_ok,
        h@.total_fail == h.total_fail,
{
}

/// Two sources in order are told apart, and the one that comes first in the
/// dictionary stands first.
pub proof fn order_is_that_of_the_ids(entries: Seq<(Seq<char>, HealthView)>, i: int, j: int)
    requires
        in_order(entries),
        0 <= i < j < entries.len(),
    ensures
        entries[i].0 != entries[j].0,
        text::lex_le(entries[i].0, entries[j].0),
{
}

} // verus!
