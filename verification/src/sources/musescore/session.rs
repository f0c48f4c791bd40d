//! The pool of browser sessions at FlareSolverr.

use crate::text;
use vstd::prelude::*;

verus! {

/// The pool's size where none is configured.
pub const POOL_DEFAULT: usize = 3;

/// How often every session is recreated, in seconds.
pub const REFRESH_INTERVAL_SECS: u64 = 86_400;

/// The size that a setting asks for: at least one; the default where there is
/// no setting or it is no number.
pub open spec fn pool_size_of(setting: Option<Seq<char>>) -> nat {
    match setting {
        Some(s) => match text::number::parsed_unsigned(s, usize::MAX as nat) {
            Some(n) => if n == 0 {
                1
            } else {
                n
            },
            None => POOL_DEFAULT as nat,
        },
        None => POOL_DEFAULT as nat,
    }
}

pub fn pool_size(setting: Option<&str>) -> (n: usize)
    ensures
        n == pool_size_of(
            match setting {
                Some(s) => Some(s@),
                None => None,
            },
        ),
        n >= 1,
{
    match setting {
        Some(s) => match text::number::parse_unsigned(s, usize::MAX as u64) {
            Some(n) => if n == 0 {
                1
            } else {
                n as usize
            },
            None => POOL_DEFAULT,
        },
        None => POOL_DEFAULT,
    }
}

/// The name of the session in slot `i`.
pub open spec fn session_name(i: nat) -> Seq<char> {
    "musescore-"@ + text::number::decimal(i)
}

/// What has to be done for a session.
#[derive(Debug)]
pub enum Acquire {
    /// Nothing: there is no pool, and the call goes without a session.
    NoPool,
    /// Nothing: the slot has a session.
    Ready(String),
    /// Create this session for the slot, then report.
    Create { slot: usize, name: String },
}

/// The sessions, one per slot, handed out in turn.
pub struct SessionPool {
    slots: Vec<Option<String>>,
    cursor: usize,
}

impl SessionPool {
    /// The session of each slot.
    pub closed spec fn sessions(self) -> Seq<Option<Seq<char>>> {
        self.slots@.map_values(|s: Option<String>| text::view_opt(s))
    }

    /// How many sessions have been handed out.
    pub closed spec fn turn(self) -> usize {
        self.cursor
    }

    /// The invariant: a slot is empty or has the session of its own name.
    pub open spec fn wf(self) -> bool {
        forall|i: int|
            0 <= i < self.sessions().len() ==> {
                let s = #[trigger] self.sessions()[i];
                s is None || s == Some(session_name(i as nat))
            }
    }

    /// The slot whose turn it is.
    pub open spec fn next_slot(self) -> int
        recommends
            self.sessions().len() > 0,
    {
        self.turn() as int % self.sessions().len() as int
    }

    /// A pool of `size` empty slots.
    pub fn new(size: usize) -> (p: Self)
        ensures
            p.wf(),
            p.turn() == 0,
            p.sessions() == Seq::new(size as nat, |i: int| None::<Seq<char>>),
    {
        let mut slots: Vec<Option<String>> = Vec::new();
        for i in 0..size
            invariant
                slots@.len() == i,
                forall|j: int| 0 <= j < i ==> (#[trigger] slots@[j]) is None,
        {
            slots.push(None);
        }
        let p = SessionPool { slots, cursor: 0 };
        assert(p.sessions() =~= Seq::new(size as nat, |i: int| None::<Seq<char>>));
        p
    }

    pub fn len(&self) -> (n: usize)
        ensures
            n == self.sessions().len(),
    {
        self.slots.len()
    }

    /// The session that slot `i` has; none where it is empty or there is no
    /// such slot.
    pub fn held(&self, i: usize) -> (session: Option<&str>)
        ensures
            text::view_str(session) == (if i < self.sessions().len() {
                self.sessions()[i as int]
            } else {
                None
            }),
    {
        if i >= self.slots.len() {
            return None;
        }
        assert(self.sessions()[i as int] == text::view_opt(self.slots@[i as int]));
        match &self.slots[i] {
            Some(s) => Some(s.as_str()),
            None => None,
        }
    }

    /// The name of the session in slot `i`.
    pub fn name_of(i: usize) -> (name: String)
        ensures
            name@ == session_name(i as nat),
    {
        text::concat("musescore-", text::number::to_decimal(i as u64).as_str())
    }

    /// Takes the next turn: the session of its slot, or the order to create
    /// it.
    pub fn acquire_session(&mut self) -> (a: Acquire)
        requires
            old(self).wf(),
        ensures
            final(self).wf(),
            final(self).sessions() == old(self).sessions(),
            if old(self).sessions().len() == 0 {
                a is NoPool && final(self).turn() == old(self).turn()
            } else {
                let i = old(self).next_slot();
                &&& final(self).turn() == (if old(self).turn() == usize::MAX {
                    0
                } else {
                    old(self).turn() + 1
                })
                &&& match old(self).sessions()[i] {
                    Some(s) => a matches Acquire::Ready(r) && r@ == s,
                    None => a matches Acquire::Create { slot, name } && slot == i && name@
                        == session_name(i as nat),
                }
            },
    {
        if self.slots.len() == 0 {
            return Acquire::NoPool;
        }
        let i: usize = self.cursor % self.slots.len();
        self.cursor = if self.cursor == usize::MAX {
            0
        } else {
            self.cursor + 1
        };
        assert(self.sessions() == old(self).sessions());
        assert(self.sessions()[i as int] == text::view_opt(self.slots@[i as int]));
        match &self.slots[i] {
            Some(s) => Acquire::Ready(text::owned(s.as_str())),
            None => Acquire::Create { slot: i, name: Self::name_of(i) },
        }
    }

    /// Reports whether the session of a slot was created. The slot then has
    /// it, or is empty.
    pub fn created(&mut self, slot: usize, ok: bool) -> (session: Option<String>)
        requires
            old(self).wf(),
            slot < old(self).sessions().len(),
        ensures
            final(self).wf(),
            final(self).turn() == old(self).turn(),
            text::view_opt(session) == (if ok {
                Some(session_name(slot as nat))
            } else {
                None
            }),
            final(self).sessions() == old(self).sessions().update(
                slot as int,
                text::view_opt(session),
            ),
    {
        let session = if ok {
            Some(Self::name_of(slot))
        } else {
            None
        };
        let kept = if ok {
            Some(Self::name_of(slot))
        } else {
            None
        };
        self.slots.set(slot, kept);
        assert(self.sessions() =~= old(self).sessions().update(
            slot as int,
            text::view_opt(session),
        ));
        session
    }

    /// Empties a slot, and gives the session that has to be destroyed.
    pub fn take(&mut self, slot: usize) -> (session: Option<String>)
        requires
            old(self).wf(),
            slot < old(self).sessions().len(),
        ensures
            final(self).wf(),
            final(self).turn() == old(self).turn(),
            text::view_opt(session) == old(self).sessions()[slot as int],
            final(self).sessions() == old(self).sessions().update(slot as int, None),
    {
        assert(self.sessions()[slot as int] == text::view_opt(self.slots@[slot as int]));
        let session = match &self.slots[slot] {
            Some(s) => Some(text::owned(s.as_str())),
            None => None,
        };
        self.slots.set(slot, None);
        assert(self.sessions() =~= old(self).sessions().update(slot as int, None));
        session
    }

    /// Empties the slot that has this session. The others stay as they are.
    pub fn invalidate_session(&mut self, session: &str)
        requires
            old(self).wf(),
        ensures
            final(self).wf(),
            final(self).turn() == old(self).turn(),
            final(self).sessions() == old(self).sessions().map_values(
                |s: Option<Seq<char>>|
                    if s == Some(session@) {
                        None
                    } else {
                        s
                    },
            ),
    {
        let ghost all = self.sessions();
        let ghost cleared = all.map_values(
            |s: Option<Seq<char>>|
                if s == Some(session@) {
                    None
                } else {
                    s
                },
        );
        let n: usize = self.slots.len();
        for i in 0..n
            invariant
                n == self.slots@.len(),
                *self == *old(self),
                self.wf(),
                all == self.sessions(),
                all.len() == self.slots@.len(),
                cleared == all.map_values(
                    |s: Option<Seq<char>>|
                        if s == Some(session@) {
                            None
                        } else {
                            s
                        },
                ),
                forall|j: int| 0 <= j < i ==> (#[trigger] all[j]) != Some(session@),
        {
            assert(all[i as int] == text::view_opt(self.slots@[i as int]));
            let hit = match &self.slots[i] {
                Some(s) => text::same(s.as_str(), session),
                None => false,
            };
            if hit {
                assert forall|j: int| 0 <= j < all.len() && j != i implies (#[trigger] all[j])
                    != Some(session@) by {
                    if all[j] == Some(session@) {
                        names_differ(i as nat, j as nat);
                    }
                }
                self.slots.set(i, None);
                assert(self.sessions() =~= all.update(i as int, None));
                assert(self.sessions() =~= cleared);
                return ;
            }
        }
        assert(all =~= cleared);
    }
}

/// Two slots never have a session of the same name.
pub proof fn names_differ(i: nat, j: nat)
    requires
        session_name(i) == session_name(j),
    ensures
        i == j,
{
    let p = "musescore-"@;
    assert(session_name(i).skip(p.len() as int) =~= text::number::decimal(i));
    assert(session_name(j).skip(p.len() as int) =~= text::number::decimal(j));
    text::number::decimal_injective(i, j);
}

/// Sessions are handed out in turn: as many calls in a row as there are slots
/// reach every slot once.
pub proof fn turns_reach_every_slot(turn: nat, size: nat, slot: nat)
    requires
        0 < size,
        slot < size,
    ensures
        exists|k: nat| k < size && #[trigger] ((turn + k) % size) == slot,
{
    let n = size as int;
    let t = turn as int;
    let d = slot - t % n;
    let k: nat = (d % n) as nat;
    vstd::arithmetic::div_mod::lemma_mod_bound(d, n);
    vstd::arithmetic::div_mod::lemma_add_mod_noop_right(t, d, n);
    vstd::arithmetic::div_mod::lemma_fundamental_div_mod(t, n);
    vstd::arithmetic::div_mod::lemma_mod_multiples_vanish(t / n, slot as int, n);
    vstd::arithmetic::div_mod::lemma_small_mod(slot, size);
    assert(t + d == n * (t / n) + slot);
    assert(k < size && (turn + k) % size == slot);
}

/// A turn goes to the slot behind the one before it, and from the last slot to
/// the first; the first turns of a pool go to its slots from the first on.
pub proof fn turns_go_round(before: SessionPool, after: SessionPool)
    requires
        before.sessions().len() > 0,
        after.sessions().len() == before.sessions().len(),
        after.turn() == before.turn() + 1,
    ensures
        0 <= before.next_slot() < before.sessions().len(),
        before.turn() < before.sessions().len() ==> before.next_slot() == before.turn(),
        after.next_slot() == (if before.next_slot() + 1 == before.sessions().len() {
            0
        } else {
            before.next_slot() + 1
        }),
{
    next_remainder(before.turn() as int, before.sessions().len() as int);
}

proof fn next_remainder(t: int, n: int)
    requires
        0 <= t,
        0 < n,
    ensures
        0 <= t % n < n,
        t < n ==> t % n == t,
        (t + 1) % n == (if t % n + 1 == n {
            0
        } else {
            t % n + 1
        }),
{
    let q = t / n;
    let m = t % n;
    vstd::arithmetic::div_mod::lemma_mod_bound(t, n);
    vstd::arithmetic::div_mod::lemma_fundamental_div_mod(t, n);
    if t < n {
        vstd::arithmetic::div_mod::lemma_small_mod(t as nat, n as nat);
    }
    if m + 1 == n {
        vstd::arithmetic::mul::lemma_mul_is_distributive_add(n, q, 1);
        vstd::arithmetic::mul::lemma_mul_is_commutative(n, q + 1);
        vstd::arithmetic::div_mod::lemma_fundamental_div_mod_converse(t + 1, n, q + 1, 0);
    } else {
        vstd::arithmetic::mul::lemma_mul_is_commutative(n, q);
        vstd::arithmetic::div_mod::lemma_fundamental_div_mod_converse(t + 1, n, q, m + 1);
    }
}

/// A pool is as large as the setting says and never empty; three slots are
/// there where the setting is missing or no number. The name of a session
/// tells its slot.
pub proof fn pools_are_as_large_as_set(n: usize, s: Seq<char>, slot: nat)
    ensures
        n >= 1 ==> pool_size_of(Some(text::number::decimal(n as nat))) == n,
        pool_size_of(Some(text::number::decimal(0))) == 1,
        pool_size_of(None) == 3,
        text::number::parsed_unsigned(s, usize::MAX as nat) is None ==> pool_size_of(Some(s)) == 3,
        pool_size_of(Some(s)) >= 1,
        text::search::without_prefix(session_name(slot), "musescore-"@) == Some(
            text::number::decimal(slot),
        ),
        REFRESH_INTERVAL_SECS == 24 * 60 * 60,
{
    text::number::decimal_round_trip(n as nat, usize::MAX as nat);
    text::number::decimal_round_trip(0, usize::MAX as nat);
    text::search::affixes_come_off("musescore-"@, text::number::decimal(slot));
}

} // verus!
