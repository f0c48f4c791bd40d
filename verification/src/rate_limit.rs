//! Daily quotas.

use crate::clock;
use crate::text;
use vstd::prelude::*;

verus! {

pub const EMAIL_PER_IP_PER_DAY: i64 = 10;

pub const EMAIL_PER_RECIPIENT_PER_DAY: i64 = 5;

pub const EMAIL_GLOBAL_PER_DAY: i64 = 200;

/// The count of a bucket after one more action; none where the quota is used
/// up. A bucket without a count has seen no action.
pub open spec fn counted(count: Option<i64>, limit: i64) -> Option<i64> {
    let current = match count {
        Some(n) => n,
        None => 0,
    };
    if current >= limit {
        None
    } else {
        Some((current + 1) as i64)
    }
}

/// Whether one more action is within the quota: the new count of its bucket
/// where it is.
pub fn check_and_increment(count: Option<i64>, limit: i64) -> (r: Option<i64>)
    ensures
        r == counted(count, limit),
{
    let current: i64 = match count {
        Some(n) => n,
        None => 0,
    };
    if current >= limit {
        None
    } else {
        Some(current + 1)
    }
}

/// How many of `n` actions in a row a bucket allows, and its count after
/// them.
pub open spec fn allowed(count: Option<i64>, limit: i64, n: nat) -> (nat, Option<i64>)
    decreases n,
{
    if n == 0 {
        (0, count)
    } else {
        let (done, at) = allowed(count, limit, (n - 1) as nat);
        match counted(at, limit) {
            Some(m) => (done + 1, Some(m)),
            None => (done, at),
        }
    }
}

/// A bucket that has seen no action allows as many as its quota says, and no
/// more, however many are tried.
pub proof fn quota_is_exact(limit: i64, n: nat)
    ensures
        allowed(None, limit, n).0 == (if limit <= 0 {
            0
        } else if n <= limit {
            n
        } else {
            limit as nat
        }),
{
    count_follows(limit, n);
}

proof fn count_follows(limit: i64, n: nat)
    ensures
        ({
            let (done, at) = allowed(None, limit, n);
            &&& done == (if limit <= 0 {
                0
            } else if n <= limit {
                n
            } else {
                limit as nat
            })
            &&& match at {
                Some(m) => m == done && done > 0,
                None => done == 0,
            }
        }),
    decreases n,
{
    if n > 0 {
        count_follows(limit, (n - 1) as nat);
    }
}

/// The day on which an action counts; none outside the years 0 to 9999.
pub fn day_at(now: i128) -> (r: Option<String>)
    ensures
        text::view_opt(r) == clock::iso_date(now),
        r is Some <==> clock::YEAR_ZERO <= now < clock::YEAR_TEN_THOUSAND,
{
    clock::format_date(now)
}

/// The day on which an action counts now.
pub fn today_utc() -> (r: Option<String>)
    ensures
        exists|now: i128|
            clock::in_calendar(now) && (r is Some <==> clock::YEAR_ZERO <= now)
                && text::view_opt(r) == #[trigger] clock::iso_date(now),
{
    let now = clock::now();
    day_at(now)
}

/// An action within the quota adds one to the count, whatever it was; one past
/// it adds nothing. Mail is limited to ten a day from an address, five to a
/// recipient and two hundred in all.
pub proof fn actions_count_one_by_one(n: i64, limit: i64)
    ensures
        n < limit ==> counted(Some(n), limit) == Some((n + 1) as i64),
        n >= limit ==> counted(Some(n), limit) is None,
        counted(None, limit) == counted(Some(0), limit),
        EMAIL_PER_IP_PER_DAY == 10,
        EMAIL_PER_RECIPIENT_PER_DAY == 5,
        EMAIL_GLOBAL_PER_DAY == 200,
{
}

} // verus!
