//! Fetching a page that Cloudflare may guard.
//!
//! A direct request comes first. Only where it fails, and where FlareSolverr
//! is there, is the page fetched through it: after a second direct try behind
//! the lock that lets one solver through at a time, and with one more attempt
//! where the session turns out to be gone.

use crate::sources::flaresolverr;
use crate::sources::flaresolverr::{FsError, FsSolution};
use crate::sources::musescore::page;
use crate::text;
use vstd::prelude::*;

verus! {

/// How much of a direct answer is quoted.
pub const DIRECT_QUOTE: usize = 160;

/// How much of a solved answer is quoted.
pub const SOLVED_QUOTE: usize = 200;

/// How far a fetch has come.
#[derive(Debug, Clone, Copy, PartialEq, Eq, Structural)]
pub enum FetchState {
    /// The first direct request is out.
    Direct,
    /// The second direct request is out, behind the lock.
    Turn,
    /// A session is being acquired.
    Session { retried: bool },
    /// FlareSolverr has the request.
    Solve { retried: bool },
    /// The fetch is over.
    Over,
}

/// What happened.
#[derive(Debug)]
pub enum FetchEvent {
    /// A direct request gave the page, or why it did not.
    Direct(Result<String, String>),
    /// A session was acquired, or none could be.
    Session(Option<String>),
    /// FlareSolverr answered.
    Solved(Result<FsSolution, FsError>),
}

/// Why a fetch failed.
#[derive(Debug)]
pub enum FetchFailure {
    /// The direct request failed, and there is no FlareSolverr.
    NoSolver { reason: String },
    /// FlareSolverr got an error page.
    Status(FsSolution),
    /// FlareSolverr failed.
    Solver(FsError),
    /// The event does not belong to the state.
    OutOfOrder,
}

/// What to do next.
#[derive(Debug)]
pub enum FetchAction {
    /// Wait for the lock, then send the direct request again.
    TakeTurn,
    /// Acquire a session.
    AcquireSession,
    /// Forget this session, then acquire one.
    Replace { gone: String },
    /// Send the request to FlareSolverr.
    Solve { session: Option<String> },
    /// Give back this page.
    Page(String),
    /// Keep the cookies and the user agent, then give back the response.
    Keep(FsSolution),
    /// Give up.
    Fail(FetchFailure),
}

/// What follows an event.
pub open spec fn next(state: FetchState, event: FetchEvent, has_solver: bool) -> (
    FetchState,
    FetchAction,
) {
    match (state, event) {
        (FetchState::Direct, FetchEvent::Direct(Ok(p))) => (
            FetchState::Over,
            FetchAction::Page(p),
        ),
        (FetchState::Direct, FetchEvent::Direct(Err(reason))) => if has_solver {
            (FetchState::Turn, FetchAction::TakeTurn)
        } else {
            (FetchState::Over, FetchAction::Fail(FetchFailure::NoSolver { reason }))
        },
        (FetchState::Turn, FetchEvent::Direct(Ok(p))) => (FetchState::Over, FetchAction::Page(p)),
        (FetchState::Turn, FetchEvent::Direct(Err(_))) => (
            FetchState::Session { retried: false },
            FetchAction::AcquireSession,
        ),
        (FetchState::Session { retried }, FetchEvent::Session(session)) => (
            FetchState::Solve { retried },
            FetchAction::Solve { session },
        ),
        (FetchState::Solve { .. }, FetchEvent::Solved(Ok(solution))) => if solution.status >= 400 {
            (FetchState::Over, FetchAction::Fail(FetchFailure::Status(solution)))
        } else {
            (FetchState::Over, FetchAction::Keep(solution))
        },
        (FetchState::Solve { retried }, FetchEvent::Solved(Err(e))) => match (retried, e) {
            (false, FsError::SessionMissing { session }) => (
                FetchState::Session { retried: true },
                FetchAction::Replace { gone: session },
            ),
            (_, e) => (FetchState::Over, FetchAction::Fail(FetchFailure::Solver(e))),
        },
        _ => (FetchState::Over, FetchAction::Fail(FetchFailure::OutOfOrder)),
    }
}

/// What follows an event.
pub fn step(state: FetchState, event: FetchEvent, has_solver: bool) -> (r: (
    FetchState,
    FetchAction,
))
    ensures
        r == next(state, event, has_solver),
{
    match (state, event) {
        (FetchState::Direct, FetchEvent::Direct(Ok(p))) => (
            FetchState::Over,
            FetchAction::Page(p),
        ),
        (FetchState::Direct, FetchEvent::Direct(Err(reason))) => if has_solver {
            (FetchState::Turn, FetchAction::TakeTurn)
        } else {
            (FetchState::Over, FetchAction::Fail(FetchFailure::NoSolver { reason }))
        },
        (FetchState::Turn, FetchEvent::Direct(Ok(p))) => (FetchState::Over, FetchAction::Page(p)),
        (FetchState::Turn, FetchEvent::Direct(Err(_))) => (
            FetchState::Session { retried: false },
            FetchAction::AcquireSession,
        ),
        (FetchState::Session { retried }, FetchEvent::Session(session)) => (
            FetchState::Solve { retried },
            FetchAction::Solve { session },
        ),
        (FetchState::Solve { .. }, FetchEvent::Solved(Ok(solution))) => if solution.status >= 400 {
            (FetchState::Over, FetchAction::Fail(FetchFailure::Status(solution)))
        } else {
            (FetchState::Over, FetchAction::Keep(solution))
        },
        (FetchState::Solve { retried }, FetchEvent::Solved(Err(e))) => match (retried, e) {
            (false, FsError::SessionMissing { session }) => (
                FetchState::Session { retried: true },
                FetchAction::Replace { gone: session },
            ),
            (_, e) => (FetchState::Over, FetchAction::Fail(FetchFailure::Solver(e))),
        },
        _ => (FetchState::Over, FetchAction::Fail(FetchFailure::OutOfOrder)),
    }
}

/// How many steps a fetch may still take.
pub open spec fn steps_left(state: FetchState) -> nat {
    match state {
        FetchState::Direct => 6,
        FetchState::Turn => 5,
        FetchState::Session { retried } => if retried {
            2
        } else {
            4
        },
        FetchState::Solve { retried } => if retried {
            1
        } else {
            3
        },
        FetchState::Over => 0,
    }
}

/// Every step brings a fetch closer to its end, and a fetch that is over has
/// given back a page or failed.
pub proof fn fetch_ends(state: FetchState, event: FetchEvent, has_solver: bool)
    requires
        state !is Over,
    ensures
        ({
            let (after, action) = next(state, event, has_solver);
            &&& steps_left(after) < steps_left(state)
            &&& after is Over <==> (action is Page || action is Keep || action is Fail)
        }),
{
}

/// A direct request failed.
pub open spec fn direct_failed(event: FetchEvent) -> bool {
    event matches FetchEvent::Direct(r) && r is Err
}

/// FlareSolverr did not know the session.
pub open spec fn session_lost(event: FetchEvent) -> bool {
    event matches FetchEvent::Solved(Err(e)) && e is SessionMissing
}

/// FlareSolverr is asked only where it is there, and only after two direct
/// requests have failed. It is asked a second time only where it did not know
/// the session, and not a third time.
pub proof fn solver_comes_last(state: FetchState, event: FetchEvent, has_solver: bool)
    ensures
        ({
            let (after, action) = next(state, event, has_solver);
            &&& action is Solve ==> state is Session && after == (FetchState::Solve {
                retried: state->Session_retried,
            })
            &&& after is Turn ==> state is Direct && has_solver && direct_failed(event)
            &&& after == (FetchState::Session { retried: false }) ==> state is Turn
                && direct_failed(event)
            &&& after == (FetchState::Session { retried: true }) ==> state == (FetchState::Solve {
                retried: false,
            }) && session_lost(event)
        }),
{
}

/// A page is given back only where a direct request brought it, or
/// FlareSolverr did with a status below 400.
pub proof fn pages_are_genuine(state: FetchState, event: FetchEvent, has_solver: bool)
    ensures
        next(state, event, has_solver).1 matches FetchAction::Page(p) ==> event
            == FetchEvent::Direct(Ok(p)),
        next(state, event, has_solver).1 matches FetchAction::Keep(s) ==> event
            == FetchEvent::Solved(Ok(s)) && s.status < 400,
{
}

/// What the answer to a direct request amounts to: the page, or why it is
/// not.
pub open spec fn direct_verdict(is_success: bool, status: Seq<char>, body: Seq<char>) -> Result<
    Seq<char>,
    Seq<char>,
> {
    if !is_success {
        Err("HTTP "@ + status + ": "@ + text::first_chars(body, DIRECT_QUOTE as nat))
    } else if page::is_challenge(body) {
        Err("Cloudflare challenge interstitial"@)
    } else {
        Ok(body)
    }
}

pub fn judge_direct(is_success: bool, status: &str, body: String) -> (r: Result<String, String>)
    ensures
        direct_verdict(is_success, status@, body@) == (match r {
            Ok(p) => Ok(p@),
            Err(e) => Err(e@),
        }),
{
    if !is_success {
        let head = text::concat3("HTTP ", status, ": ");
        let quote = page::truncate_for_log(body.as_str(), DIRECT_QUOTE);
        return Err(text::concat(head.as_str(), quote.as_str()));
    }
    if page::looks_like_cf_challenge(body.as_str()) {
        return Err(text::owned("Cloudflare challenge interstitial"));
    }
    Ok(body)
}

/// What a failed fetch of a page reports.
pub open spec fn failure_text(label: Seq<char>, url: Seq<char>, failure: FetchFailure) -> Seq<char> {
    match failure {
        FetchFailure::NoSolver { reason } => "musescore "@ + label
            + ": direct fetch did not return the page ("@ + reason@
            + "); no FlareSolverr configured — set FLARESOLVERR_URL or route egress through an unchallenged proxy ("@
            + url + ")"@,
        FetchFailure::Status(s) => "flaresolverr "@ + label + " HTTP "@ + text::number::decimal(
            s.status as nat,
        ) + ": "@ + text::first_chars(s.response@, SOLVED_QUOTE as nat),
        FetchFailure::Solver(e) => "flaresolverr "@ + label + " "@ + url + ": "@
            + flaresolverr::error_text(e@),
        FetchFailure::OutOfOrder => "musescore "@ + label + ": event out of order"@,
    }
}

pub fn failure_message(label: &str, url: &str, failure: &FetchFailure) -> (out: String)
    ensures
        out@ == failure_text(label@, url@, *failure),
{
    match failure {
        FetchFailure::NoSolver { reason } => {
            let head = text::concat3(
                "musescore ",
                label,
                ": direct fetch did not return the page (",
            );
            let told = text::concat3(
                head.as_str(),
                reason.as_str(),
                "); no FlareSolverr configured — set FLARESOLVERR_URL or route egress through an unchallenged proxy (",
            );
            text::concat3(told.as_str(), url, ")")
        },
        FetchFailure::Status(s) => {
            let head = text::concat3("flaresolverr ", label, " HTTP ");
            let status = text::number::to_decimal(s.status as u64);
            let told = text::concat3(head.as_str(), status.as_str(), ": ");
            let quote = page::truncate_for_log(s.response.as_str(), SOLVED_QUOTE);
            text::concat(told.as_str(), quote.as_str())
        },
        FetchFailure::Solver(e) => {
            let head = text::concat3("flaresolverr ", label, " ");
            let told = text::concat3(head.as_str(), url, ": ");
            text::concat(told.as_str(), e.message().as_str())
        },
        FetchFailure::OutOfOrder => text::concat3("musescore ", label, ": event out of order"),
    }
}

/// Whether a solve for the sake of its cookie brought one: its status is
/// below 400.
pub fn check_warm(status: u16) -> (r: Result<(), String>)
    ensures
        match r {
            Ok(_) => status < 400,
            Err(e) => status >= 400 && e@ == "flaresolverr warm-up HTTP "@ + text::number::decimal(
                status as nat,
            ),
        },
{
    if status < 400 {
        Ok(())
    } else {
        Err(
            text::concat(
                "flaresolverr warm-up HTTP ",
                text::number::to_decimal(status as u64).as_str(),
            ),
        )
    }
}

/// A page that the first direct request brings is given back, and so is one
/// that the second brings behind the lock. Where both fail, FlareSolverr gets
/// the session that was acquired, and what it brings is kept, unless its
/// status says that it is an error page.
pub proof fn fetches_go_on_until_a_page_is_there(
    first: String,
    second: String,
    page: String,
    session: Option<String>,
    solution: FsSolution,
    failure: FsError,
)
    requires
        failure !is SessionMissing,
    ensures
        next(FetchState::Direct, FetchEvent::Direct(Ok(page)), true).1 == FetchAction::Page(page),
        next(FetchState::Direct, FetchEvent::Direct(Ok(page)), false).1 == FetchAction::Page(page),
        next(FetchState::Direct, FetchEvent::Direct(Err(first)), false).1 == FetchAction::Fail(
            FetchFailure::NoSolver { reason: first },
        ),
        ({
            let (turn, wait) = next(FetchState::Direct, FetchEvent::Direct(Err(first)), true);
            let (acquire, ask) = next(turn, FetchEvent::Direct(Err(second)), true);
            let (solve, send) = next(acquire, FetchEvent::Session(session), true);
            &&& wait == FetchAction::TakeTurn
            &&& next(turn, FetchEvent::Direct(Ok(page)), true).1 == FetchAction::Page(page)
            &&& ask == FetchAction::AcquireSession
            &&& send == (FetchAction::Solve { session })
            &&& next(solve, FetchEvent::Solved(Ok(solution)), true).1 == (if solution.status < 400 {
                FetchAction::Keep(solution)
            } else {
                FetchAction::Fail(FetchFailure::Status(solution))
            })
            &&& next(solve, FetchEvent::Solved(Err(failure)), true).1 == FetchAction::Fail(
                FetchFailure::Solver(failure),
            )
        }),
{
}

/// A session that FlareSolverr did not know is replaced by another, once: what
/// FlareSolverr brings with that one is kept, and a second session that is
/// gone is the end.
pub proof fn lost_sessions_are_replaced_once(
    gone: String,
    again: String,
    session: Option<String>,
    other: Option<String>,
    solution: FsSolution,
)
    requires
        solution.status < 400,
    ensures
        ({
            let acquire = FetchState::Session { retried: false };
            let solve = next(acquire, FetchEvent::Session(session), true).0;
            let lost = FetchEvent::Solved(Err(FsError::SessionMissing { session: gone }));
            let (reacquire, replace) = next(solve, lost, true);
            let (resolve, send) = next(reacquire, FetchEvent::Session(other), true);
            let lost_again = FetchEvent::Solved(Err(FsError::SessionMissing { session: again }));
            &&& replace == (FetchAction::Replace { gone })
            &&& send == (FetchAction::Solve { session: other })
            &&& next(resolve, FetchEvent::Solved(Ok(solution)), true).1 == FetchAction::Keep(
                solution,
            )
            &&& next(resolve, lost_again, true).1 == FetchAction::Fail(
                FetchFailure::Solver(FsError::SessionMissing { session: again }),
            )
        }),
{
}

/// An answer is the page exactly where the request succeeded and the body is
/// not one of Cloudflare's. What is reported of one that failed names the
/// status and quotes the body, up to a hundred and sixty characters of it.
pub proof fn answers_are_pages_or_say_why(status: Seq<char>, body: Seq<char>)
    ensures
        direct_verdict(true, status, body) is Ok <==> !page::is_challenge(body),
        direct_verdict(true, status, body) is Ok ==> direct_verdict(true, status, body)->Ok_0
            == body,
        direct_verdict(true, status, body) is Err ==> direct_verdict(true, status, body)->Err_0
            == "Cloudflare challenge interstitial"@,
        direct_verdict(false, status, body) is Err,
        ("HTTP "@ + status).is_prefix_of(direct_verdict(false, status, body)->Err_0),
        body.len() <= 160 ==> direct_verdict(false, status, body)->Err_0 == "HTTP "@ + status
            + ": "@ + body,
        direct_verdict(false, status, body)->Err_0.len() <= "HTTP "@.len() + status.len()
            + ": "@.len() + 160,
{
    let told = direct_verdict(false, status, body)->Err_0;
    let head = "HTTP "@ + status;
    assert(told.subrange(0, head.len() as int) =~= head);
    assert(body.take(body.len() as int) =~= body);
}

/// What is reported of a failure starts with who failed and at what, and holds
/// the reason; that of an error page names its status and quotes at most two
/// hundred characters of it.
pub proof fn failures_say_what_happened(
    label: Seq<char>,
    url: Seq<char>,
    reason: String,
    solution: FsSolution,
    e: FsError,
)
    ensures
        ("musescore "@ + label).is_prefix_of(
            failure_text(label, url, FetchFailure::NoSolver { reason }),
        ),
        (url + ")"@).is_suffix_of(failure_text(label, url, FetchFailure::NoSolver { reason })),
        text::search::contains(
            failure_text(label, url, FetchFailure::NoSolver { reason }),
            "("@ + reason@ + ")"@,
        ),
        ("flaresolverr "@ + label + " HTTP "@ + text::number::decimal(
            solution.status as nat,
        )).is_prefix_of(failure_text(label, url, FetchFailure::Status(solution))),
        solution.response@.len() <= 200 ==> (": "@ + solution.response@).is_suffix_of(
            failure_text(label, url, FetchFailure::Status(solution)),
        ),
        ("flaresolverr "@ + label + " "@ + url).is_prefix_of(
            failure_text(label, url, FetchFailure::Solver(e)),
        ),
        flaresolverr::error_text(e@).is_suffix_of(
            failure_text(label, url, FetchFailure::Solver(e)),
        ),
{
    assert(({
        let t = failure_text(label, url, FetchFailure::NoSolver { reason });
        let a = "musescore "@ + label;
        let b = "("@ + reason@ + ")"@;
        &&& a.is_prefix_of(t)
        &&& (url + ")"@).is_suffix_of(t)
        &&& text::search::contains(t, b)
    })) by {
        let t = failure_text(label, url, FetchFailure::NoSolver { reason });
        let a = "musescore "@ + label;
        let b = "("@ + reason@ + ")"@;
        let c = ": direct fetch did not return the page ("@;
        let d = "); no FlareSolverr configured — set FLARESOLVERR_URL or route egress through an unchallenged proxy ("@;
        assert(t.subrange(0, a.len() as int) =~= a);
        let e = url + ")"@;
        assert(t.subrange(t.len() - e.len(), t.len() as int) =~= e);
        assert("("@.len() == 1 && "("@[0] == '(') by {
            reveal_strlit("(");
        }
        assert(")"@.len() == 1 && ")"@[0] == ')') by {
            reveal_strlit(")");
        }
        assert(c.len() > 0 && c.last() == '(') by {
            reveal_strlit(": direct fetch did not return the page (");
        }
        assert(d.len() > 0 && d[0] == ')') by {
            reveal_strlit(
                "); no FlareSolverr configured — set FLARESOLVERR_URL or route egress through an unchallenged proxy (",
            );
        }
        let k = a.len() as int + c.len() - 1;
        assert(t.subrange(k, k + b.len()) =~= b);
        assert(text::search::occurs_at(t, b, k));
    }
    let s = failure_text(label, url, FetchFailure::Status(solution));
    let p = "flaresolverr "@ + label + " HTTP "@ + text::number::decimal(solution.status as nat);
    assert(s.subrange(0, p.len() as int) =~= p);
    if solution.response@.len() <= 200 {
        let r = solution.response@;
        assert(r.take(r.len() as int) =~= r);
        let q = ": "@ + r;
        assert(s.subrange(s.len() - q.len(), s.len() as int) =~= q);
    }
    let f = failure_text(label, url, FetchFailure::Solver(e));
    let h = "flaresolverr "@ + label + " "@ + url;
    assert(f.subrange(0, h.len() as int) =~= h);
    let m = flaresolverr::error_text(e@);
    assert(f.subrange(f.len() - m.len(), f.len() as int) =~= m);
}

/// An event that does not belong to the state ends the fetch, and so does any
/// event once it is over.
pub proof fn events_belong_to_their_state(state: FetchState, event: FetchEvent, has_solver: bool)
    requires
        state is Over || (state is Direct || state is Turn) && event !is Direct || state is Session
            && event !is Session || state is Solve && event !is Solved,
    ensures
        next(state, event, has_solver) == (
            FetchState::Over,
            FetchAction::Fail(FetchFailure::OutOfOrder),
        ),
{
}

} // verus!
