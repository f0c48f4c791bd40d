//! FlareSolverr: the companion service that fetches pages through a real
//! browser, past Cloudflare's challenge.
//!
//! A call answers with an envelope. What an envelope means is decided here;
//! sending the call is not.

use crate::text;
use vstd::prelude::*;

verus! {

/// How long one call may take, in seconds.
pub const FS_TIMEOUT_SECS: u64 = 45;

/// How long the service may try to solve a challenge, in milliseconds.
pub const FS_MAX_TIMEOUT_MS: u64 = 45_000;

/// A cookie that the browser was given.
#[derive(Debug)]
pub struct FsCookie {
    pub name: String,
    pub value: String,
    pub domain: String,
    pub path: String,
    pub secure: bool,
}

/// A page as the browser got it.
#[derive(Debug)]
pub struct FsSolution {
    /// The address after redirects.
    pub url: String,
    /// The HTTP status of the page.
    pub status: u16,
    pub response: String,
    /// The browser's user agent, to which the clearance cookie is bound.
    pub user_agent: String,
    pub cookies: Vec<FsCookie>,
}

/// The answer to a call.
#[derive(Debug)]
pub struct FsEnvelope {
    pub status: String,
    pub message: Option<String>,
    pub solution: Option<FsSolution>,
}

/// The body of a `request.get` call.
#[derive(Debug)]
pub struct FsRequest {
    pub cmd: String,
    pub url: String,
    pub max_timeout: u64,
    pub session: Option<String>,
}

/// The body of a `sessions.create` or `sessions.destroy` call.
#[derive(Debug)]
pub struct FsSessionCmd {
    pub cmd: String,
    pub session: String,
}

/// Why a `request.get` call gave no page.
#[derive(Debug)]
pub enum FsError {
    /// The service does not know the session.
    SessionMissing { session: String },
    /// The service reports another failure.
    Status { status: String, message: Option<String> },
    /// The service reports success, but gives no page.
    NoSolution,
    /// The service could not be reached or understood.
    Other(String),
}

/// The view of an [`FsError`].
pub enum FsErrorView {
    SessionMissing { session: Seq<char> },
    Status { status: Seq<char>, message: Option<Seq<char>> },
    NoSolution,
    Other(Seq<char>),
}

impl View for FsError {
    type V = FsErrorView;

    open spec fn view(&self) -> FsErrorView {
        match self {
            FsError::SessionMissing { session } => FsErrorView::SessionMissing {
                session: session@,
            },
            FsError::Status { status, message } => FsErrorView::Status {
                status: status@,
                message: text::view_opt(*message),
            },
            FsError::NoSolution => FsErrorView::NoSolution,
            FsError::Other(e) => FsErrorView::Other(e@),
        }
    }
}

/// An optional text as `{:?}` writes it.
pub uninterp spec fn debug_text(s: Option<Seq<char>>) -> Seq<char>;

/// `format!` with `{:?}` on an optional text. The result depends on the text
/// alone.
#[verifier::external_body]
fn debug(s: &Option<String>) -> (out: String)
    ensures
        out@ == debug_text(text::view_opt(*s)),
{
    format!("{:?}", s)
}

/// What an error says.
pub open spec fn error_text(e: FsErrorView) -> Seq<char> {
    match e {
        FsErrorView::SessionMissing { session } => "flaresolverr session missing: "@ + session,
        FsErrorView::Status { status, message } => "flaresolverr returned status="@ + status
            + " message="@ + debug_text(message),
        FsErrorView::NoSolution => "flaresolverr returned no solution"@,
        FsErrorView::Other(e) => e,
    }
}

impl FsError {
    /// What the error says.
    pub fn message(&self) -> (out: String)
        ensures
            out@ == error_text(self@),
    {
        match self {
            FsError::SessionMissing { session } => text::concat(
                "flaresolverr session missing: ",
                session.as_str(),
            ),
            FsError::Status { status, message } => {
                let head = text::concat3("flaresolverr returned status=", status.as_str(), " message=");
                text::concat(head.as_str(), debug(message).as_str())
            },
            FsError::NoSolution => text::owned("flaresolverr returned no solution"),
            FsError::Other(e) => text::owned(e.as_str()),
        }
    }
}

/// `msg` reports that a session is not known, in one of the wordings that the
/// service has used, in any case.
pub open spec fn reports_missing_session(msg: Seq<char>) -> bool {
    let m = text::ascii_lowered(msg);
    &&& text::search::contains(m, "session"@)
    &&& {
        ||| text::search::contains(m, "does not exist"@)
        ||| text::search::contains(m, "doesn't exist"@)
        ||| text::search::contains(m, "not found"@)
        ||| text::search::contains(m, "no such session"@)
    }
}

pub fn is_missing_session_message(msg: &str) -> (b: bool)
    ensures
        b == reports_missing_session(msg@),
{
    let m = text::ascii_lowercase(msg);
    text::search::has(m.as_str(), "session") && (text::search::has(m.as_str(), "does not exist")
        || text::search::has(m.as_str(), "doesn't exist") || text::search::has(
        m.as_str(),
        "not found",
    ) || text::search::has(m.as_str(), "no such session"))
}

/// The complaint about a session call that failed.
pub open spec fn session_complaint(
    cmd: Seq<char>,
    status: Seq<char>,
    message: Option<Seq<char>>,
) -> Seq<char> {
    "flaresolverr "@ + cmd + " status="@ + status + " message="@ + debug_text(message)
}

fn complain(cmd: &str, status: &str, message: &Option<String>) -> (out: String)
    ensures
        out@ == session_complaint(cmd@, status@, text::view_opt(*message)),
{
    let head = text::concat3("flaresolverr ", cmd, " status=");
    let head = text::concat3(head.as_str(), status, " message=");
    text::concat(head.as_str(), debug(message).as_str())
}

/// What a `request.get` answer amounts to: the page, or why there is none. A
/// missing session is told apart only where the call named one.
pub open spec fn get_verdict(env: FsEnvelope, session: Option<Seq<char>>) -> Result<
    FsSolution,
    FsErrorView,
> {
    if env.status@ != "ok"@ {
        if session is Some && env.message is Some && reports_missing_session(env.message->0@) {
            Err(FsErrorView::SessionMissing { session: session->0 })
        } else {
            Err(FsErrorView::Status { status: env.status@, message: text::view_opt(env.message) })
        }
    } else {
        match env.solution {
            Some(s) => Ok(s),
            None => Err(FsErrorView::NoSolution),
        }
    }
}

/// The service at one address.
#[derive(Debug)]
pub struct FlareSolverr {
    base_url: String,
}

impl FlareSolverr {
    /// The address, without slashes at its end.
    pub closed spec fn base(self) -> Seq<char> {
        self.base_url@
    }

    pub fn new(base_url: String) -> (fs: Self)
        ensures
            fs.base() == text::trim::dropped_back(base_url@, |c: char| c == '/'),
    {
        FlareSolverr { base_url: text::trim::trim_end_char(base_url.as_str(), '/') }
    }

    /// Where calls are sent.
    pub fn endpoint(&self) -> (url: String)
        ensures
            url@ == self.base() + "/v1"@,
    {
        text::concat(self.base_url.as_str(), "/v1")
    }

    /// The call that creates a session.
    pub fn create_request(&self, session: &str) -> (cmd: FsSessionCmd)
        ensures
            cmd.cmd@ == "sessions.create"@,
            cmd.session@ == session@,
    {
        FsSessionCmd { cmd: text::owned("sessions.create"), session: text::owned(session) }
    }

    /// The call that destroys a session.
    pub fn destroy_request(&self, session: &str) -> (cmd: FsSessionCmd)
        ensures
            cmd.cmd@ == "sessions.destroy"@,
            cmd.session@ == session@,
    {
        FsSessionCmd { cmd: text::owned("sessions.destroy"), session: text::owned(session) }
    }

    /// The call that fetches a page, in a session where one is given.
    pub fn get_request(&self, url: &str, session: Option<&str>) -> (req: FsRequest)
        ensures
            req.cmd@ == "request.get"@,
            req.url@ == url@,
            req.max_timeout == FS_MAX_TIMEOUT_MS,
            text::view_opt(req.session) == (match session {
                Some(s) => Some(s@),
                None => None,
            }),
    {
        FsRequest {
            cmd: text::owned("request.get"),
            url: text::owned(url),
            max_timeout: FS_MAX_TIMEOUT_MS,
            session: text::owned_opt(session),
        }
    }

    /// Whether the session was created.
    pub fn create_session(&self, env: &FsEnvelope) -> (r: Result<(), String>)
        ensures
            match r {
                Ok(_) => env.status@ == "ok"@,
                Err(e) => env.status@ != "ok"@ && e@ == session_complaint(
                    "sessions.create"@,
                    env.status@,
                    text::view_opt(env.message),
                ),
            },
    {
        if text::same(env.status.as_str(), "ok") {
            Ok(())
        } else {
            Err(complain("sessions.create", env.status.as_str(), &env.message))
        }
    }

    /// Whether the session is gone. One that was not there is gone too.
    pub fn destroy_session(&self, env: &FsEnvelope) -> (r: Result<(), String>)
        ensures
            ({
                let gone = env.status@ == "ok"@ || (env.message is Some && reports_missing_session(
                    env.message->0@,
                ));
                match r {
                    Ok(_) => gone,
                    Err(e) => !gone && e@ == session_complaint(
                        "sessions.destroy"@,
                        env.status@,
                        text::view_opt(env.message),
                    ),
                }
            }),
    {
        if text::same(env.status.as_str(), "ok") {
            return Ok(());
        }
        if let Some(msg) = &env.message {
            if is_missing_session_message(msg.as_str()) {
                return Ok(());
            }
        }
        Err(complain("sessions.destroy", env.status.as_str(), &env.message))
    }

    /// The page in the answer, or why there is none.
    pub fn get(&self, env: FsEnvelope, session: Option<&str>) -> (r: Result<FsSolution, FsError>)
        ensures
            get_verdict(
                env,
                match session {
                    Some(s) => Some(s@),
                    None => None,
                },
            ) == (match r {
                Ok(s) => Ok(s),
                Err(e) => Err(e@),
            }),
    {
        if !text::same(env.status.as_str(), "ok") {
            if let Some(session) = session {
                if let Some(msg) = &env.message {
                    if is_missing_session_message(msg.as_str()) {
                        return Err(FsError::SessionMissing { session: text::owned(session) });
                    }
                }
            }
            return Err(FsError::Status { status: env.status, message: env.message });
        }
        match env.solution {
            Some(s) => Ok(s),
            None => Err(FsError::NoSolution),
        }
    }
}

/// A cookie in the form of a `Set-Cookie` header: scoped to its domain
/// without leading dots, and to `/` where it names no path.
pub open spec fn cookie_header(c: FsCookie) -> Seq<char> {
    let path = if c.path@.len() == 0 {
        "/"@
    } else {
        c.path@
    };
    let secure = if c.secure {
        "; Secure"@
    } else {
        ""@
    };
    c.name@ + "="@ + c.value@ + "; Domain="@ + text::trim::dropped_front(
        c.domain@,
        |d: char| d == '.',
    ) + "; Path="@ + path + secure
}

/// A cookie in the form of a `Set-Cookie` header.
pub fn cookie_string(c: &FsCookie) -> (out: String)
    ensures
        out@ == cookie_header(*c),
{
    let path = if text::is_empty(c.path.as_str()) {
        "/"
    } else {
        c.path.as_str()
    };
    let secure = if c.secure {
        "; Secure"
    } else {
        ""
    };
    let domain = text::trim::trim_start_char(c.domain.as_str(), '.');
    let pair = text::concat3(c.name.as_str(), "=", c.value.as_str());
    let scoped = text::concat3(pair.as_str(), "; Domain=", domain.as_str());
    let rooted = text::concat3(scoped.as_str(), "; Path=", path);
    text::concat(rooted.as_str(), secure)
}

/// Keeps the user agent of the last solve. An empty one is not kept.
pub fn remember_ua(kept: &mut Option<String>, ua: &str)
    ensures
        text::view_opt(*final(kept)) == (if ua@.len() == 0 {
            text::view_opt(*old(kept))
        } else {
            Some(ua@)
        }),
{
    if !text::is_empty(ua) {
        *kept = Some(text::owned(ua));
    }
}

// ----- What the rules above amount to -----

/// A message reports a missing session where it speaks of a session and says,
/// in one of four wordings and in any case, that it is not there; one that
/// does not speak of a session never does.
pub proof fn missing_sessions_are_recognised(a: Seq<char>, b: Seq<char>, word: Seq<char>)
    ensures
        text::ascii_lowered(word) == "does not exist"@ || text::ascii_lowered(word)
            == "doesn't exist"@ || text::ascii_lowered(word) == "not found"@ ==> (
        reports_missing_session(a + "session"@ + b + word) && reports_missing_session(
            a + word + b + "session"@,
        )),
        text::ascii_lowered(word) == "no such session"@ ==> reports_missing_session(a + word + b),
        forall|msg: Seq<char>| #[trigger]
            reports_missing_session(msg) ==> text::search::contains(
                text::ascii_lowered(msg),
                "session"@,
            ),
        forall|msg: Seq<char>| #[trigger]
            reports_missing_session(msg) == reports_missing_session(text::ascii_lowered(msg)),
{
    words_are_found(a, "session"@, b, word);
    words_are_found(a, word, b, "session"@);
    assert(text::ascii_lowered("session"@) =~= "session"@) by {
        reveal_strlit("session");
    }
    if text::ascii_lowered(word) == "no such session"@ {
        text::lowered_parts_are_found(a, word, b);
        no_such_session_is_of_a_session(text::ascii_lowered(a + word + b));
    }
    assert forall|msg: Seq<char>| #[trigger]
        reports_missing_session(msg) == reports_missing_session(text::ascii_lowered(msg)) by {
        text::lowering_changes_capitals_alone(msg, msg);
    }
}

proof fn words_are_found(a: Seq<char>, first: Seq<char>, b: Seq<char>, second: Seq<char>)
    ensures
        text::search::contains(
            text::ascii_lowered(a + first + b + second),
            text::ascii_lowered(first),
        ),
        text::search::contains(
            text::ascii_lowered(a + first + b + second),
            text::ascii_lowered(second),
        ),
{
    let e = Seq::<char>::empty();
    text::lowered_parts_are_found(a, first, b + second);
    text::lowered_parts_are_found(a + first + b, second, e);
    assert(a + first + (b + second) =~= a + first + b + second);
    assert(a + first + b + second + e =~= a + first + b + second);
}

proof fn no_such_session_is_of_a_session(m: Seq<char>)
    requires
        text::search::contains(m, "no such session"@),
    ensures
        text::search::contains(m, "session"@),
{
    let i = choose|i: int| text::search::occurs_at(m, "no such session"@, i);
    let n = "no such session"@.len() as int;
    let whole = m.subrange(i, i + n);
    assert("no such session"@ =~= "no such "@ + "session"@) by {
        reveal_strlit("no such session");
        reveal_strlit("no such ");
        reveal_strlit("session");
    }
    let k = "no such "@.len() as int;
    assert(whole == "no such "@ + "session"@);
    assert(m.subrange(i + k, i + n) =~= whole.subrange(k, n));
    assert(whole.subrange(k, n) =~= "session"@);
    assert(text::search::occurs_at(m, "session"@, i + k));
}

/// An answer gives its page exactly where it reports success and has one. One
/// that reports failure is told as a missing session only where the call named
/// a session and the message says so, and then that session is named;
/// otherwise the answer's own status and message are told.
pub proof fn answers_give_their_page_or_say_why(env: FsEnvelope, session: Seq<char>)
    ensures
        get_verdict(env, None) is Ok <==> env.status@ == "ok"@ && env.solution is Some,
        get_verdict(env, None) is Ok ==> get_verdict(env, None)->Ok_0 == env.solution->0,
        env.status@ == "ok"@ ==> get_verdict(env, Some(session)) == get_verdict(env, None),
        env.status@ == "ok"@ && env.solution is None ==> get_verdict(env, None)->Err_0
            is NoSolution,
        env.status@ != "ok"@ ==> get_verdict(env, None)->Err_0 == (FsErrorView::Status {
            status: env.status@,
            message: text::view_opt(env.message),
        }),
        env.status@ != "ok"@ ==> get_verdict(env, Some(session)) == (if env.message is Some
            && reports_missing_session(env.message->0@) {
            Err(FsErrorView::SessionMissing { session })
        } else {
            get_verdict(env, None)
        }),
{
}

/// What an error says holds what it knows: the session, or the status and the
/// message, or the text of another failure and nothing else.
pub proof fn errors_say_what_they_know(e: FsError, text: Seq<char>, message: Option<Seq<char>>)
    ensures
        error_text(FsErrorView::Other(text)) == text,
        text::search::without_prefix(
            error_text(FsErrorView::SessionMissing { session: text }),
            "flaresolverr session missing: "@,
        ) == Some(text),
        ("flaresolverr returned status="@ + text).is_prefix_of(
            error_text(FsErrorView::Status { status: text, message }),
        ),
        (" message="@ + debug_text(message)).is_suffix_of(
            error_text(FsErrorView::Status { status: text, message }),
        ),
        error_text(FsErrorView::NoSolution) == "flaresolverr returned no solution"@,
{
    text::search::affixes_come_off("flaresolverr session missing: "@, text);
    let t = error_text(FsErrorView::Status { status: text, message });
    let p = "flaresolverr returned status="@ + text;
    assert(t.subrange(0, p.len() as int) =~= p);
    let q = " message="@ + debug_text(message);
    assert(t.subrange(t.len() - q.len(), t.len() as int) =~= q);
}

/// A complaint names the call, its status and its message, in this order.
pub proof fn complaints_name_call_status_and_message(
    cmd: Seq<char>,
    status: Seq<char>,
    message: Option<Seq<char>>,
)
    ensures
        ("flaresolverr "@ + cmd).is_prefix_of(session_complaint(cmd, status, message)),
        (" status="@ + status + " message="@ + debug_text(message)).is_suffix_of(
            session_complaint(cmd, status, message),
        ),
        session_complaint(cmd, status, message).len() == ("flaresolverr "@ + cmd).len() + (
        " status="@ + status + " message="@ + debug_text(message)).len(),
{
    let t = session_complaint(cmd, status, message);
    let p = "flaresolverr "@ + cmd;
    let q = " status="@ + status + " message="@ + debug_text(message);
    assert(t.subrange(0, p.len() as int) =~= p);
    assert(t.subrange(t.len() - q.len(), t.len() as int) =~= q);
}

/// A cookie keeps its name and value, is scoped to its domain without the dot
/// in front, to its path or to the root, and is marked where it is secure.
pub proof fn cookies_are_scoped(c: FsCookie, domain: Seq<char>)
    requires
        c.domain@ == domain || c.domain@ == seq!['.'] + domain,
        domain.len() > 0,
        domain[0] != '.',
    ensures
        (c.name@ + "="@ + c.value@ + "; Domain="@ + domain + "; Path="@).is_prefix_of(
            cookie_header(c),
        ),
        c.path@.len() > 0 && !c.secure ==> cookie_header(c) == c.name@ + "="@ + c.value@
            + "; Domain="@ + domain + "; Path="@ + c.path@,
        c.path@.len() > 0 && c.secure ==> cookie_header(c) == c.name@ + "="@ + c.value@
            + "; Domain="@ + domain + "; Path="@ + c.path@ + "; Secure"@,
        c.path@.len() == 0 && !c.secure ==> cookie_header(c) == c.name@ + "="@ + c.value@
            + "; Domain="@ + domain + "; Path="@ + "/"@,
        c.path@.len() == 0 && c.secure ==> cookie_header(c) == c.name@ + "="@ + c.value@
            + "; Domain="@ + domain + "; Path="@ + "/"@ + "; Secure"@,
{
    let f = |d: char| d == '.';
    let dotted = seq!['.'] + domain;
    assert(dotted.drop_first() =~= domain);
    assert(text::trim::dropped_front(domain, f) == domain);
    assert(text::trim::dropped_front(dotted, f) == domain);
    reveal_strlit("");
    let h = cookie_header(c);
    let p = c.name@ + "="@ + c.value@ + "; Domain="@ + domain + "; Path="@;
    assert(h.subrange(0, p.len() as int) =~= p);
    assert((p + c.path@) + ""@ =~= p + c.path@);
    assert((p + "/"@) + ""@ =~= p + "/"@);
}

/// A call may take forty-five seconds, and so may the browser.
pub proof fn calls_may_take_as_long_as_the_browser()
    ensures
        FS_TIMEOUT_SECS == 45,
        FS_MAX_TIMEOUT_MS == FS_TIMEOUT_SECS * 1000,
{
}

} // verus!
