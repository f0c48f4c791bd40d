//! The administrator's pages.

use crate::clock;
use crate::settings;
use crate::sources::health;
use crate::sources::health::SourceHealth;
use crate::text;
use vstd::prelude::*;

verus! {

/// The largest PDF that is taken into the library.
pub const ADMIN_MAX_PDF_BYTES: usize = 26_214_400;

/// How much of a query is shown.
pub const QUERY_DISPLAY_MAX: usize = 80;

// ----- File names -----

/// A character that a file name keeps.
pub open spec fn is_kept(c: char) -> bool {
    'A' <= c <= 'Z' || 'a' <= c <= 'z' || '0' <= c <= '9' || c == '.' || c == '-' || c == '_' || c
        == ' '
}

/// Every character of `s` that a file name does not keep becomes `_`.
pub open spec fn replaced_chars(s: Seq<char>) -> Seq<char> {
    s.map_values(
        |c: char|
            if is_kept(c) {
                c
            } else {
                '_'
            },
    )
}

/// The file name for a title.
pub open spec fn file_name(s: Seq<char>) -> Seq<char> {
    text::trim::trimmed(replaced_chars(s))
}

/// The file name for a title.
pub fn sanitize_filename(s: &str) -> (out: String)
    ensures
        out@ == file_name(s@),
{
    let chars = text::chars_of(s);
    let mut out = String::new();
    assert(out@ =~= replaced_chars(chars@.take(0)));
    for i in 0..chars.len()
        invariant
            out@ == replaced_chars(chars@.take(i as int)),
    {
        let c = chars[i];
        let kept = ('A' <= c && c <= 'Z') || ('a' <= c && c <= 'z') || ('0' <= c && c <= '9') || c
            == '.' || c == '-' || c == '_' || c == ' ';
        let d = if kept {
            c
        } else {
            '_'
        };
        assert(replaced_chars(chars@.take(i + 1)) =~= replaced_chars(chars@.take(i as int)).push(d));
        out.push(d);
    }
    assert(chars@.take(chars@.len() as int) =~= chars@);
    text::trim::trim(out.as_str())
}

/// A file name holds only characters that one keeps, no longer than its
/// title, and is its own file name.
pub proof fn file_names_are_clean(s: Seq<char>)
    ensures
        forall|i: int| 0 <= i < file_name(s).len() ==> is_kept(#[trigger] file_name(s)[i]),
        file_name(s).len() <= s.len(),
        file_name(file_name(s)) == file_name(s),
{
    let m = replaced_chars(s);
    let t = file_name(s);
    text::trim::trimmed_is_trimmed(m);
    let (i, j) = choose|i: int, j: int|
        0 <= i <= j <= m.len() && text::trim::trimmed(m) == #[trigger] m.subrange(i, j);
    assert(t == m.subrange(i, j));
    assert forall|k: int| 0 <= k < t.len() implies is_kept(#[trigger] t[k]) by {
        assert(t[k] == m[i + k]);
    }
    assert(replaced_chars(t) =~= t);
    text::trim::trimmed_stays(t);
}

// ----- Adding to the library -----

/// What was asked for.
#[derive(Debug)]
pub struct AddForm {
    pub source: String,
    pub item_id: String,
    pub title: String,
}

/// What is added, trimmed.
#[derive(Debug)]
pub struct AddRequest {
    pub source_id: String,
    pub item_id: String,
    pub title: String,
}

/// Checks what was asked for: nothing may be missing, and the source must be
/// one of those that are known. Gives back the message where it is not so.
pub fn check_add(form: &AddForm, known: &Vec<String>) -> (r: Result<AddRequest, String>)
    ensures
        ({
            let source = text::trim::trimmed(form.source@);
            let item = text::trim::trimmed(form.item_id@);
            let title = text::trim::trimmed(form.title@);
            let missing = source.len() == 0 || item.len() == 0 || title.len() == 0;
            match r {
                Ok(req) => {
                    &&& !missing
                    &&& text::views(known@).contains(source)
                    &&& req.source_id@ == source
                    &&& req.item_id@ == item
                    &&& req.title@ == title
                },
                Err(msg) => if missing {
                    msg@ == "Missing source, item_id, or title"@
                } else {
                    !text::views(known@).contains(source) && msg@ == "Unknown source: "@ + source
                },
            }
        }),
{
    let source_id = text::trim::trim(form.source.as_str());
    let item_id = text::trim::trim(form.item_id.as_str());
    let title = text::trim::trim(form.title.as_str());
    if text::is_empty(source_id.as_str()) || text::is_empty(item_id.as_str()) || text::is_empty(
        title.as_str(),
    ) {
        return Err(text::owned("Missing source, item_id, or title"));
    }
    if !text::among(known, source_id.as_str()) {
        return Err(text::concat("Unknown source: ", source_id.as_str()));
    }
    Ok(AddRequest { source_id, item_id, title })
}

/// How far an addition has come.
#[derive(Debug, Clone, Copy, PartialEq, Eq, Structural)]
pub enum AddState {
    /// The PDF is being fetched.
    Fetching,
    /// The file is being created.
    Creating { size: u64 },
    /// The file is being written.
    Writing { size: u64 },
    /// The row of the queue is being written.
    Queueing { size: u64 },
    /// The row of the library is being written.
    Listing { size: u64 },
    /// The addition is over.
    Over,
}

/// What happened.
#[derive(Debug)]
pub enum AddEvent {
    /// A PDF of this size was fetched, or why it was not.
    Fetched(Result<u64, String>),
    Created(bool),
    Written(bool),
    Queued(bool),
    Listed(bool),
}

/// What goes into the audit log.
#[derive(Debug)]
pub struct AuditNote {
    pub action: String,
    pub target: String,
    pub result: String,
    pub meta: Option<String>,
}

/// What to do next.
#[derive(Debug)]
pub enum AddAction {
    /// Create the file of this name in the library.
    CreateFile(String),
    /// Write the PDF into it.
    WriteFile,
    /// Write the row of the queue, with this size.
    InsertQueue(u64),
    /// Write the row of the library, with this size.
    InsertLibrary(u64),
    /// Write the note, where there is one, and show the message.
    Answer { note: Option<AuditNote>, message: String },
}

/// The view of an [`AuditNote`].
pub struct NoteView {
    pub action: Seq<char>,
    pub target: Seq<char>,
    pub result: Seq<char>,
    pub meta: Option<Seq<char>>,
}

/// The view of an [`AddAction`].
pub enum AddActionView {
    CreateFile(Seq<char>),
    WriteFile,
    InsertQueue(u64),
    InsertLibrary(u64),
    Answer { note: Option<NoteView>, message: Seq<char> },
}

impl View for AuditNote {
    type V = NoteView;

    open spec fn view(&self) -> NoteView {
        NoteView {
            action: self.action@,
            target: self.target@,
            result: self.result@,
            meta: text::view_opt(self.meta),
        }
    }
}

impl View for AddAction {
    type V = AddActionView;

    open spec fn view(&self) -> AddActionView {
        match self {
            AddAction::CreateFile(name) => AddActionView::CreateFile(name@),
            AddAction::WriteFile => AddActionView::WriteFile,
            AddAction::InsertQueue(size) => AddActionView::InsertQueue(*size),
            AddAction::InsertLibrary(size) => AddActionView::InsertLibrary(*size),
            AddAction::Answer { note, message } => AddActionView::Answer {
                note: match *note {
                    Some(n) => Some(n@),
                    None => None,
                },
                message: message@,
            },
        }
    }
}

/// The note for an addition that ended in `result`.
pub open spec fn note_of(req: AddRequest, result: Seq<char>, meta: Option<Seq<char>>) -> NoteView {
    NoteView {
        action: "library_add"@,
        target: req.source_id@ + "/"@ + req.item_id@,
        result,
        meta,
    }
}

/// The end of an addition with a message and no note.
pub open spec fn given_up(message: Seq<char>) -> (AddState, AddActionView) {
    (AddState::Over, AddActionView::Answer { note: None, message })
}

/// What follows an event.
pub open spec fn next(req: AddRequest, state: AddState, event: AddEvent) -> (
    AddState,
    AddActionView,
) {
    match (state, event) {
        (AddState::Fetching, AddEvent::Fetched(Err(e))) => (
            AddState::Over,
            AddActionView::Answer {
                note: Some(note_of(req, "fetch_failed"@, None)),
                message: "Could not fetch PDF: "@ + e@,
            },
        ),
        (AddState::Fetching, AddEvent::Fetched(Ok(size))) => (
            AddState::Creating { size },
            AddActionView::CreateFile(file_name(req.title@) + ".pdf"@),
        ),
        (AddState::Creating { size }, AddEvent::Created(ok)) => if ok {
            (AddState::Writing { size }, AddActionView::WriteFile)
        } else {
            given_up("Could not write file"@)
        },
        (AddState::Writing { size }, AddEvent::Written(ok)) => if ok {
            (AddState::Queueing { size }, AddActionView::InsertQueue(size))
        } else {
            given_up("Write error"@)
        },
        (AddState::Queueing { size }, AddEvent::Queued(ok)) => if ok {
            (AddState::Listing { size }, AddActionView::InsertLibrary(size))
        } else {
            given_up("DB error (queue)"@)
        },
        (AddState::Listing { size }, AddEvent::Listed(ok)) => if ok {
            (
                AddState::Over,
                AddActionView::Answer {
                    note: Some(
                        note_of(
                            req,
                            "ok"@,
                            Some("{\"size\":"@ + text::number::decimal(size as nat) + "}"@),
                        ),
                    ),
                    message: "Added \""@ + req.title@ + "\" ("@ + text::number::decimal(
                        size as nat,
                    ) + " bytes)"@,
                },
            )
        } else {
            given_up("DB error (library)"@)
        },
        _ => given_up("Internal error"@),
    }
}

fn give_up(message: &str) -> (r: (AddState, AddAction))
    ensures
        (r.0, r.1@) == given_up(message@),
{
    (AddState::Over, AddAction::Answer { note: None, message: text::owned(message) })
}

fn note(req: &AddRequest, result: &str, meta: Option<String>) -> (n: AuditNote)
    ensures
        n@ == note_of(*req, result@, text::view_opt(meta)),
{
    AuditNote {
        action: text::owned("library_add"),
        target: text::concat3(req.source_id.as_str(), "/", req.item_id.as_str()),
        result: text::owned(result),
        meta,
    }
}

/// What follows an event.
pub fn library_add(req: &AddRequest, state: AddState, event: AddEvent) -> (r: (AddState, AddAction))
    ensures
        (r.0, r.1@) == next(*req, state, event),
{
    match (state, event) {
        (AddState::Fetching, AddEvent::Fetched(Err(e))) => (
            AddState::Over,
            AddAction::Answer {
                note: Some(note(req, "fetch_failed", None)),
                message: text::concat("Could not fetch PDF: ", e.as_str()),
            },
        ),
        (AddState::Fetching, AddEvent::Fetched(Ok(size))) => {
            let name = sanitize_filename(req.title.as_str());
            (
                AddState::Creating { size },
                AddAction::CreateFile(text::concat(name.as_str(), ".pdf")),
            )
        },
        (AddState::Creating { size }, AddEvent::Created(ok)) => if ok {
            (AddState::Writing { size }, AddAction::WriteFile)
        } else {
            give_up("Could not write file")
        },
        (AddState::Writing { size }, AddEvent::Written(ok)) => if ok {
            (AddState::Queueing { size }, AddAction::InsertQueue(size))
        } else {
            give_up("Write error")
        },
        (AddState::Queueing { size }, AddEvent::Queued(ok)) => if ok {
            (AddState::Listing { size }, AddAction::InsertLibrary(size))
        } else {
            give_up("DB error (queue)")
        },
        (AddState::Listing { size }, AddEvent::Listed(ok)) => if ok {
            let bytes = text::number::to_decimal(size);
            let meta = text::concat3("{\"size\":", bytes.as_str(), "}");
            let head = text::concat3("Added \"", req.title.as_str(), "\" (");
            let message = text::concat3(head.as_str(), bytes.as_str(), " bytes)");
            (
                AddState::Over,
                AddAction::Answer { note: Some(note(req, "ok", Some(meta))), message },
            )
        } else {
            give_up("DB error (library)")
        },
        _ => give_up("Internal error"),
    }
}

/// How many steps an addition may still take.
pub open spec fn steps_left(state: AddState) -> nat {
    match state {
        AddState::Fetching => 5,
        AddState::Creating { .. } => 4,
        AddState::Writing { .. } => 3,
        AddState::Queueing { .. } => 2,
        AddState::Listing { .. } => 1,
        AddState::Over => 0,
    }
}

/// An addition ends after at most five steps. It is noted as done only where
/// the row of the library was written, and that row is written only after the
/// file and the row of the queue; the size that is noted is that of the PDF.
pub proof fn additions_end(req: AddRequest, state: AddState, event: AddEvent)
    requires
        state !is Over,
    ensures
        ({
            let (after, action) = next(req, state, event);
            &&& steps_left(after) < steps_left(state)
            &&& after is Over <==> action is Answer
            &&& after is Queueing ==> state is Writing && event == AddEvent::Written(true)
            &&& after is Listing ==> state is Queueing && event == AddEvent::Queued(true)
            &&& after matches AddState::Queueing { size } ==> state->Writing_size == size
            &&& after matches AddState::Listing { size } ==> state->Queueing_size == size
            &&& (action is Answer && state !is Fetching && action->note is Some) ==> state
                is Listing && event == AddEvent::Listed(true)
        }),
{
}

// ----- Settings -----

/// What was typed into the form of settings.
#[derive(Debug)]
pub struct SettingsForm {
    pub smtp_host: String,
    pub smtp_port: String,
    pub smtp_user: String,
    pub smtp_pass: String,
    pub smtp_from: String,
    pub turnstile_site_key: String,
    pub turnstile_secret_key: String,
}

/// One setting to write: its key, and its value.
pub type Write = (String, String);

/// A secret is written only where something was typed.
pub open spec fn if_typed(key: Seq<char>, value: Seq<char>) -> Seq<(Seq<char>, Seq<char>)> {
    if value.len() > 0 {
        seq![(key, value)]
    } else {
        Seq::empty()
    }
}

/// What a form of settings writes, in order: the plain settings trimmed, and
/// the secrets as they were typed, where anything was.
pub open spec fn writes_of(form: SettingsForm) -> Seq<(Seq<char>, Seq<char>)> {
    seq![
        (settings::SMTP_HOST@, text::trim::trimmed(form.smtp_host@)),
        (settings::SMTP_PORT@, text::trim::trimmed(form.smtp_port@)),
        (settings::SMTP_USER@, text::trim::trimmed(form.smtp_user@)),
        (settings::SMTP_FROM@, text::trim::trimmed(form.smtp_from@)),
        (settings::TURNSTILE_SITE_KEY@, text::trim::trimmed(form.turnstile_site_key@)),
    ] + if_typed(settings::SMTP_PASS@, form.smtp_pass@) + if_typed(
        settings::TURNSTILE_SECRET_KEY@,
        form.turnstile_secret_key@,
    )
}

/// What a form of settings writes, in order.
pub fn settings_post(form: &SettingsForm) -> (out: Vec<Write>)
    ensures
        out@.map_values(|w: (String, String)| (w.0@, w.1@)) == writes_of(*form),
{
    let mut out: Vec<Write> = vec![
        (text::owned(settings::SMTP_HOST), text::trim::trim(form.smtp_host.as_str())),
        (text::owned(settings::SMTP_PORT), text::trim::trim(form.smtp_port.as_str())),
        (text::owned(settings::SMTP_USER), text::trim::trim(form.smtp_user.as_str())),
        (text::owned(settings::SMTP_FROM), text::trim::trim(form.smtp_from.as_str())),
        (
            text::owned(settings::TURNSTILE_SITE_KEY),
            text::trim::trim(form.turnstile_site_key.as_str()),
        ),
    ];
    if !text::is_empty(form.smtp_pass.as_str()) {
        out.push((text::owned(settings::SMTP_PASS), text::owned(form.smtp_pass.as_str())));
    }
    if !text::is_empty(form.turnstile_secret_key.as_str()) {
        out.push(
            (
                text::owned(settings::TURNSTILE_SECRET_KEY),
                text::owned(form.turnstile_secret_key.as_str()),
            ),
        );
    }
    assert(out@.map_values(|w: (String, String)| (w.0@, w.1@)) =~= writes_of(*form));
    out
}

/// What the page of settings shows. Secrets are not shown, only whether they
/// are set.
#[derive(Debug)]
pub struct AdminSettings {
    pub smtp_host: String,
    pub smtp_port: String,
    pub smtp_user: String,
    pub smtp_from: String,
    pub smtp_pass_set: bool,
    pub turnstile_site_key: String,
    pub turnstile_secret_set: bool,
    pub message: Option<String>,
}

/// The settings as they are stored.
#[derive(Debug)]
pub struct StoredSettings {
    pub smtp_host: Option<String>,
    pub smtp_port: Option<String>,
    pub smtp_user: Option<String>,
    pub smtp_from: Option<String>,
    pub smtp_pass: Option<String>,
    pub turnstile_site_key: Option<String>,
    pub turnstile_secret_key: Option<String>,
}

/// A stored setting; empty where there is none.
pub open spec fn shown(v: Option<String>) -> Seq<char> {
    match v {
        Some(s) => s@,
        None => Seq::empty(),
    }
}

fn show(v: Option<String>) -> (s: String)
    ensures
        s@ == shown(v),
{
    match v {
        Some(s) => s,
        None => String::new(),
    }
}

fn is_set(v: &Option<String>) -> (b: bool)
    ensures
        b == (shown(*v).len() > 0),
{
    match v {
        Some(s) => !text::is_empty(s.as_str()),
        None => false,
    }
}

/// What the page of settings shows.
pub fn render_settings(stored: StoredSettings, message: Option<String>) -> (page: AdminSettings)
    ensures
        page.smtp_host@ == shown(stored.smtp_host),
        page.smtp_port@ == shown(stored.smtp_port),
        page.smtp_user@ == shown(stored.smtp_user),
        page.smtp_from@ == shown(stored.smtp_from),
        page.smtp_pass_set == (shown(stored.smtp_pass).len() > 0),
        page.turnstile_site_key@ == shown(stored.turnstile_site_key),
        page.turnstile_secret_set == (shown(stored.turnstile_secret_key).len() > 0),
        page.message == message,
{
    let smtp_pass_set = is_set(&stored.smtp_pass);
    let turnstile_secret_set = is_set(&stored.turnstile_secret_key);
    AdminSettings {
        smtp_host: show(stored.smtp_host),
        smtp_port: show(stored.smtp_port),
        smtp_user: show(stored.smtp_user),
        smtp_from: show(stored.smtp_from),
        smtp_pass_set,
        turnstile_site_key: show(stored.turnstile_site_key),
        turnstile_secret_set,
        message,
    }
}

// ----- The health of the sources -----

/// One source on the page of sources.
#[derive(Debug)]
pub struct HealthRow {
    pub source_id: &'static str,
    pub status: &'static str,
    pub last_ok: Option<String>,
    pub last_error_at: Option<String>,
    pub last_error_msg: Option<String>,
    pub consecutive_fails: u32,
    pub consecutive_oks: u32,
    pub total_ok: u64,
    pub total_fail: u64,
}

/// How a source is doing, in a word.
pub open spec fn status_of(h: health::HealthView) -> Seq<char> {
    if health::degraded(h) {
        "degraded"@
    } else if h.last_ok is Some {
        "healthy"@
    } else {
        "unknown"@
    }
}

/// An instant as it is shown; nothing where it cannot be.
pub open spec fn shown_instant(t: Option<i128>) -> Option<Seq<char>> {
    match t {
        Some(t) => clock::stamp(t),
        None => None,
    }
}

fn show_instant(t: Option<i128>) -> (r: Option<String>)
    ensures
        text::view_opt(r) == shown_instant(t),
{
    match t {
        Some(t) => clock::format_rfc3339(t),
        None => None,
    }
}

/// One source on the page of sources.
pub fn health_row(source_id: &'static str, h: SourceHealth) -> (row: HealthRow)
    ensures
        row.source_id@ == source_id@,
        row.status@ == status_of(h@),
        text::view_opt(row.last_ok) == shown_instant(h@.last_ok),
        text::view_opt(row.last_error_at) == shown_instant(h@.last_error_at),
        text::view_opt(row.last_error_msg) == h@.last_error_msg,
        row.consecutive_fails == h@.consecutive_fails,
        row.consecutive_oks == h@.consecutive_oks,
        row.total_ok == h@.total_ok,
        row.total_fail == h@.total_fail,
{
    let status = if h.is_degraded() {
        "degraded"
    } else if h.last_ok.is_some() {
        "healthy"
    } else {
        "unknown"
    };
    HealthRow {
        source_id,
        status,
        last_ok: show_instant(h.last_ok),
        last_error_at: show_instant(h.last_error_at),
        last_error_msg: h.last_error_msg,
        consecutive_fails: h.consecutive_fails,
        consecutive_oks: h.consecutive_oks,
        total_ok: h.total_ok,
        total_fail: h.total_fail,
    }
}

// ----- The log of searches -----

/// A query as it is shown, and whether it was cut.
pub open spec fn shown_query(s: Seq<char>) -> (Seq<char>, bool) {
    if s.len() > QUERY_DISPLAY_MAX {
        (s.take(QUERY_DISPLAY_MAX as int).push('…'), true)
    } else {
        (s, false)
    }
}

/// A query as it is shown, and whether it was cut.
pub fn truncate_query(s: &str) -> (r: (String, bool))
    ensures
        (r.0@, r.1) == shown_query(s@),
{
    let chars = text::chars_of(s);
    if chars.len() > QUERY_DISPLAY_MAX {
        let mut cut = text::slice_of(&chars, 0, QUERY_DISPLAY_MAX);
        assert(cut@ =~= s@.take(QUERY_DISPLAY_MAX as int));
        cut.push('…');
        (cut, true)
    } else {
        (text::owned(s), false)
    }
}

/// The window that a request asks for: `24h`, `30d`, or else `7d`.
pub open spec fn window_of(raw: Option<Seq<char>>) -> Seq<char> {
    if raw == Some("24h"@) {
        "24h"@
    } else if raw == Some("30d"@) {
        "30d"@
    } else {
        "7d"@
    }
}

/// The length of a window in hours.
pub open spec fn window_hours(raw: Option<Seq<char>>) -> int {
    if raw == Some("24h"@) {
        24
    } else if raw == Some("30d"@) {
        720
    } else {
        168
    }
}

/// When a window that ends at `now` starts.
pub open spec fn window_start(raw: Option<Seq<char>>, now: i128) -> int {
    now - window_hours(raw) * 3600 * clock::NANOS_PER_SEC
}

/// When a window that ends at `now` starts, in the form of RFC 3339; an empty
/// text where that has no such form.
pub open spec fn cutoff_of(raw: Option<Seq<char>>, now: i128) -> Seq<char> {
    let start = window_start(raw, now);
    if clock::YEAR_ZERO <= start < clock::YEAR_TEN_THOUSAND {
        clock::rfc3339(start as i128)
    } else {
        Seq::empty()
    }
}

/// The label of a window that ends at `now`, and when it starts.
pub fn resolve_since_at(raw: Option<&str>, now: i128) -> (r: (&'static str, String))
    requires
        clock::in_calendar(now),
    ensures
        r.0@ == window_of(text::view_str(raw)),
        r.1@ == cutoff_of(text::view_str(raw), now),
{
    let (label, hours): (&'static str, i128) = match raw {
        Some(s) => if text::same(s, "24h") {
            ("24h", 24)
        } else if text::same(s, "30d") {
            ("30d", 720)
        } else {
            ("7d", 168)
        },
        None => ("7d", 168),
    };
    let start: i128 = now - hours * 3600 * clock::NANOS_PER_SEC;
    let cutoff = match clock::format_rfc3339(start) {
        Some(s) => s,
        None => String::new(),
    };
    (label, cutoff)
}

/// The label of a window that ends now, and when it starts.
pub fn resolve_since(raw: Option<&str>) -> (r: (&'static str, String))
    ensures
        r.0@ == window_of(text::view_str(raw)),
        exists|now: i128|
            clock::in_calendar(now) && r.1@ == #[trigger] cutoff_of(text::view_str(raw), now),
{
    let now = clock::now();
    resolve_since_at(raw, now)
}

/// What the log keeps of a search besides its text.
#[derive(Debug, Clone, Copy, PartialEq, Eq, Structural)]
pub struct SearchMeta {
    pub results: Option<i64>,
    pub variants: Option<i64>,
}

/// One search in the log.
#[derive(Debug)]
pub struct SearchLogRow {
    pub query: String,
    pub query_truncated: bool,
    pub result: String,
    pub results_count: Option<i64>,
    pub variants_count: Option<i64>,
    pub ip: String,
    pub user_agent: String,
    pub ts: String,
}

/// One search in the log, from its row. A missing text counts as an empty
/// one, and what cannot be read is left out.
pub fn search_log_row(
    target: Option<String>,
    meta: Option<SearchMeta>,
    result: String,
    ip: String,
    user_agent: String,
    ts: String,
) -> (row: SearchLogRow)
    ensures
        (row.query@, row.query_truncated) == shown_query(shown(target)),
        row.results_count == (match meta {
            Some(m) => m.results,
            None => None,
        }),
        row.variants_count == (match meta {
            Some(m) => m.variants,
            None => None,
        }),
        row.result == result,
        row.ip == ip,
        row.user_agent == user_agent,
        row.ts == ts,
{
    let raw = show(target);
    let (query, query_truncated) = truncate_query(raw.as_str());
    let (results_count, variants_count) = match meta {
        Some(m) => (m.results, m.variants),
        None => (None, None),
    };
    SearchLogRow { query, query_truncated, result, results_count, variants_count, ip, user_agent, ts }
}

/// One of the most frequent searches.
#[derive(Debug)]
pub struct TopQueryRow {
    pub query: String,
    pub query_truncated: bool,
    pub count: i64,
    pub distinct_ips: i64,
}

/// One of the most frequent searches, from its row.
pub fn top_query_row(target: Option<String>, count: i64, distinct_ips: i64) -> (row: TopQueryRow)
    ensures
        (row.query@, row.query_truncated) == shown_query(shown(target)),
        row.count == count,
        row.distinct_ips == distinct_ips,
{
    let raw = show(target);
    let (query, query_truncated) = truncate_query(raw.as_str());
    TopQueryRow { query, query_truncated, count, distinct_ips }
}

// ----- What the rules above amount to -----

/// A file name keeps every character that it may keep in its place, and has an
/// underscore in the place of every other; only white space at the ends goes.
pub proof fn file_names_keep_their_places(s: Seq<char>)
    ensures
        s.len() > 0 && s[0] != ' ' && s.last() != ' ' ==> file_name(s).len() == s.len() && forall|
            i: int,
        |
            0 <= i < s.len() ==> (#[trigger] file_name(s)[i]) == (if is_kept(s[i]) {
                s[i]
            } else {
                '_'
            }),
        file_name(seq![' '] + s) == file_name(s),
        forall|c: char|
            c == '/' || c == '\\' || c == ':' || c == '*' || c == '?' || c == '"' || c == '<' || c
                == '>' || c == '|' || c == '\n' ==> !#[trigger] is_kept(c),
        forall|c: char|
            'a' <= c <= 'z' || 'A' <= c <= 'Z' || '0' <= c <= '9' || c == '.' || c == '-' || c
                == '_' || c == ' ' ==> #[trigger] is_kept(c),
{
    let m = replaced_chars(s);
    if s.len() > 0 && s[0] != ' ' && s.last() != ' ' {
        assert(!text::is_white_space(m[0]));
        assert(!text::is_white_space(m.last()));
        text::trim::trimmed_stays(m);
    }
    let spaced = replaced_chars(seq![' '] + s);
    assert(spaced =~= seq![' '] + m);
    assert(spaced[0] == ' ');
    assert(spaced.drop_first() =~= m);
}

/// An addition goes through in order: the file gets the name of the title, the
/// queue and the library the size that was fetched, and the answer names the
/// title and that size. Each step that fails ends it with its own message, and
/// only a fetch that failed is noted.
pub proof fn additions_go_through_in_order(req: AddRequest, size: u64, e: String)
    ensures
        ({
            let (s1, create) = next(req, AddState::Fetching, AddEvent::Fetched(Ok(size)));
            let (s2, write) = next(req, s1, AddEvent::Created(true));
            let (s3, queue) = next(req, s2, AddEvent::Written(true));
            let (s4, list) = next(req, s3, AddEvent::Queued(true));
            let (s5, answer) = next(req, s4, AddEvent::Listed(true));
            let bytes = text::number::decimal(size as nat);
            &&& create == AddActionView::CreateFile(file_name(req.title@) + ".pdf"@)
            &&& write is WriteFile
            &&& queue == AddActionView::InsertQueue(size)
            &&& list == AddActionView::InsertLibrary(size)
            &&& s5 is Over
            &&& answer->message == "Added \""@ + req.title@ + "\" ("@ + bytes + " bytes)"@
            &&& answer->note matches Some(n) && n.result == "ok"@ && n.meta == Some(
                "{\"size\":"@ + bytes + "}"@,
            ) && n.target == req.source_id@ + "/"@ + req.item_id@ && n.action == "library_add"@
            &&& next(req, s1, AddEvent::Created(false)).1 == (AddActionView::Answer {
                note: None,
                message: "Could not write file"@,
            })
            &&& next(req, s2, AddEvent::Written(false)).1 == (AddActionView::Answer {
                note: None,
                message: "Write error"@,
            })
            &&& next(req, s3, AddEvent::Queued(false)).1 == (AddActionView::Answer {
                note: None,
                message: "DB error (queue)"@,
            })
            &&& next(req, s4, AddEvent::Listed(false)).1 == (AddActionView::Answer {
                note: None,
                message: "DB error (library)"@,
            })
        }),
        ({
            let (over, answer) = next(req, AddState::Fetching, AddEvent::Fetched(Err(e)));
            &&& over is Over
            &&& answer->message == "Could not fetch PDF: "@ + e@
            &&& answer->note matches Some(n) && n.result == "fetch_failed"@ && n.meta is None
                && n.target == req.source_id@ + "/"@ + req.item_id@ && n.action == "library_add"@
        }),
{
}

/// A form writes its plain settings trimmed, each under its own key, and a
/// secret exactly as it was typed, but only where something was: an empty
/// field leaves the stored secret alone.
pub proof fn forms_write_what_was_typed(form: SettingsForm)
    ensures
        writes_of(form).contains(("smtp_host"@, text::trim::trimmed(form.smtp_host@))),
        writes_of(form).contains(("smtp_port"@, text::trim::trimmed(form.smtp_port@))),
        writes_of(form).contains(("smtp_user"@, text::trim::trimmed(form.smtp_user@))),
        writes_of(form).contains(("smtp_from"@, text::trim::trimmed(form.smtp_from@))),
        writes_of(form).contains(
            ("turnstile_site_key"@, text::trim::trimmed(form.turnstile_site_key@)),
        ),
        form.smtp_pass@.len() > 0 ==> writes_of(form).contains(("smtp_pass"@, form.smtp_pass@)),
        form.turnstile_secret_key@.len() > 0 ==> writes_of(form).contains(
            ("turnstile_secret_key"@, form.turnstile_secret_key@),
        ),
        writes_of(form).len() == 5 + (if form.smtp_pass@.len() > 0 {
            1int
        } else {
            0
        }) + (if form.turnstile_secret_key@.len() > 0 {
            1int
        } else {
            0
        }),
{
    let w = writes_of(form);
    assert(w[0] == ("smtp_host"@, text::trim::trimmed(form.smtp_host@)));
    assert(w[1] == ("smtp_port"@, text::trim::trimmed(form.smtp_port@)));
    assert(w[2] == ("smtp_user"@, text::trim::trimmed(form.smtp_user@)));
    assert(w[3] == ("smtp_from"@, text::trim::trimmed(form.smtp_from@)));
    assert(w[4] == ("turnstile_site_key"@, text::trim::trimmed(form.turnstile_site_key@)));
    if form.smtp_pass@.len() > 0 {
        assert(w[5] == ("smtp_pass"@, form.smtp_pass@));
    }
    if form.turnstile_secret_key@.len() > 0 {
        assert(w.last() == ("turnstile_secret_key"@, form.turnstile_secret_key@));
    }
}

/// What is shown of a setting is what is stored, and nothing where nothing is.
pub proof fn stored_settings_are_shown(s: String)
    ensures
        shown(Some(s)) == s@,
        shown(None).len() == 0,
{
}

/// A source is called unknown until it has been asked, healthy once it has
/// answered, and degraded where its last four answers failed.
pub proof fn sources_are_called_what_they_are(h: health::HealthView, msg: Seq<char>, now: i128)
    ensures
        status_of(health::fresh()) == "unknown"@,
        status_of(health::after_ok(h, now)) == "healthy"@,
        h.consecutive_fails >= 3 ==> status_of(health::after_err(h, msg, now)) == "degraded"@,
        h.consecutive_fails < 3 && h.last_ok is Some ==> status_of(health::after_err(h, msg, now))
            == "healthy"@,
        h.consecutive_fails < 3 && h.last_ok is None ==> status_of(health::after_err(h, msg, now))
            == "unknown"@,
{
}

/// Instants are shown where the calendar can write them, and only there.
pub proof fn instants_are_shown(t: i128)
    ensures
        clock::YEAR_ZERO <= t < clock::YEAR_TEN_THOUSAND ==> shown_instant(Some(t)) == Some(
            clock::rfc3339(t),
        ),
        t < clock::YEAR_ZERO || clock::YEAR_TEN_THOUSAND <= t ==> shown_instant(Some(t)) is None,
        shown_instant(None) is None,
{
}

/// A query of up to eighty characters is shown as it is; of a longer one the
/// first eighty are, and an ellipsis.
pub proof fn long_queries_are_cut(s: Seq<char>, more: Seq<char>)
    ensures
        s.len() <= 80 ==> shown_query(s) == (s, false),
        s.len() == 80 && more.len() > 0 ==> shown_query(s + more) == (s + seq!['…'], true),
{
    if s.len() == 80 && more.len() > 0 {
        assert((s + more).take(80) =~= s);
        assert(shown_query(s + more).0 =~= s + seq!['…']);
    }
}

/// A window is as long as its label says, and starts that long before it ends;
/// a label that is not known stands for a week.
pub proof fn windows_are_as_long_as_they_say(raw: Option<Seq<char>>, now: i128)
    ensures
        window_of(Some("24h"@)) == "24h"@,
        window_of(Some("7d"@)) == "7d"@,
        window_of(Some("30d"@)) == "30d"@,
        window_of(None) == "7d"@,
        raw != Some("24h"@) && raw != Some("30d"@) ==> window_of(raw) == "7d"@,
        window_of(raw) == "24h"@ ==> now - window_start(raw, now) == 24 * 3600 * 1_000_000_000,
        window_of(raw) == "7d"@ ==> now - window_start(raw, now) == 7 * 24 * 3600 * 1_000_000_000,
        window_of(raw) == "30d"@ ==> now - window_start(raw, now) == 30 * 24 * 3600
            * 1_000_000_000,
        clock::YEAR_ZERO <= window_start(raw, now) < clock::YEAR_TEN_THOUSAND ==> cutoff_of(
            raw,
            now,
        ) == clock::rfc3339(window_start(raw, now) as i128),
        !(clock::YEAR_ZERO <= window_start(raw, now) < clock::YEAR_TEN_THOUSAND) ==> cutoff_of(
            raw,
            now,
        ).len() == 0,
{
    reveal_strlit("24h");
    reveal_strlit("7d");
    reveal_strlit("30d");
    assert("24h"@.len() == 3 && "7d"@.len() == 2 && "30d"@.len() == 3);
    assert("24h"@[0] == '2' && "30d"@[0] == '3');
}

/// An event that does not belong to the state ends the addition, without a
/// note.
pub proof fn events_belong_to_their_state(req: AddRequest, state: AddState, event: AddEvent)
    requires
        state is Over || state is Fetching && event !is Fetched || state is Creating && event
            !is Created || state is Writing && event !is Written || state is Queueing && event
            !is Queued || state is Listing && event !is Listed,
    ensures
        next(req, state, event) == (
            AddState::Over,
            AddActionView::Answer { note: None, message: "Internal error"@ },
        ),
{
}

} // verus!
