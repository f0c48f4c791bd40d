//! Ultimate Guitar: tabs and chords.
//!
//! A tab is plain text. Pages carry their data as JSON: the results of a
//! search at `store.page.data.results`, the text of a tab at
//! `store.page.data.tab_view.wiki_tab.content`.

use crate::codec;
use crate::html;
use crate::json;
use crate::json::{Json, JsonView};
use crate::sources;
use crate::sources::flaresolverr::{FsError, FsSolution};
use crate::sources::musescore::page;
use crate::sources::{BadgeKind, Instrument, MetadataBadge, SearchFilters, SearchResult, Source};
use crate::text;
use vstd::prelude::*;
use vstd::utf8;

pub mod layout;
pub mod store;

verus! {

pub const ACCEPT_DOC: &'static str = "text/html,application/xhtml+xml,application/xml;q=0.9,image/avif,image/webp,image/apng,*/*;q=0.8";

/// The name of the browser session at FlareSolverr.
pub const SESSION: &'static str = "ultimateguitar";

pub const HOME: &'static str = "https://www.ultimate-guitar.com/";

/// How many bytes of an answer are quoted.
pub const QUOTE_BYTES: usize = 200;

// ----- Ids -----

/// An address at Ultimate Guitar.
pub open spec fn is_own_url(url: Seq<char>) -> bool {
    "https://tabs.ultimate-guitar.com/"@.is_prefix_of(url) || HOME@.is_prefix_of(url)
}

/// Why an id leads to no tab.
#[derive(Debug, Clone, Copy, PartialEq, Eq, Structural)]
pub enum IdError {
    /// It is the id of no address.
    Malformed,
    /// The address is not one of Ultimate Guitar.
    ForeignUrl,
}

/// The id of a tab: path-safe, and the id of no other address.
pub fn encode_id(tab_url: &str) -> (id: String)
    ensures
        id@ == codec::url_id(tab_url@),
        codec::path_safe(id@),
        forall|other: Seq<char>| #[trigger] codec::url_id(other) == id@ ==> other == tab_url@,
{
    codec::encode_url_id(tab_url)
}

/// The address of a tab, from its id. Only addresses of Ultimate Guitar are
/// given.
pub fn decode_id(id: &str) -> (r: Result<String, IdError>)
    ensures
        match r {
            Ok(url) => codec::url_id(url@) == id@ && is_own_url(url@),
            Err(IdError::Malformed) => forall|url: Seq<char>| #[trigger] codec::url_id(url) != id@,
            Err(IdError::ForeignUrl) => {
                &&& exists|url: Seq<char>| #[trigger] codec::url_id(url) == id@
                &&& forall|url: Seq<char>| #[trigger]
                    codec::url_id(url) == id@ ==> !is_own_url(url)
            },
        },
{
    match codec::decode_url_id(id) {
        Some(url) => if text::search::starts_with(
            url.as_str(),
            "https://tabs.ultimate-guitar.com/",
        ) || text::search::starts_with(url.as_str(), HOME) {
            Ok(url)
        } else {
            assert(codec::url_id(url@) == id@ && !is_own_url(url@));
            Err(IdError::ForeignUrl)
        },
        None => Err(IdError::Malformed),
    }
}

// ----- Search -----

/// A kind of tab that is guitar text: chords or tabs, in any case, white
/// space around it left aside.
pub open spec fn is_text_type(t: Seq<char>) -> bool {
    let lower = text::ascii_lowered(text::trim::trimmed(t));
    lower == "chords"@ || lower == "tab"@ || lower == "tabs"@
}

pub fn is_included_type(t: &str) -> (b: bool)
    ensures
        b == is_text_type(t@),
{
    let trimmed = text::trim::trim(t);
    let lower = text::ascii_lowercase(trimmed.as_str());
    text::same(lower.as_str(), "chords") || text::same(lower.as_str(), "tab") || text::same(
        lower.as_str(),
        "tabs",
    )
}

/// The address of a search.
pub open spec fn search_address(query: Seq<char>) -> Seq<char> {
    "https://www.ultimate-guitar.com/search.php?search_type=title&value="@
        + codec::percent_encoded(utf8::encode_utf8(query))
}

/// The text under `key`, or an empty one.
pub open spec fn text_or_empty(v: JsonView, key: Seq<char>) -> Seq<char> {
    match json::text_member(v, key) {
        Some(s) => s,
        None => Seq::empty(),
    }
}

/// A song, and its artist where one is known.
pub open spec fn song_title(song: Seq<char>, artist: Seq<char>) -> Seq<char> {
    if artist.len() == 0 {
        song
    } else {
        song + " — "@ + artist
    }
}

/// The badges of a tab: its kind, its key, and its version from the second
/// on.
pub open spec fn badges_of(v: JsonView) -> Seq<sources::BadgeView> {
    let kind = seq![
        sources::BadgeView {
            label: text::trim::trimmed(text_or_empty(v, "type"@)),
            kind: BadgeKind::Generic,
        },
    ];
    let key = if text_or_empty(v, "tonality_name"@).len() > 0 {
        seq![
            sources::BadgeView {
                label: "Key: "@ + text_or_empty(v, "tonality_name"@),
                kind: BadgeKind::Key,
            },
        ]
    } else {
        Seq::empty()
    };
    let version = match json::unsigned_member(v, "version"@) {
        Some(n) => if n > 1 {
            seq![
                sources::BadgeView {
                    label: "ver. "@ + text::number::decimal(n as nat),
                    kind: BadgeKind::Generic,
                },
            ]
        } else {
            Seq::empty()
        },
        None => Seq::empty(),
    };
    kind + key + version
}

/// The tab that an item of the results describes: a public text tab with an
/// address and a song.
pub open spec fn tab_of(v: JsonView) -> Option<sources::ResultView> {
    let access = json::text_member(v, "tab_access_type"@);
    if !is_text_type(text_or_empty(v, "type"@)) {
        None
    } else if access is Some && access->0 != "public"@ {
        None
    } else {
        match (json::text_member(v, "tab_url"@), json::text_member(v, "song_name"@)) {
            (Some(url), Some(song)) => Some(
                sources::ResultView {
                    source: "ultimate-guitar"@,
                    id: codec::url_id(url),
                    title: song_title(song, text_or_empty(v, "artist_name"@)),
                    description: None,
                    external_url: url,
                    thumbnail_url: None,
                    metadata: badges_of(v),
                    complexity: None,
                    is_public_domain: Some(false),
                    is_official: None,
                },
            ),
            _ => None,
        }
    }
}

/// The first `max` tabs among the items of the results.
pub open spec fn tabs_of(items: Seq<JsonView>, max: nat) -> Seq<sources::ResultView>
    decreases items.len(),
{
    if items.len() == 0 || max == 0 {
        Seq::empty()
    } else {
        match tab_of(items[0]) {
            Some(r) => seq![r] + tabs_of(items.drop_first(), (max - 1) as nat),
            None => tabs_of(items.drop_first(), max),
        }
    }
}

/// Where the results of a search stand in the data of a page.
pub open spec fn results_path() -> Seq<Seq<char>> {
    seq!["store"@, "page"@, "data"@, "results"@]
}

/// How many tabs a search gives at most: one even where none is asked for.
pub open spec fn result_limit(limit: usize) -> nat {
    if limit == 0 {
        1
    } else {
        limit as nat
    }
}

/// The results in the data of a search page.
pub open spec fn found(data: Option<JsonView>, limit: usize) -> Seq<sources::ResultView> {
    match data {
        Some(d) => match d.descend(results_path()) {
            Some(results) => match results.list() {
                Some(items) => tabs_of(items, result_limit(limit)),
                None => Seq::empty(),
            },
            None => Seq::empty(),
        },
        None => Seq::empty(),
    }
}

fn badges(v: &Json, kind: &str) -> (out: Vec<MetadataBadge>)
    requires
        kind@ == text_or_empty(v@, "type"@),
    ensures
        sources::badge_views(out@) == badges_of(v@),
{
    let mut out: Vec<MetadataBadge> = Vec::new();
    out.push(MetadataBadge { label: text::trim::trim(kind), kind: BadgeKind::Generic });
    if let Some(key) = v.text_member("tonality_name") {
        if !text::is_empty(key) {
            out.push(MetadataBadge { label: text::concat("Key: ", key), kind: BadgeKind::Key });
        }
    }
    if let Some(n) = v.unsigned_member("version") {
        if n > 1 {
            out.push(
                MetadataBadge {
                    label: text::concat("ver. ", text::number::to_decimal(n).as_str()),
                    kind: BadgeKind::Generic,
                },
            );
        }
    }
    assert(sources::badge_views(out@) =~= badges_of(v@));
    out
}

/// The tab that an item of the results describes.
pub fn read_tab(v: &Json) -> (r: Option<SearchResult>)
    ensures
        tab_of(v@) == (match r {
            Some(result) => Some(result@),
            None => None,
        }),
        r matches Some(result) ==> codec::path_safe(result.id@),
{
    let kind = match v.text_member("type") {
        Some(t) => t,
        None => "",
    };
    proof {
        reveal_strlit("");
    }
    assert(kind@ =~= text_or_empty(v@, "type"@));
    if !is_included_type(kind) {
        return None;
    }
    if let Some(access) = v.text_member("tab_access_type") {
        if !text::same(access, "public") {
            return None;
        }
    }
    let url = match v.text_member("tab_url") {
        Some(u) => u,
        None => {
            return None;
        },
    };
    let song = match v.text_member("song_name") {
        Some(s) => s,
        None => {
            return None;
        },
    };
    let title = match v.text_member("artist_name") {
        Some(artist) => if text::is_empty(artist) {
            text::owned(song)
        } else {
            text::concat3(song, " — ", artist)
        },
        None => text::owned(song),
    };
    Some(
        SearchResult {
            source: text::owned("ultimate-guitar"),
            id: encode_id(url),
            title,
            description: None,
            external_url: text::owned(url),
            thumbnail_url: None,
            metadata: badges(v, kind),
            complexity: None,
            is_public_domain: Some(false),
            is_official: None,
        },
    )
}

/// The first `max` tabs among the items of the results.
pub fn read_tabs(items: &Vec<Json>, max: usize) -> (out: Vec<SearchResult>)
    ensures
        sources::result_views(out@) == tabs_of(json::views(items@), max as nat),
        sources::ids_are_path_safe(out@),
{
    let mut out: Vec<SearchResult> = Vec::new();
    let ghost all = json::views(items@);
    let ghost goal = tabs_of(all, max as nat);
    assert(all.skip(0) =~= all);
    assert(sources::result_views(out@) =~= Seq::<sources::ResultView>::empty());
    assert(sources::result_views(out@) + goal =~= goal);
    for i in 0..items.len()
        invariant
            all == json::views(items@),
            goal == tabs_of(all, max as nat),
            out@.len() <= max,
            sources::ids_are_path_safe(out@),
            goal == sources::result_views(out@) + tabs_of(
                all.skip(i as int),
                (max - out@.len()) as nat,
            ),
    {
        let ghost done = sources::result_views(out@);
        if out.len() >= max {
            assert(goal =~= done);
            return out;
        }
        assert(all.skip(i as int)[0] == items@[i as int]@);
        assert(all.skip(i as int).drop_first() =~= all.skip(i + 1));
        if let Some(result) = read_tab(&items[i]) {
            let ghost r = result@;
            out.push(result);
            assert(sources::result_views(out@) =~= done + seq![r]);
            let ghost rest = tabs_of(all.skip(i + 1), (max - out@.len()) as nat);
            assert(done + (seq![r] + rest) =~= sources::result_views(out@) + rest);
        }
    }
    assert(goal =~= sources::result_views(out@));
    out
}

/// The results in the data of a search page.
pub fn results_in(data: Option<&Json>, limit: usize) -> (out: Vec<SearchResult>)
    ensures
        sources::result_views(out@) == found(json::view_opt(data), limit),
        sources::ids_are_path_safe(out@),
{
    let max: usize = if limit == 0 {
        1
    } else {
        limit
    };
    if let Some(d) = data {
        let path = ["store", "page", "data", "results"];
        assert(path@.map_values(|s: &str| s@) =~= results_path());
        if let Some(results) = d.descend(&path) {
            if let Some(items) = results.list() {
                return read_tabs(items, max);
            }
        }
    }
    let out: Vec<SearchResult> = Vec::new();
    assert(sources::result_views(out@) =~= Seq::<sources::ResultView>::empty());
    out
}

/// A search gives no more tabs than asked for, each of this source, with the
/// id of its address, and none in the public domain.
pub proof fn tabs_are_bounded(items: Seq<JsonView>, max: nat)
    ensures
        tabs_of(items, max).len() <= max,
        forall|i: int|
            0 <= i < tabs_of(items, max).len() ==> {
                let r = #[trigger] tabs_of(items, max)[i];
                &&& r.source == "ultimate-guitar"@
                &&& r.id == codec::url_id(r.external_url)
                &&& r.is_public_domain == Some(false)
            },
    decreases items.len(),
{
    if items.len() > 0 && max > 0 {
        match tab_of(items[0]) {
            Some(r) => {
                let tail = tabs_of(items.drop_first(), (max - 1) as nat);
                tabs_are_bounded(items.drop_first(), (max - 1) as nat);
                assert forall|i: int| 0 < i < (seq![r] + tail).len() implies (#[trigger] (seq![r]
                    + tail)[i]) == tail[i - 1] by {}
            },
            None => tabs_are_bounded(items.drop_first(), max),
        }
    }
}

// ----- One tab -----

/// A tab, ready to be set on pages.
#[derive(Debug)]
pub struct Tab {
    pub title: String,
    pub body: String,
}

/// Why a page gives no tab.
#[derive(Debug, Clone, Copy, PartialEq, Eq, Structural)]
pub enum TabError {
    /// The page carries no data.
    NoStore,
    /// The data holds no text of a tab.
    NoContent,
}

/// The text at a path of a document.
pub open spec fn text_at(data: JsonView, path: Seq<Seq<char>>) -> Option<Seq<char>> {
    match data.descend(path) {
        Some(v) => v.text(),
        None => None,
    }
}

/// The title of a tab: the song with its artist, the song alone, or a generic
/// one.
pub open spec fn tab_title(song: Option<Seq<char>>, artist: Option<Seq<char>>) -> Seq<char> {
    let song = match song {
        Some(s) => s,
        None => Seq::empty(),
    };
    let artist = match artist {
        Some(a) => a,
        None => Seq::empty(),
    };
    if song.len() == 0 {
        "Ultimate Guitar Tab"@
    } else {
        song_title(song, artist)
    }
}

/// The title and the text of the tab in the data of a page.
pub open spec fn tab_in(data: JsonView) -> Option<(Seq<char>, Seq<char>)> {
    match text_at(
        data,
        seq!["store"@, "page"@, "data"@, "tab_view"@, "wiki_tab"@, "content"@],
    ) {
        Some(content) => Some(
            (
                tab_title(
                    text_at(data, seq!["store"@, "page"@, "data"@, "tab"@, "song_name"@]),
                    text_at(data, seq!["store"@, "page"@, "data"@, "tab"@, "artist_name"@]),
                ),
                layout::plain_tab(content),
            ),
        ),
        None => None,
    }
}

fn find_text<'a>(data: &'a Json, path: &[&str]) -> (r: Option<&'a str>)
    ensures
        text_at(data@, path@.map_values(|s: &str| s@)) == (match r {
            Some(s) => Some(s@),
            None => None,
        }),
{
    match data.descend(path) {
        Some(v) => v.text(),
        None => None,
    }
}

/// The tab in the data of a page.
pub fn read_tab_page(data: &Json) -> (r: Option<Tab>)
    ensures
        tab_in(data@) == (match r {
            Some(t) => Some((t.title@, t.body@)),
            None => None,
        }),
{
    let content_path = ["store", "page", "data", "tab_view", "wiki_tab", "content"];
    let song_path = ["store", "page", "data", "tab", "song_name"];
    let artist_path = ["store", "page", "data", "tab", "artist_name"];
    assert(content_path@.map_values(|s: &str| s@)
        =~= seq!["store"@, "page"@, "data"@, "tab_view"@, "wiki_tab"@, "content"@]);
    assert(song_path@.map_values(|s: &str| s@)
        =~= seq!["store"@, "page"@, "data"@, "tab"@, "song_name"@]);
    assert(artist_path@.map_values(|s: &str| s@)
        =~= seq!["store"@, "page"@, "data"@, "tab"@, "artist_name"@]);
    let content = match find_text(data, &content_path) {
        Some(c) => c,
        None => {
            return None;
        },
    };
    let song = find_text(data, &song_path);
    let artist = find_text(data, &artist_path);
    let title = match song {
        Some(song) => if text::is_empty(song) {
            text::owned("Ultimate Guitar Tab")
        } else {
            match artist {
                Some(artist) => if text::is_empty(artist) {
                    text::owned(song)
                } else {
                    text::concat3(song, " — ", artist)
                },
                None => text::owned(song),
            }
        },
        None => text::owned("Ultimate Guitar Tab"),
    };
    Some(Tab { title, body: layout::clean_tab_text(content) })
}

// ----- Fetching -----

/// The longest front part of `s` whose UTF-8 form has at most `max` bytes.
pub open spec fn within_bytes(s: Seq<char>, max: nat) -> Seq<char>
    decreases s.len(),
{
    if s.len() == 0 || utf8::encode_scalar(s[0] as u32).len() > max {
        Seq::empty()
    } else {
        seq![s[0]] + within_bytes(
            s.drop_first(),
            (max - utf8::encode_scalar(s[0] as u32).len()) as nat,
        )
    }
}

fn width(c: char) -> (n: usize)
    ensures
        n == utf8::encode_scalar(c as u32).len(),
{
    let v: u32 = c as u32;
    if v <= 0x7F {
        1
    } else if v <= 0x7FF {
        2
    } else if v <= 0xFFFF {
        3
    } else {
        4
    }
}

/// The longest front part of `s` that takes at most `max` bytes.
pub fn truncate_for_log(s: &str, max: usize) -> (out: String)
    ensures
        out@ == within_bytes(s@, max as nat),
{
    let chars = text::chars_of(s);
    let mut out = String::new();
    let mut left: usize = max;
    let ghost goal = within_bytes(s@, max as nat);
    assert(chars@.skip(0) =~= chars@);
    assert(out@ + goal =~= goal);
    for i in 0..chars.len()
        invariant
            chars@ == s@,
            goal == within_bytes(s@, max as nat),
            goal == out@ + within_bytes(chars@.skip(i as int), left as nat),
    {
        let c = chars[i];
        let w = width(c);
        assert(chars@.skip(i as int)[0] == c);
        assert(chars@.skip(i as int).drop_first() =~= chars@.skip(i + 1));
        if w > left {
            assert(goal =~= out@);
            return out;
        }
        let ghost before = out@;
        left = left - w;
        out.push(c);
        let ghost rest = within_bytes(chars@.skip(i + 1), left as nat);
        assert(before + (seq![c] + rest) =~= out@ + rest);
    }
    assert(goal =~= out@);
    out
}

/// What is quoted of a text is its front part, and within the limit.
pub proof fn quotes_fit(s: Seq<char>, max: nat)
    ensures
        within_bytes(s, max).is_prefix_of(s),
        utf8::encode_utf8(within_bytes(s, max)).len() <= max,
        utf8::encode_utf8(s).len() <= max ==> within_bytes(s, max) == s,
    decreases s.len(),
{
    if s.len() > 0 && utf8::encode_scalar(s[0] as u32).len() <= max {
        let w = utf8::encode_scalar(s[0] as u32).len();
        let rest = within_bytes(s.drop_first(), (max - w) as nat);
        quotes_fit(s.drop_first(), (max - w) as nat);
        let q = seq![s[0]] + rest;
        assert(q.drop_first() =~= rest);
        assert(q[0] == s[0]);
        assert(s =~= seq![s[0]] + s.drop_first());
        assert forall|i: int| 0 <= i < q.len() implies q[i] == s[i] by {
            if i > 0 {
                assert(rest[i - 1] == s.drop_first()[i - 1]);
            }
        }
    } else if s.len() > 0 {
        assert(utf8::encode_utf8(s).len() >= utf8::encode_scalar(s[0] as u32).len());
    }
}

/// How far a fetch has come.
#[derive(Debug, Clone, Copy, PartialEq, Eq, Structural)]
pub enum FetchState {
    /// A direct request with the clearance cookie is out.
    Clearance,
    /// The session is being acquired.
    Session,
    /// FlareSolverr has the request.
    Solve,
    /// A plain request is out, for want of FlareSolverr.
    Plain,
    /// The fetch is over.
    Over,
}

/// What happened.
#[derive(Debug)]
pub enum FetchEvent {
    /// The request with the cookie gave the page, or did not.
    Clearance(Option<String>),
    /// The session was acquired, or could not be.
    Session(Option<String>),
    /// FlareSolverr answered.
    Solved(Result<FsSolution, FsError>),
    /// The plain request gave the page, or why it did not.
    Plain(Result<String, String>),
}

/// Why a fetch failed.
#[derive(Debug)]
pub enum FetchFailure {
    /// The plain request failed.
    Plain(String),
    /// FlareSolverr got an error page.
    Status(FsSolution),
    /// FlareSolverr failed.
    Solver(FsError),
    /// The event does not belong to the state.
    OutOfOrder,
}

/// What to do next.
#[derive(Debug)]
pub enum FetchAction {
    /// Send the request with the cookie's user agent.
    TryClearance,
    /// Acquire the session.
    AcquireSession,
    /// Send the request to FlareSolverr.
    Solve(Option<String>),
    /// Send a plain request.
    TryPlain,
    /// Give back this page.
    Page(String),
    /// Keep the cookies and the user agent, then give back the response.
    Keep(FsSolution),
    /// Give up.
    Fail(FetchFailure),
}

/// How a fetch starts: with the cookie where FlareSolverr is there and has
/// left a user agent, with FlareSolverr where it has not, and plainly without
/// it.
pub fn start(has_solver: bool, has_ua: bool) -> (r: (FetchState, FetchAction))
    ensures
        r == (if !has_solver {
            (FetchState::Plain, FetchAction::TryPlain)
        } else if has_ua {
            (FetchState::Clearance, FetchAction::TryClearance)
        } else {
            (FetchState::Session, FetchAction::AcquireSession)
        }),
{
    if !has_solver {
        (FetchState::Plain, FetchAction::TryPlain)
    } else if has_ua {
        (FetchState::Clearance, FetchAction::TryClearance)
    } else {
        (FetchState::Session, FetchAction::AcquireSession)
    }
}

/// What follows an event.
pub open spec fn next(state: FetchState, event: FetchEvent) -> (FetchState, FetchAction) {
    match (state, event) {
        (FetchState::Clearance, FetchEvent::Clearance(Some(p))) => (
            FetchState::Over,
            FetchAction::Page(p),
        ),
        (FetchState::Clearance, FetchEvent::Clearance(None)) => (
            FetchState::Session,
            FetchAction::AcquireSession,
        ),
        (FetchState::Session, FetchEvent::Session(s)) => (
            FetchState::Solve,
            FetchAction::Solve(s),
        ),
        (FetchState::Solve, FetchEvent::Solved(Ok(s))) => if s.status >= 400 {
            (FetchState::Over, FetchAction::Fail(FetchFailure::Status(s)))
        } else {
            (FetchState::Over, FetchAction::Keep(s))
        },
        (FetchState::Solve, FetchEvent::Solved(Err(e))) => (
            FetchState::Over,
            FetchAction::Fail(FetchFailure::Solver(e)),
        ),
        (FetchState::Plain, FetchEvent::Plain(Ok(p))) => (FetchState::Over, FetchAction::Page(p)),
        (FetchState::Plain, FetchEvent::Plain(Err(e))) => (
            FetchState::Over,
            FetchAction::Fail(FetchFailure::Plain(e)),
        ),
        _ => (FetchState::Over, FetchAction::Fail(FetchFailure::OutOfOrder)),
    }
}

/// What follows an event.
pub fn step(state: FetchState, event: FetchEvent) -> (r: (FetchState, FetchAction))
    ensures
        r == next(state, event),
{
    match (state, event) {
        (FetchState::Clearance, FetchEvent::Clearance(Some(p))) => (
            FetchState::Over,
            FetchAction::Page(p),
        ),
        (FetchState::Clearance, FetchEvent::Clearance(None)) => (
            FetchState::Session,
            FetchAction::AcquireSession,
        ),
        (FetchState::Session, FetchEvent::Session(s)) => (
            FetchState::Solve,
            FetchAction::Solve(s),
        ),
        (FetchState::Solve, FetchEvent::Solved(Ok(s))) => if s.status >= 400 {
            (FetchState::Over, FetchAction::Fail(FetchFailure::Status(s)))
        } else {
            (FetchState::Over, FetchAction::Keep(s))
        },
        (FetchState::Solve, FetchEvent::Solved(Err(e))) => (
            FetchState::Over,
            FetchAction::Fail(FetchFailure::Solver(e)),
        ),
        (FetchState::Plain, FetchEvent::Plain(Ok(p))) => (FetchState::Over, FetchAction::Page(p)),
        (FetchState::Plain, FetchEvent::Plain(Err(e))) => (
            FetchState::Over,
            FetchAction::Fail(FetchFailure::Plain(e)),
        ),
        _ => (FetchState::Over, FetchAction::Fail(FetchFailure::OutOfOrder)),
    }
}

/// How many steps a fetch may still take.
pub open spec fn steps_left(state: FetchState) -> nat {
    match state {
        FetchState::Clearance => 3,
        FetchState::Session => 2,
        FetchState::Solve => 1,
        FetchState::Plain => 1,
        FetchState::Over => 0,
    }
}

/// Every step brings a fetch closer to its end. A page is given back only
/// where a request brought it, or FlareSolverr did with a status below 400.
pub proof fn fetch_ends(state: FetchState, event: FetchEvent)
    requires
        state !is Over,
    ensures
        ({
            let (after, action) = next(state, event);
            &&& steps_left(after) < steps_left(state)
            &&& after is Over <==> (action is Page || action is Keep || action is Fail)
            &&& action matches FetchAction::Page(p) ==> event == FetchEvent::Clearance(Some(p))
                || event == FetchEvent::Plain(Ok(p))
            &&& action matches FetchAction::Keep(s) ==> event == FetchEvent::Solved(Ok(s))
                && s.status < 400
        }),
{
}

/// What a failed fetch of a page reports.
pub open spec fn failure_text(label: Seq<char>, url: Seq<char>, failure: FetchFailure) -> Seq<char> {
    match failure {
        FetchFailure::Plain(e) => e@,
        FetchFailure::Status(s) => "flaresolverr "@ + label + " HTTP "@ + text::number::decimal(
            s.status as nat,
        ) + ": "@ + within_bytes(s.response@, QUOTE_BYTES as nat),
        FetchFailure::Solver(e) => "flaresolverr "@ + label + " "@ + url + ": "@
            + sources::flaresolverr::error_text(e@),
        FetchFailure::OutOfOrder => "ultimate-guitar "@ + label + ": event out of order"@,
    }
}

pub fn failure_message(label: &str, url: &str, failure: &FetchFailure) -> (out: String)
    ensures
        out@ == failure_text(label@, url@, *failure),
{
    match failure {
        FetchFailure::Plain(e) => text::owned(e.as_str()),
        FetchFailure::Status(s) => {
            let head = text::concat3("flaresolverr ", label, " HTTP ");
            let status = text::number::to_decimal(s.status as u64);
            let told = text::concat3(head.as_str(), status.as_str(), ": ");
            let quote = truncate_for_log(s.response.as_str(), QUOTE_BYTES);
            text::concat(told.as_str(), quote.as_str())
        },
        FetchFailure::Solver(e) => {
            let head = text::concat3("flaresolverr ", label, " ");
            let told = text::concat3(head.as_str(), url, ": ");
            text::concat(told.as_str(), e.message().as_str())
        },
        FetchFailure::OutOfOrder => text::concat3(
            "ultimate-guitar ",
            label,
            ": event out of order",
        ),
    }
}

/// The page in the answer to a request with the clearance cookie: none where
/// the status is not one of success, or the page is a challenge.
pub fn judge_clearance(is_success: bool, body: String) -> (r: Option<String>)
    ensures
        r == (if is_success && !page::is_challenge(body@) {
            Some(body)
        } else {
            None
        }),
{
    if is_success && !page::looks_like_cf_challenge(body.as_str()) {
        Some(body)
    } else {
        None
    }
}

/// The page in the answer to a plain request.
pub fn judge_plain(is_success: bool, label: &str, status: &str, body: String) -> (r: Result<
    String,
    String,
>)
    ensures
        match r {
            Ok(p) => is_success && p == body,
            Err(e) => !is_success && e@ == "ultimate-guitar "@ + label@ + " HTTP "@ + status@
                + ": "@ + within_bytes(body@, QUOTE_BYTES as nat),
        },
{
    if is_success {
        return Ok(body);
    }
    let head = text::concat3("ultimate-guitar ", label, " HTTP ");
    let told = text::concat3(head.as_str(), status, ": ");
    let quote = truncate_for_log(body.as_str(), QUOTE_BYTES);
    Err(text::concat(told.as_str(), quote.as_str()))
}

/// The headers that a browser sends where the user goes to a page.
pub fn nav_headers() -> (out: Vec<(&'static str, &'static str)>)
    ensures
        sources::musescore::header_views(out@) == seq![
            ("accept"@, ACCEPT_DOC@),
            ("upgrade-insecure-requests"@, "1"@),
            ("sec-fetch-dest"@, "document"@),
            ("sec-fetch-mode"@, "navigate"@),
            ("sec-fetch-site"@, "none"@),
        ],
{
    let out = vec![
        ("accept", ACCEPT_DOC),
        ("upgrade-insecure-requests", "1"),
        ("sec-fetch-dest", "document"),
        ("sec-fetch-mode", "navigate"),
        ("sec-fetch-site", "none"),
    ];
    assert(sources::musescore::header_views(out@) =~= seq![
        ("accept"@, ACCEPT_DOC@),
        ("upgrade-insecure-requests"@, "1"@),
        ("sec-fetch-dest"@, "document"@),
        ("sec-fetch-mode"@, "navigate"@),
        ("sec-fetch-site"@, "none"@),
    ]);
    out
}

// ----- The catalog -----

/// The catalog, and what it remembers between requests.
pub struct UltimateGuitar {
    /// Where FlareSolverr is, where it is configured.
    pub flaresolverr_url: Option<String>,
    /// The session, once it has been created.
    pub fs_session: Option<String>,
    /// The user agent of the last solve.
    pub fs_ua: Option<String>,
}

impl UltimateGuitar {
    /// From the setting for FlareSolverr's address. An empty address is none.
    pub fn new(flaresolverr_url: Option<&str>) -> (u: Self)
        ensures
            text::view_opt(u.flaresolverr_url) == (match flaresolverr_url {
                Some(s) => if s@.len() > 0 {
                    Some(s@)
                } else {
                    None
                },
                None => None,
            }),
            u.fs_session is None,
            u.fs_ua is None,
    {
        let url = match flaresolverr_url {
            Some(s) => if text::is_empty(s) {
                None
            } else {
                Some(text::owned(s))
            },
            None => None,
        };
        UltimateGuitar { flaresolverr_url: url, fs_session: None, fs_ua: None }
    }

    /// Reports whether the session was created, and gives it. A session that
    /// is there stays.
    pub fn ensure_fs_session(&mut self, created: bool) -> (session: Option<String>)
        ensures
            text::view_opt(session) == (match old(self).fs_session {
                Some(s) => Some(s@),
                None => if created {
                    Some(SESSION@)
                } else {
                    None
                },
            }),
            text::view_opt(final(self).fs_session) == text::view_opt(session),
            final(self).flaresolverr_url == old(self).flaresolverr_url,
            final(self).fs_ua == old(self).fs_ua,
    {
        if let Some(s) = &self.fs_session {
            return Some(text::owned(s.as_str()));
        }
        if created {
            self.fs_session = Some(text::owned(SESSION));
            Some(text::owned(SESSION))
        } else {
            None
        }
    }

    /// Whether a search can find anything: the catalog is one of guitar
    /// music.
    pub fn serves(&self, filters: &SearchFilters) -> (b: bool)
        ensures
            b == (filters.instrument is None || filters.instrument == Some(Instrument::Guitar)),
    {
        match filters.instrument {
            Some(i) => i == Instrument::Guitar,
            None => true,
        }
    }

    /// The address of a search.
    pub fn search_url(&self, query: &str) -> (url: String)
        ensures
            url@ == search_address(query@),
    {
        text::concat(
            "https://www.ultimate-guitar.com/search.php?search_type=title&value=",
            codec::percent_encode(query).as_str(),
        )
    }

    /// The results on the page that answers a search.
    pub fn search(&self, page: &str, limit: usize) -> (out: Vec<SearchResult>)
        ensures
            sources::result_views(out@) == found(
                store::store_of(
                    html::attrs_of(page@, "div.js-store"@, "data-content"@),
                    page@,
                ),
                limit,
            ),
            sources::ids_are_path_safe(out@),
    {
        match store::extract_js_store(page) {
            Some(data) => results_in(Some(&data), limit),
            None => results_in(None, limit),
        }
    }

    /// The tab on its page.
    pub fn fetch_tab(&self, page: &str) -> (r: Result<Tab, TabError>)
        ensures
            (match r {
                Ok(t) => Ok((t.title@, t.body@)),
                Err(e) => Err(e),
            }) == (match store::store_of(
                html::attrs_of(page@, "div.js-store"@, "data-content"@),
                page@,
            ) {
                Some(data) => match tab_in(data) {
                    Some(t) => Ok(t),
                    None => Err(TabError::NoContent),
                },
                None => Err(TabError::NoStore),
            }),
    {
        match store::extract_js_store(page) {
            Some(data) => match read_tab_page(&data) {
                Some(t) => Ok(t),
                None => Err(TabError::NoContent),
            },
            None => Err(TabError::NoStore),
        }
    }
}

impl Source for UltimateGuitar {
    open spec fn source_id(&self) -> Seq<char> {
        "ultimate-guitar"@
    }

    open spec fn name(&self) -> Seq<char> {
        "Ultimate Guitar"@
    }

    open spec fn is_external_url(&self, id: Seq<char>, url: Seq<char>) -> bool {
        ||| codec::url_id(url) == id && is_own_url(url)
        ||| url == HOME@ && forall|u: Seq<char>| #[trigger]
            codec::url_id(u) == id ==> !is_own_url(u)
    }

    fn id(&self) -> (s: &'static str) {
        "ultimate-guitar"
    }

    fn display_name(&self) -> (s: &'static str) {
        "Ultimate Guitar"
    }

    fn external_url(&self, id: &str) -> (url: String) {
        match decode_id(id) {
            Ok(url) => url,
            Err(_) => text::owned(HOME),
        }
    }
}

// ----- What the rules above amount to -----

/// The tabs come in the order of the items, and as many as are asked for: what
/// the front items give comes first, and the items behind them fill what is
/// left. An item gives its tab or nothing.
pub proof fn tabs_come_in_order(a: Seq<JsonView>, b: Seq<JsonView>, max: nat)
    ensures
        tabs_of(a + b, max) == tabs_of(a, max) + tabs_of(b, (max - tabs_of(a, max).len()) as nat),
        forall|v: JsonView| #[trigger]
            tab_of(v) is Some && max > 0 ==> tabs_of(seq![v], max) == seq![tab_of(v)->0],
        forall|v: JsonView| #[trigger] tab_of(v) is None ==> tabs_of(seq![v], max).len() == 0,
        tabs_of(a, 0).len() == 0,
    decreases a.len(),
{
    tabs_are_bounded(a, max);
    assert forall|v: JsonView| #[trigger] tab_of(v) is Some && max > 0 implies tabs_of(
        seq![v],
        max,
    ) == seq![tab_of(v)->0] by {
        assert(seq![v].drop_first() =~= Seq::<JsonView>::empty());
        assert(tabs_of(seq![v].drop_first(), (max - 1) as nat) =~= Seq::empty());
    }
    assert forall|v: JsonView| #[trigger] tab_of(v) is None implies tabs_of(seq![v], max).len()
        == 0 by {
        assert(seq![v].drop_first() =~= Seq::<JsonView>::empty());
        assert(tabs_of(seq![v].drop_first(), max) =~= Seq::empty());
    }
    if a.len() == 0 {
        assert(a + b =~= b);
        assert(tabs_of(a, max) + tabs_of(b, max) =~= tabs_of(b, max));
    } else if max == 0 {
        assert(tabs_of(a, max) + tabs_of(b, 0) =~= tabs_of(a + b, max));
    } else {
        let rest = a.drop_first();
        assert((a + b)[0] == a[0]);
        assert((a + b).drop_first() =~= rest + b);
        match tab_of(a[0]) {
            Some(r) => {
                let less = (max - 1) as nat;
                tabs_come_in_order(rest, b, less);
                tabs_are_bounded(rest, less);
                let left = (less - tabs_of(rest, less).len()) as nat;
                assert(seq![r] + (tabs_of(rest, less) + tabs_of(b, left)) =~= (seq![r] + tabs_of(
                    rest,
                    less,
                )) + tabs_of(b, left));
            },
            None => tabs_come_in_order(rest, b, max),
        }
    }
}

/// An item is a tab exactly where it is of a kind that is text, is not held
/// back from the public, and has an address and a song. The tab leads to that
/// address and has the song and the artist in its title.
pub proof fn items_are_tabs_where_they_can_be_read(v: JsonView)
    ensures
        tab_of(v) is Some <==> {
            &&& json::text_member(v, "type"@) is Some
            &&& is_text_type(json::text_member(v, "type"@)->0)
            &&& (json::text_member(v, "tab_access_type"@) is None || json::text_member(
                v,
                "tab_access_type"@,
            )->0 == "public"@)
            &&& json::text_member(v, "tab_url"@) is Some
            &&& json::text_member(v, "song_name"@) is Some
        },
        tab_of(v) matches Some(r) ==> {
            let song = json::text_member(v, "song_name"@)->0;
            let artist = json::text_member(v, "artist_name"@);
            &&& r.external_url == json::text_member(v, "tab_url"@)->0
            &&& (artist is None || (artist->0).len() == 0 ==> r.title == song)
            &&& (artist is Some && (artist->0).len() > 0 ==> r.title == song + " — "@ + artist->0)
            &&& r.description is None
            &&& r.thumbnail_url is None
            &&& r.complexity is None
            &&& r.is_official is None
        },
{
    if json::text_member(v, "type"@) is None {
        let none = text_or_empty(v, "type"@);
        assert(text::trim::trimmed(none).len() == 0) by {
            text::trim::trimmed_is_trimmed(none);
        }
        text::lowering_changes_capitals_alone(text::trim::trimmed(none), none);
        reveal_strlit("chords");
        reveal_strlit("tab");
        reveal_strlit("tabs");
    }
}

/// Chords and tabs are text, in any case and with white space around; nothing
/// longer or shorter than those words is.
pub proof fn kinds_are_read_in_any_case(before: Seq<char>, word: Seq<char>, after: Seq<char>)
    requires
        text::trim::is_trimmed(word),
        forall|i: int| 0 <= i < before.len() ==> text::is_white_space(#[trigger] before[i]),
        forall|i: int| 0 <= i < after.len() ==> text::is_white_space(#[trigger] after[i]),
    ensures
        is_text_type(before + word + after) <==> (text::ascii_lowered(word) == "chords"@
            || text::ascii_lowered(word) == "tab"@ || text::ascii_lowered(word) == "tabs"@),
{
    text::trim::padding_comes_off(before, word, after);
}

/// A tab shows its kind first, then its key where it has one, and last its
/// version where it is not the first.
pub proof fn badges_tell_kind_key_and_version(v: JsonView)
    ensures
        badges_of(v)[0].kind == BadgeKind::Generic,
        badges_of(v)[0].label == text::trim::trimmed(text_or_empty(v, "type"@)),
        text_or_empty(v, "tonality_name"@).len() > 0 ==> badges_of(v)[1].kind == BadgeKind::Key
            && badges_of(v)[1].label == "Key: "@ + json::text_member(v, "tonality_name"@)->0,
        json::unsigned_member(v, "version"@) matches Some(n) ==> n > 1 ==> badges_of(v).last().kind
            == BadgeKind::Generic && badges_of(v).last().label == "ver. "@ + text::number::decimal(
            n as nat,
        ),
        badges_of(v).len() == 1 + (if json::text_member(v, "tonality_name"@) is Some && (
        json::text_member(v, "tonality_name"@)->0).len() > 0 {
            1int
        } else {
            0
        }) + (if json::unsigned_member(v, "version"@) is Some && json::unsigned_member(
            v,
            "version"@,
        )->0 >= 2 {
            1int
        } else {
            0
        }),
{
}

/// A search page has its results at one place in its data, and gives as many
/// as are asked for, and one where none is. Data without a list there, and no
/// data, gives none.
pub proof fn results_stand_at_their_place(data: JsonView, items: Seq<JsonView>, limit: usize)
    ensures
        data.descend(seq!["store"@, "page"@, "data"@, "results"@]) == Some(JsonView::List(items))
            ==> found(Some(data), limit) == tabs_of(
            items,
            if limit == 0 {
                1
            } else {
                limit as nat
            },
        ),
        data.descend(seq!["store"@, "page"@, "data"@, "results"@]) is None ==> found(
            Some(data),
            limit,
        ).len() == 0,
        data.descend(seq!["store"@, "page"@, "data"@, "results"@]) matches Some(r) ==> r !is List
            ==> found(Some(data), limit).len() == 0,
        found(None, limit).len() == 0,
{
}

/// A tab page has the text at one place and the song and the artist at others:
/// without the text there is no tab, and without a song it has a general
/// title.
pub proof fn tab_pages_hold_text_and_title(
    data: JsonView,
    content: Seq<char>,
    song: Seq<char>,
    artist: Seq<char>,
)
    requires
        song.len() > 0,
        artist.len() > 0,
    ensures
        ({
            let body = data.descend(
                seq!["store"@, "page"@, "data"@, "tab_view"@, "wiki_tab"@, "content"@],
            );
            let by = data.descend(seq!["store"@, "page"@, "data"@, "tab"@, "artist_name"@]);
            let of = data.descend(seq!["store"@, "page"@, "data"@, "tab"@, "song_name"@]);
            &&& body is None ==> tab_in(data) is None
            &&& body == Some(JsonView::Text(content)) ==> tab_in(data) is Some && (tab_in(
                data,
            )->0).1 == layout::plain_tab(content)
            &&& tab_in(data) is Some && of is None ==> (tab_in(data)->0).0
                == "Ultimate Guitar Tab"@
            &&& tab_in(data) is Some && of == Some(JsonView::Text(Seq::<char>::empty())) ==> (
            tab_in(data)->0).0 == "Ultimate Guitar Tab"@
            &&& tab_in(data) is Some && of == Some(JsonView::Text(song)) && by == Some(
                JsonView::Text(artist),
            ) ==> (tab_in(data)->0).0 == song + " — "@ + artist
            &&& tab_in(data) is Some && of == Some(JsonView::Text(song)) && by is None ==> (tab_in(
                data,
            )->0).0 == song
        }),
{
}

/// What is quoted is as long as can be: one character more would not fit.
pub proof fn quotes_are_as_long_as_can_be(s: Seq<char>, max: nat)
    ensures
        within_bytes(s, max).len() < s.len() ==> utf8::encode_utf8(
            s.take(within_bytes(s, max).len() as int + 1),
        ).len() > max,
        QUOTE_BYTES == 200,
    decreases s.len(),
{
    if s.len() > 0 {
        let w = utf8::encode_scalar(s[0] as u32).len();
        if w <= max {
            let rest = s.drop_first();
            let less = (max - w) as nat;
            quotes_are_as_long_as_can_be(rest, less);
            let n = within_bytes(rest, less).len() as int;
            assert(within_bytes(s, max).len() == n + 1);
            if n < rest.len() {
                let t = s.take(n + 2);
                assert(t[0] == s[0]);
                assert(t.drop_first() =~= rest.take(n + 1));
            }
        } else {
            let t = s.take(1);
            assert(t[0] == s[0]);
            assert(t.drop_first() =~= Seq::<char>::empty());
            assert(utf8::encode_utf8(t).len() >= w);
        }
    }
}

/// A page that the request with the cookie brings is given back. Where it
/// brings none, FlareSolverr gets the session that was acquired, and what it
/// brings is kept unless its status says that it is an error page. Without
/// FlareSolverr, what the plain request brings is given back.
pub proof fn fetches_go_on_until_a_page_is_there(
    page: String,
    session: Option<String>,
    solution: FsSolution,
    e: FsError,
    reason: String,
)
    ensures
        next(FetchState::Clearance, FetchEvent::Clearance(Some(page))).1 == FetchAction::Page(page),
        ({
            let (acquire, ask) = next(FetchState::Clearance, FetchEvent::Clearance(None));
            let (solve, send) = next(acquire, FetchEvent::Session(session));
            &&& ask == FetchAction::AcquireSession
            &&& send == FetchAction::Solve(session)
            &&& next(solve, FetchEvent::Solved(Ok(solution))).1 == (if solution.status < 400 {
                FetchAction::Keep(solution)
            } else {
                FetchAction::Fail(FetchFailure::Status(solution))
            })
            &&& next(solve, FetchEvent::Solved(Err(e))).1 == FetchAction::Fail(
                FetchFailure::Solver(e),
            )
        }),
        next(FetchState::Plain, FetchEvent::Plain(Ok(page))).1 == FetchAction::Page(page),
        next(FetchState::Plain, FetchEvent::Plain(Err(reason))).1 == FetchAction::Fail(
            FetchFailure::Plain(reason),
        ),
        next(FetchState::Plain, FetchEvent::Session(session)).1 == FetchAction::Fail(
            FetchFailure::OutOfOrder,
        ),
{
}

/// What is reported of a failure: that of a plain request as it is, that of
/// FlareSolverr with the page it was asked for, and that of an error page with
/// its status and its text, as far as it is quoted.
pub proof fn failures_say_what_happened(
    label: Seq<char>,
    url: Seq<char>,
    reason: String,
    solution: FsSolution,
    e: FsError,
)
    ensures
        failure_text(label, url, FetchFailure::Plain(reason)) == reason@,
        ("flaresolverr "@ + label + " HTTP "@ + text::number::decimal(
            solution.status as nat,
        )).is_prefix_of(failure_text(label, url, FetchFailure::Status(solution))),
        utf8::encode_utf8(solution.response@).len() <= 200 ==> (": "@
            + solution.response@).is_suffix_of(
            failure_text(label, url, FetchFailure::Status(solution)),
        ),
        ("flaresolverr "@ + label + " "@ + url).is_prefix_of(
            failure_text(label, url, FetchFailure::Solver(e)),
        ),
        sources::flaresolverr::error_text(e@).is_suffix_of(
            failure_text(label, url, FetchFailure::Solver(e)),
        ),
{
    let s = failure_text(label, url, FetchFailure::Status(solution));
    let p = "flaresolverr "@ + label + " HTTP "@ + text::number::decimal(solution.status as nat);
    assert(s.subrange(0, p.len() as int) =~= p);
    if utf8::encode_utf8(solution.response@).len() <= 200 {
        quotes_fit(solution.response@, 200);
        let q = ": "@ + solution.response@;
        assert(s.subrange(s.len() - q.len(), s.len() as int) =~= q);
    }
    let f = failure_text(label, url, FetchFailure::Solver(e));
    let h = "flaresolverr "@ + label + " "@ + url;
    assert(f.subrange(0, h.len() as int) =~= h);
    let m = sources::flaresolverr::error_text(e@);
    assert(f.subrange(f.len() - m.len(), f.len() as int) =~= m);
}

/// An address is one of Ultimate Guitar's exactly where it lies on one of its
/// two hosts, over HTTPS; and a search asks for the query by title.
pub proof fn own_addresses_lie_on_two_hosts(rest: Seq<char>, query: Seq<char>)
    ensures
        is_own_url("https://tabs.ultimate-guitar.com/"@ + rest),
        is_own_url("https://www.ultimate-guitar.com/"@ + rest),
        forall|url: Seq<char>| #[trigger]
            is_own_url(url) ==> "https://tabs.ultimate-guitar.com/"@.is_prefix_of(url)
                || "https://www.ultimate-guitar.com/"@.is_prefix_of(url),
        text::search::without_prefix(
            search_address(query),
            "https://www.ultimate-guitar.com/search.php?search_type=title&value="@,
        ) == Some(codec::percent_encoded(utf8::encode_utf8(query))),
{
    text::search::affixes_come_off("https://tabs.ultimate-guitar.com/"@, rest);
    text::search::affixes_come_off("https://www.ultimate-guitar.com/"@, rest);
    let tabs = "https://tabs.ultimate-guitar.com/"@;
    let home = "https://www.ultimate-guitar.com/"@;
    assert((tabs + rest).subrange(0, tabs.len() as int) =~= tabs);
    assert((home + rest).subrange(0, home.len() as int) =~= home);
    text::search::affixes_come_off(
        "https://www.ultimate-guitar.com/search.php?search_type=title&value="@,
        codec::percent_encoded(utf8::encode_utf8(query)),
    );
}

/// A tab is viewed at the address that its id stands for, wherever that is one
/// of Ultimate Guitar's; any other id leads to its home page.
pub proof fn tabs_are_viewed_at_their_address(
    u: UltimateGuitar,
    url: Seq<char>,
    id: Seq<char>,
    shown: Seq<char>,
)
    ensures
        is_own_url(url) ==> u.is_external_url(codec::url_id(url), url),
        is_own_url(url) && u.is_external_url(codec::url_id(url), shown) ==> codec::url_id(shown)
            == codec::url_id(url) && is_own_url(shown),
        (forall|other: Seq<char>| #[trigger] codec::url_id(other) == id ==> !is_own_url(other))
            && u.is_external_url(id, shown) ==> shown == "https://www.ultimate-guitar.com/"@,
        u.source_id() == "ultimate-guitar"@,
{
}

/// An event that does not belong to the state ends the fetch, and so does any
/// event once it is over.
pub proof fn events_belong_to_their_state(state: FetchState, event: FetchEvent)
    requires
        state is Over || state is Clearance && event !is Clearance || state is Session && event
            !is Session || state is Solve && event !is Solved || state is Plain && event !is Plain,
    ensures
        next(state, event) == (FetchState::Over, FetchAction::Fail(FetchFailure::OutOfOrder)),
{
}

} // verus!
