//! MuseScore: scores of publishers and of the community.
//!
//! The site gives away no PDF, but an image of each page. A search page and a
//! score page carry their data as JSON in an attribute; where that is gone,
//! the links of the page are read instead.

use crate::codec;
use crate::html;
use crate::sources;
use crate::sources::{SearchFilters, SearchResult, Source};
use crate::text;
use download::CachedAlgorithm;
use session::SessionPool;
use vstd::prelude::*;
use vstd::utf8;

pub mod download;
pub mod fetch;
pub mod page;
pub mod pipeline;
pub mod score;
pub mod session;

verus! {

pub const USER_AGENT: &'static str = "Mozilla/5.0 (Windows NT 10.0; Win64; x64) AppleWebKit/537.36 (KHTML, like Gecko) Chrome/140.0.0.0 Safari/537.36";

pub const ACCEPT_LANGUAGE: &'static str = "en-US,en;q=0.9";

pub const ACCEPT_DOC: &'static str = "text/html,application/xhtml+xml,application/xml;q=0.9,image/avif,image/webp,image/apng,*/*;q=0.8,application/signed-exchange;v=b3;q=0.7";

pub const SEC_CH_UA: &'static str = "\"Chromium\";v=\"140\", \"Not?A_Brand\";v=\"24\", \"Google Chrome\";v=\"140\"";

pub const SEC_CH_UA_PLATFORM: &'static str = "\"Windows\"";

/// How long a request may take, in seconds.
pub const TIMEOUT_SECS: u64 = 20;

/// How often the clearance cookie is renewed, in seconds.
pub const KEEP_WARM_INTERVAL_SECS: u64 = 900;

/// How long after the last search or download the cookie is still renewed, in
/// seconds.
pub const KEEP_WARM_ACTIVE_SECS: i64 = 1800;

/// The page that is fetched for the sake of the cookie.
pub const WARM_URL: &'static str = "https://musescore.com/sheetmusic";

/// The views of a list of headers.
pub open spec fn header_views(headers: Seq<(&'static str, &'static str)>) -> Seq<
    (Seq<char>, Seq<char>),
> {
    headers.map_values(|h: (&'static str, &'static str)| (h.0@, h.1@))
}

/// The headers that a browser sends with every request.
pub fn default_headers() -> (out: Vec<(&'static str, &'static str)>)
    ensures
        header_views(out@) == seq![
            ("accept-language"@, ACCEPT_LANGUAGE@),
            ("sec-ch-ua"@, SEC_CH_UA@),
            ("sec-ch-ua-mobile"@, "?0"@),
            ("sec-ch-ua-platform"@, SEC_CH_UA_PLATFORM@),
        ],
{
    let out = vec![
        ("accept-language", ACCEPT_LANGUAGE),
        ("sec-ch-ua", SEC_CH_UA),
        ("sec-ch-ua-mobile", "?0"),
        ("sec-ch-ua-platform", SEC_CH_UA_PLATFORM),
    ];
    assert(header_views(out@) =~= seq![
        ("accept-language"@, ACCEPT_LANGUAGE@),
        ("sec-ch-ua"@, SEC_CH_UA@),
        ("sec-ch-ua-mobile"@, "?0"@),
        ("sec-ch-ua-platform"@, SEC_CH_UA_PLATFORM@),
    ]);
    out
}

/// The headers that a browser sends where the user goes to a page.
pub fn nav_headers() -> (out: Vec<(&'static str, &'static str)>)
    ensures
        header_views(out@) == seq![
            ("accept"@, ACCEPT_DOC@),
            ("upgrade-insecure-requests"@, "1"@),
            ("sec-fetch-dest"@, "document"@),
            ("sec-fetch-mode"@, "navigate"@),
            ("sec-fetch-site"@, "none"@),
            ("sec-fetch-user"@, "?1"@),
        ],
{
    let out = vec![
        ("accept", ACCEPT_DOC),
        ("upgrade-insecure-requests", "1"),
        ("sec-fetch-dest", "document"),
        ("sec-fetch-mode", "navigate"),
        ("sec-fetch-site", "none"),
        ("sec-fetch-user", "?1"),
    ];
    assert(header_views(out@) =~= seq![
        ("accept"@, ACCEPT_DOC@),
        ("upgrade-insecure-requests"@, "1"@),
        ("sec-fetch-dest"@, "document"@),
        ("sec-fetch-mode"@, "navigate"@),
        ("sec-fetch-site"@, "none"@),
        ("sec-fetch-user"@, "?1"@),
    ]);
    out
}

/// The address of a search: the query percent-encoded, and the instrument
/// where one is asked for.
pub open spec fn search_address(query: Seq<char>, filters: SearchFilters) -> Seq<char> {
    let base = "https://musescore.com/sheetmusic?text="@ + codec::percent_encoded(
        utf8::encode_utf8(query),
    );
    match filters.instrument {
        Some(i) => base + "&instrument="@ + i.slug_of(),
        None => base,
    }
}

/// The scores of a search page: those of its data, or else those that it
/// links to.
pub open spec fn page_scores(
    data: Option<crate::json::JsonView>,
    links: Option<Seq<html::LinkView>>,
) -> Seq<score::ScoreView> {
    let from_data = match data {
        Some(d) => score::data_scores(d),
        None => None,
    };
    let from_links = match links {
        Some(l) => score::if_any(score::linked_scores(l, Seq::empty())),
        None => None,
    };
    match score::either(from_data, from_links) {
        Some(scores) => scores,
        None => Seq::empty(),
    }
}

/// `a - b`, held within `i64`.
pub open spec fn saturating_difference(a: i64, b: i64) -> i64 {
    if a - b > i64::MAX {
        i64::MAX
    } else if a - b < i64::MIN {
        i64::MIN
    } else {
        (a - b) as i64
    }
}

/// The catalog, and what it remembers between requests.
pub struct Musescore {
    /// Where FlareSolverr is, where it is configured.
    pub flaresolverr_url: Option<String>,
    pub sessions: SessionPool,
    /// The user agent of the last solve.
    pub fs_ua: Option<String>,
    /// The salt that was found last.
    pub cached: Option<CachedAlgorithm>,
    /// When the last search or download was, in seconds since the epoch.
    pub last_activity: i64,
}

impl Musescore {
    /// From the settings for FlareSolverr's address and the size of the
    /// session pool. An empty address is none, and without one there is no
    /// pool.
    pub fn new(flaresolverr_url: Option<&str>, pool_size: Option<&str>) -> (m: Self)
        ensures
            m.sessions.wf(),
            text::view_opt(m.flaresolverr_url) == (match flaresolverr_url {
                Some(u) => if u@.len() > 0 {
                    Some(u@)
                } else {
                    None
                },
                None => None,
            }),
            m.sessions.sessions().len() == (if m.flaresolverr_url is Some {
                session::pool_size_of(
                    match pool_size {
                        Some(s) => Some(s@),
                        None => None,
                    },
                )
            } else {
                0
            }),
            forall|i: int|
                0 <= i < m.sessions.sessions().len() ==> m.sessions.sessions()[i] is None,
            m.fs_ua is None,
            m.cached is None,
            m.last_activity == 0,
    {
        let url = match flaresolverr_url {
            Some(u) => if text::is_empty(u) {
                None
            } else {
                Some(text::owned(u))
            },
            None => None,
        };
        let size: usize = if url.is_some() {
            session::pool_size(pool_size)
        } else {
            0
        };
        Musescore {
            flaresolverr_url: url,
            sessions: SessionPool::new(size),
            fs_ua: None,
            cached: None,
            last_activity: 0,
        }
    }

    /// Notes that a search or download happened.
    pub fn mark_activity(&mut self, now: i64)
        ensures
            *final(self) == (Musescore { last_activity: now, ..*old(self) }),
    {
        self.last_activity = now;
    }

    /// How long ago the last search or download was.
    pub fn seconds_since_activity(&self, now: i64) -> (idle: i64)
        ensures
            idle == saturating_difference(now, self.last_activity),
    {
        let idle: i128 = now as i128 - self.last_activity as i128;
        if idle > i64::MAX as i128 {
            i64::MAX
        } else if idle < i64::MIN as i128 {
            i64::MIN
        } else {
            idle as i64
        }
    }

    /// Whether the clearance cookie is to be renewed: FlareSolverr is there,
    /// and the source is in use.
    pub fn keep_warm(&self, now: i64) -> (b: bool)
        ensures
            b == (self.flaresolverr_url is Some && saturating_difference(now, self.last_activity)
                <= KEEP_WARM_ACTIVE_SECS),
    {
        self.flaresolverr_url.is_some() && self.seconds_since_activity(now) <= KEEP_WARM_ACTIVE_SECS
    }

    /// The address of a search.
    pub fn search_url(&self, query: &str, filters: &SearchFilters) -> (url: String)
        ensures
            url@ == search_address(query@, *filters),
    {
        let encoded = codec::percent_encode(query);
        let base = text::concat("https://musescore.com/sheetmusic?text=", encoded.as_str());
        match filters.instrument {
            Some(i) => text::concat3(base.as_str(), "&instrument=", i.slug()),
            None => base,
        }
    }

    /// The results on the page that answers a search.
    pub fn search(&self, page: &str, limit: usize) -> (out: Vec<SearchResult>)
        ensures
            sources::result_views(out@) == score::results_of(
                page_scores(
                    score::page_data(page@),
                    html::links_of(page@, "a[href*=\"/scores/\"]"@, "img"@),
                ),
                limit as nat,
            ),
            sources::ids_are_path_safe(out@),
    {
        let scores = match score::extract_search_scores(page) {
            Some(s) => s,
            None => match score::extract_search_scores_from_dom(page) {
                Some(s) => s,
                None => Vec::new(),
            },
        };
        assert(score::score_views(scores@) =~= page_scores(
            score::page_data(page@),
            html::links_of(page@, "a[href*=\"/scores/\"]"@, "img"@),
        ));
        score::score_results(&scores, limit)
    }
}

impl Source for Musescore {
    open spec fn source_id(&self) -> Seq<char> {
        "musescore"@
    }

    open spec fn name(&self) -> Seq<char> {
        "MuseScore"@
    }

    open spec fn is_external_url(&self, id: Seq<char>, url: Seq<char>) -> bool {
        url == score::score_url(id)
    }

    fn id(&self) -> (s: &'static str) {
        "musescore"
    }

    fn display_name(&self) -> (s: &'static str) {
        "MuseScore"
    }

    fn external_url(&self, id: &str) -> (url: String) {
        text::concat("https://musescore.com/score/", id)
    }
}

/// A search gives at most `limit` results, each of this source, and each with
/// the id of its score.
pub proof fn results_are_bounded(scores: Seq<score::ScoreView>, limit: nat)
    ensures
        score::results_of(scores, limit).len() <= limit,
        score::results_of(scores, limit).len() <= scores.len(),
        forall|i: int|
            0 <= i < score::results_of(scores, limit).len() ==> {
                let r = #[trigger] score::results_of(scores, limit)[i];
                r.source == "musescore"@ && r.id == text::number::decimal(scores[i].id as nat)
            },
{
}

/// The data of a search page comes first: where it holds a list of scores that
/// can be read, those are the scores, whatever the page links to. The links
/// count only where the data gives none, and a page with neither has none.
pub proof fn data_comes_before_links(
    data: crate::json::JsonView,
    links: Option<Seq<html::LinkView>>,
)
    ensures
        forall|s: Seq<score::ScoreView>|
            score::data_scores(data) == Some(s) ==> page_scores(Some(data), links) == s,
        forall|l: Seq<html::LinkView>|
            score::data_scores(data) is None ==> page_scores(Some(data), Some(l))
                == #[trigger] score::linked_scores(l, Seq::empty()),
        forall|l: Seq<html::LinkView>|
            page_scores(None, Some(l)) == #[trigger] score::linked_scores(l, Seq::empty()),
        score::data_scores(data) is None ==> page_scores(Some(data), None).len() == 0,
        page_scores(None, None).len() == 0,
{
    assert forall|l: Seq<html::LinkView>|
        score::data_scores(data) is None implies page_scores(Some(data), Some(l))
            == #[trigger] score::linked_scores(l, Seq::empty()) by {
        assert(page_scores(Some(data), Some(l)) =~= score::linked_scores(l, Seq::empty()));
    }
    assert forall|l: Seq<html::LinkView>|
        page_scores(None, Some(l)) == #[trigger] score::linked_scores(l, Seq::empty()) by {
        assert(page_scores(None, Some(l)) =~= score::linked_scores(l, Seq::empty()));
    }
}

/// The scores in the data of a page are those of its first list of scores,
/// read whole or not at all.
pub proof fn data_scores_are_the_first_list(data: crate::json::JsonView)
    ensures
        match score::scores_in(data) {
            Some(items) => score::data_scores(data) == score::scores_of(items),
            None => score::data_scores(data) is None,
        },
{
}

/// The address of a search starts with the query, and names an instrument
/// exactly where one is asked for.
pub proof fn searches_name_the_instrument(query: Seq<char>, filters: SearchFilters)
    ensures
        ({
            let plain = SearchFilters { instrument: None, ..filters };
            let base = "https://musescore.com/sheetmusic?text="@ + codec::percent_encoded(
                utf8::encode_utf8(query),
            );
            &&& search_address(query, plain) == base
            &&& filters.instrument matches Some(i) ==> search_address(query, filters) == base
                + "&instrument="@ + i.slug_of()
        }),
{
}

/// How long ago something was is the difference of the two times, as far as
/// that can be written; the cookie is kept warm for half an hour, and looked
/// after four times an hour.
pub proof fn times_are_told_apart(a: i64, b: i64)
    ensures
        i64::MIN <= a - b <= i64::MAX ==> saturating_difference(a, b) == a - b,
        a - b > i64::MAX ==> saturating_difference(a, b) == i64::MAX,
        a - b < i64::MIN ==> saturating_difference(a, b) == i64::MIN,
        KEEP_WARM_ACTIVE_SECS == 30 * 60,
        KEEP_WARM_INTERVAL_SECS * 4 == 60 * 60,
{
}

/// A score is viewed at its own address.
pub proof fn scores_are_viewed_at_their_address(m: Musescore, id: Seq<char>)
    ensures
        m.is_external_url(id, "https://musescore.com/score/"@ + id),
        forall|url: Seq<char>| #[trigger]
            m.is_external_url(id, url) ==> text::search::without_prefix(
                url,
                "https://musescore.com/score/"@,
            ) == Some(id),
        m.source_id() == "musescore"@,
{
    text::search::affixes_come_off("https://musescore.com/score/"@, id);
}

} // verus!
