//! IMSLP: the Petrucci Music Library.
//!
//! Searching goes through the wiki's OpenSearch interface, which answers with
//! one JSON list: the query, the titles, the descriptions, the page URLs. It
//! cannot be asked for an instrument, so its answers are looked through for
//! one. The PDF of a work is a link on its wiki page.

use crate::codec;
use crate::html;
use crate::json;
use crate::json::Json;
use crate::sources;
use crate::sources::{
    ClientSettings,
    Instrument,
    SearchFilters,
    SearchResult,
    Source,
    TIMEOUT_SECS,
    USER_AGENT,
};
use crate::text;
use vstd::prelude::*;

verus! {

/// Where the wiki is.
pub const HOME: &'static str = "https://imslp.org";

/// The catalog.
#[derive(Debug, Clone)]
pub struct Imslp {
    pub http: ClientSettings,
}

/// The cookies that stand for an accepted disclaimer, under the names that
/// they have had. With them the wiki serves a file without asking first.
pub open spec fn disclaimer_cookies() -> Seq<Seq<char>> {
    seq![
        "imslpdisclaim=true; Domain=.imslp.org; Path=/"@,
        "imslpdisclaimer=true; Domain=.imslp.org; Path=/"@,
        "imslpfileaccess=true; Domain=.imslp.org; Path=/"@,
        "imslp_disclaimer_accepted=1; Domain=.imslp.org; Path=/"@,
    ]
}

/// What a page URL says behind its first `/wiki/`.
pub open spec fn page_id(url: Seq<char>) -> Option<Seq<char>> {
    match text::search::first_at(url, "/wiki/"@, 0) {
        Some(i) => Some(url.skip(i + "/wiki/"@.len())),
        None => None,
    }
}

/// The address of a link on a wiki page.
pub open spec fn absolute(href: Seq<char>) -> Seq<char> {
    if "http://"@.is_prefix_of(href) || "https://"@.is_prefix_of(href) {
        href
    } else {
        match text::search::without_prefix(href, "//"@) {
            Some(rest) => "https://"@ + rest,
            None => "https://imslp.org"@ + href,
        }
    }
}

/// Item `i` of a list of texts; empty where there is none.
pub open spec fn text_at(list: Seq<json::JsonView>, i: int) -> Seq<char> {
    if 0 <= i < list.len() {
        match list[i].text() {
            Some(s) => s,
            None => Seq::empty(),
        }
    } else {
        Seq::empty()
    }
}

/// Item `i` of a list of lists; empty where there is none.
pub open spec fn list_at(list: Seq<json::JsonView>, i: int) -> Seq<json::JsonView> {
    if 0 <= i < list.len() {
        match list[i].list() {
            Some(l) => l,
            None => Seq::empty(),
        }
    } else {
        Seq::empty()
    }
}

/// The name of a work's page; where its URL is outside the wiki, the title.
pub open spec fn page_name(title: Seq<char>, url: Seq<char>) -> Seq<char> {
    match page_id(url) {
        Some(id) => id,
        None => title,
    }
}

/// What stands before the id of a page whose name cannot be its id.
pub const MARK: char = '~';

/// A name that can be an id as it is: it goes through a segment of a path, and
/// does not look like the id of another one.
pub open spec fn is_plain(name: Seq<char>) -> bool {
    name.len() > 0 && name[0] != MARK && codec::path_safe(name)
}

/// The id of a page: its name where that is plain, and else a path-safe form
/// of it behind a mark.
pub open spec fn id_of(name: Seq<char>) -> Seq<char> {
    if is_plain(name) {
        name
    } else {
        seq![MARK] + codec::url_id(name)
    }
}

/// The work with this title, description and page; an empty description is
/// none. Its id is that of its page.
pub open spec fn work(title: Seq<char>, description: Seq<char>, url: Seq<char>) -> sources::ResultView {
    sources::ResultView {
        source: "imslp"@,
        id: id_of(page_name(title, url)),
        title,
        description: if description.len() > 0 {
            Some(description)
        } else {
            None
        },
        external_url: url,
        thumbnail_url: None,
        metadata: Seq::empty(),
        complexity: None,
        is_public_domain: Some(true),
        is_official: None,
    }
}

/// What a text names an instrument by, in lower case: its slug, and for a
/// choir that word too.
pub open spec fn keywords_of(i: Instrument) -> Seq<Seq<char>> {
    match i {
        Instrument::Choral => seq!["choral"@, "choir"@],
        _ => seq![i.slug_of()],
    }
}

/// `s` names the instrument, in any case.
pub open spec fn mentions(s: Seq<char>, i: Instrument) -> bool {
    exists|k: int|
        0 <= k < keywords_of(i).len() && text::search::contains(
            text::lowercase(s),
            #[trigger] keywords_of(i)[k],
        )
}

/// A work is for the instrument that was asked for, where one was: its title
/// or its description names it.
pub open spec fn passes(r: sources::ResultView, instrument: Option<Instrument>) -> bool {
    match instrument {
        Some(i) => mentions(r.title, i) || (r.description matches Some(d) && mentions(d, i)),
        None => true,
    }
}

/// The works for the first `n` titles that are for the instrument; an empty
/// title is none.
pub open spec fn works(
    titles: Seq<json::JsonView>,
    descriptions: Seq<json::JsonView>,
    urls: Seq<json::JsonView>,
    instrument: Option<Instrument>,
    n: nat,
) -> Seq<sources::ResultView>
    decreases n,
{
    if n == 0 {
        Seq::empty()
    } else {
        let i = n - 1;
        let before = works(titles, descriptions, urls, instrument, i as nat);
        let w = work(text_at(titles, i), text_at(descriptions, i), text_at(urls, i));
        if w.title.len() == 0 || !passes(w, instrument) {
            before
        } else {
            before.push(w)
        }
    }
}

/// The results in an OpenSearch answer; `None` where it is no list.
pub open spec fn found(reply: json::JsonView, instrument: Option<Instrument>) -> Option<
    Seq<sources::ResultView>,
> {
    match reply.list() {
        Some(parts) => Some(
            works(
                list_at(parts, 1),
                list_at(parts, 2),
                list_at(parts, 3),
                instrument,
                list_at(parts, 1).len(),
            ),
        ),
        None => None,
    }
}

/// How a link may lead to the PDF of a work.
#[derive(Debug, Clone, Copy, PartialEq, Eq, Structural)]
pub enum LinkKind {
    /// Straight to the file, past the disclaimer.
    Direct,
    /// Through the disclaimer.
    Gated,
    /// Any other PDF.
    Pdf,
}

/// `href` is a link of this kind.
pub open spec fn is_kind(href: Seq<char>, kind: LinkKind) -> bool {
    let lower = text::lowercase(href);
    match kind {
        LinkKind::Direct => text::search::contains(lower, "/imglnks/"@) && text::search::contains(
            lower,
            ".pdf"@,
        ),
        LinkKind::Gated => text::search::contains(href, "Special:ImagefromIndex"@),
        LinkKind::Pdf => ".pdf"@.is_suffix_of(lower),
    }
}

/// The first link of a kind.
pub open spec fn first_of_kind(links: Seq<Option<Seq<char>>>, kind: LinkKind) -> Option<Seq<char>>
    decreases links.len(),
{
    if links.len() == 0 {
        None
    } else {
        match links[0] {
            Some(href) => if is_kind(href, kind) {
                Some(href)
            } else {
                first_of_kind(links.drop_first(), kind)
            },
            None => first_of_kind(links.drop_first(), kind),
        }
    }
}

/// The PDF among the links of a wiki page: the first direct one, or else the
/// first gated one, or else the first PDF.
pub open spec fn pdf_among(links: Seq<Option<Seq<char>>>) -> Option<Seq<char>> {
    match first_of_kind(links, LinkKind::Direct) {
        Some(href) => Some(absolute(href)),
        None => match first_of_kind(links, LinkKind::Gated) {
            Some(href) => Some(absolute(href)),
            None => match first_of_kind(links, LinkKind::Pdf) {
                Some(href) => Some(absolute(href)),
                None => None,
            },
        },
    }
}

/// The wiki page of a work.
pub open spec fn wiki_page(id: Seq<char>) -> Seq<char> {
    "https://imslp.org/wiki/"@ + id
}

/// The fields of a search, in order.
pub open spec fn search_fields(query: Seq<char>, limit: usize) -> Seq<(Seq<char>, Seq<char>)> {
    seq![
        ("action"@, "opensearch"@),
        ("search"@, query),
        ("format"@, "json"@),
        ("limit"@, text::number::decimal(limit as nat)),
        ("namespace"@, "0"@),
    ]
}

/// What a page URL says behind its first `/wiki/`.
pub fn page_id_from_url(url: &str) -> (r: Option<String>)
    ensures
        text::view_opt(r) == page_id(url@),
{
    let chars = text::chars_of(url);
    let needle = text::chars_of("/wiki/");
    match text::search::find(&chars, &needle, 0) {
        Some(i) => {
            let id = text::slice_of(&chars, i + needle.len(), chars.len());
            assert(id@ =~= url@.skip(i + "/wiki/"@.len()));
            Some(id)
        },
        None => None,
    }
}

fn plain(name: &str) -> (b: bool)
    ensures
        b == is_plain(name@),
{
    let chars = text::chars_of(name);
    chars.len() > 0 && chars[0] != MARK && codec::is_path_safe(name)
}

/// The id of a page, which may stand in one segment of a path.
pub fn encode_name(name: &str) -> (id: String)
    ensures
        id@ == id_of(name@),
        codec::path_safe(id@),
        id@.len() > 0,
{
    if plain(name) {
        return text::owned(name);
    }
    let mut id = String::new();
    id.push(MARK);
    let form = codec::encode_url_id(name);
    id.append(form.as_str());
    proof {
        reveal_strlit(".");
        reveal_strlit("..");
        assert(id@ =~= id_of(name@));
        assert(id@[0] == MARK);
        assert forall|i: int| 0 <= i < id@.len() implies codec::is_segment_char(
            #[trigger] id@[i],
        ) by {
            if i > 0 {
                assert(id@[i] == form@[i - 1]);
                assert(codec::is_base64url_char(form@[i - 1]));
            }
        }
    }
    id
}

/// The name of the page that has this id; the id itself where none has.
pub fn decode_name(id: &str) -> (name: String)
    ensures
        forall|n: Seq<char>| #[trigger] id_of(n) == id@ ==> n == name@,
        (forall|n: Seq<char>| #[trigger] id_of(n) != id@) ==> name@ == id@,
{
    proof {
        reveal_strlit("~");
        assert("~"@ =~= seq![MARK]);
    }
    let rest = match text::search::strip_prefix(id, "~") {
        Some(rest) => rest,
        None => {
            assert forall|n: Seq<char>| #[trigger] id_of(n) == id@ implies n == id@ by {
                if !is_plain(n) {
                    assert("~"@.is_prefix_of(id@));
                }
            }
            return text::owned(id);
        },
    };
    assert(id@ =~= seq![MARK] + rest@);
    assert forall|n: Seq<char>| #[trigger] id_of(n) == id@ implies !is_plain(n)
        && codec::url_id(n) == rest@ by {
        assert(id@[0] == MARK);
        assert((seq![MARK] + codec::url_id(n)).skip(1) =~= codec::url_id(n));
        assert((seq![MARK] + rest@).skip(1) =~= rest@);
    }
    match codec::decode_url_id(rest.as_str()) {
        Some(name) => if plain(name.as_str()) {
            text::owned(id)
        } else {
            assert(id_of(name@) == id@);
            name
        },
        None => text::owned(id),
    }
}

/// The address of a link on a wiki page.
pub fn absolutize(href: &str) -> (url: String)
    ensures
        url@ == absolute(href@),
{
    if text::search::starts_with(href, "http://") || text::search::starts_with(href, "https://") {
        return text::owned(href);
    }
    match text::search::strip_prefix(href, "//") {
        Some(rest) => text::concat("https://", rest.as_str()),
        None => text::concat("https://imslp.org", href),
    }
}

fn text_item(list: &Vec<Json>, i: usize) -> (out: String)
    ensures
        out@ == text_at(json::views(list@), i as int),
{
    if i < list.len() {
        if let Some(s) = list[i].text() {
            return text::owned(s);
        }
    }
    String::new()
}

fn list_item(list: &Vec<Json>, i: usize) -> (r: Option<&Vec<Json>>)
    ensures
        list_at(json::views(list@), i as int) == (match r {
            Some(l) => json::views(l@),
            None => Seq::empty(),
        }),
{
    if i < list.len() {
        list[i].list()
    } else {
        None
    }
}

/// Whether a text names an instrument.
fn names_instrument(s: &str, i: Instrument) -> (b: bool)
    ensures
        b == mentions(s@, i),
{
    let lower = s.to_lowercase();
    let ghost words = keywords_of(i);
    if text::search::has(lower.as_str(), i.slug()) {
        assert(text::search::contains(text::lowercase(s@), words[0]));
        return true;
    }
    match i {
        Instrument::Choral => {
            let b = text::search::has(lower.as_str(), "choir");
            assert(b ==> text::search::contains(text::lowercase(s@), words[1]));
            b
        },
        _ => false,
    }
}

/// Whether a work is for the instrument that was asked for, where one was.
pub fn passes_instrument(result: &SearchResult, instrument: Option<Instrument>) -> (b: bool)
    ensures
        b == passes(result@, instrument),
{
    match instrument {
        Some(i) => names_instrument(result.title.as_str(), i) || match &result.description {
            Some(d) => names_instrument(d.as_str(), i),
            None => false,
        },
        None => true,
    }
}

/// The results in an OpenSearch answer. Each has an id that may stand in one
/// segment of a path.
pub fn results_of(reply: &Json, instrument: Option<Instrument>) -> (r: Option<Vec<SearchResult>>)
    ensures
        found(reply@, instrument) == (match r {
            Some(results) => Some(sources::result_views(results@)),
            None => None,
        }),
        r matches Some(results) ==> sources::ids_are_path_safe(results@),
{
    let parts = match reply.list() {
        Some(parts) => parts,
        None => {
            return None;
        },
    };
    let empty: Vec<Json> = Vec::new();
    assert(json::views(empty@) =~= Seq::<json::JsonView>::empty());
    let titles = match list_item(parts, 1) {
        Some(l) => l,
        None => &empty,
    };
    let descriptions = match list_item(parts, 2) {
        Some(l) => l,
        None => &empty,
    };
    let urls = match list_item(parts, 3) {
        Some(l) => l,
        None => &empty,
    };
    let mut out: Vec<SearchResult> = Vec::new();
    let ghost ts = json::views(titles@);
    let ghost ds = json::views(descriptions@);
    let ghost us = json::views(urls@);
    assert(sources::result_views(out@) =~= works(ts, ds, us, instrument, 0));
    for i in 0..titles.len()
        invariant
            ts == json::views(titles@),
            ds == json::views(descriptions@),
            us == json::views(urls@),
            sources::result_views(out@) == works(ts, ds, us, instrument, i as nat),
            sources::ids_are_path_safe(out@),
    {
        let ghost before = sources::result_views(out@);
        let title = text_item(titles, i);
        if !text::is_empty(title.as_str()) {
            let url = text_item(urls, i);
            let description = text_item(descriptions, i);
            let name = match page_id_from_url(url.as_str()) {
                Some(name) => name,
                None => text::owned(title.as_str()),
            };
            let ghost w = work(title@, description@, url@);
            let metadata: Vec<sources::MetadataBadge> = Vec::new();
            assert(sources::badge_views(metadata@) =~= Seq::<sources::BadgeView>::empty());
            let result = SearchResult {
                source: text::owned("imslp"),
                id: encode_name(name.as_str()),
                title,
                description: if text::is_empty(description.as_str()) {
                    None
                } else {
                    Some(description)
                },
                external_url: url,
                thumbnail_url: None,
                metadata,
                complexity: None,
                is_public_domain: Some(true),
                is_official: None,
            };
            assert(result@ == w);
            if passes_instrument(&result, instrument) {
                out.push(result);
                assert(sources::result_views(out@) =~= before.push(w));
            }
        }
    }
    Some(out)
}

fn has_kind(href: &str, kind: LinkKind) -> (b: bool)
    ensures
        b == is_kind(href@, kind),
{
    let lower = href.to_lowercase();
    match kind {
        LinkKind::Direct => text::search::has(lower.as_str(), "/imglnks/") && text::search::has(
            lower.as_str(),
            ".pdf",
        ),
        LinkKind::Gated => text::search::has(href, "Special:ImagefromIndex"),
        LinkKind::Pdf => text::search::ends_with(lower.as_str(), ".pdf"),
    }
}

fn first_link(links: &Vec<Option<String>>, kind: LinkKind) -> (r: Option<String>)
    ensures
        text::view_opt(r) == first_of_kind(html::attr_views(links@), kind),
{
    let ghost all = html::attr_views(links@);
    assert(all.skip(0) =~= all);
    for i in 0..links.len()
        invariant
            all == html::attr_views(links@),
            first_of_kind(all, kind) == first_of_kind(all.skip(i as int), kind),
    {
        assert(all.skip(i as int)[0] == text::view_opt(links@[i as int]));
        assert(all.skip(i as int).drop_first() =~= all.skip(i + 1));
        if let Some(href) = &links[i] {
            if has_kind(href.as_str(), kind) {
                return Some(text::owned(href.as_str()));
            }
        }
    }
    None
}

/// The PDF among the links of a wiki page.
pub fn pdf_link(links: &Vec<Option<String>>) -> (r: Option<String>)
    ensures
        text::view_opt(r) == pdf_among(html::attr_views(links@)),
{
    match first_link(links, LinkKind::Direct) {
        Some(href) => Some(absolutize(href.as_str())),
        None => match first_link(links, LinkKind::Gated) {
            Some(href) => Some(absolutize(href.as_str())),
            None => match first_link(links, LinkKind::Pdf) {
                Some(href) => Some(absolutize(href.as_str())),
                None => None,
            },
        },
    }
}

impl Imslp {
    /// The catalog, its disclaimer accepted.
    pub fn new() -> (imslp: Self)
        ensures
            imslp.http.has_cookies(disclaimer_cookies()),
    {
        let cookies = vec![
            "imslpdisclaim=true; Domain=.imslp.org; Path=/",
            "imslpdisclaimer=true; Domain=.imslp.org; Path=/",
            "imslpfileaccess=true; Domain=.imslp.org; Path=/",
            "imslp_disclaimer_accepted=1; Domain=.imslp.org; Path=/",
        ];
        assert(cookies@.map_values(|c: &'static str| c@) =~= disclaimer_cookies());
        Imslp {
            http: ClientSettings {
                user_agent: USER_AGENT,
                timeout_secs: TIMEOUT_SECS,
                gzip: true,
                cookies,
            },
        }
    }

    /// The fields of a search request.
    pub fn search_query(&self, query: &str, limit: usize) -> (out: Vec<(String, String)>)
        ensures
            out@.map_values(|f: (String, String)| (f.0@, f.1@)) == search_fields(query@, limit),
    {
        let out = vec![
            (text::owned("action"), text::owned("opensearch")),
            (text::owned("search"), text::owned(query)),
            (text::owned("format"), text::owned("json")),
            (text::owned("limit"), text::number::to_decimal(limit as u64)),
            (text::owned("namespace"), text::owned("0")),
        ];
        assert(out@.map_values(|f: (String, String)| (f.0@, f.1@)) =~= search_fields(query@, limit));
        out
    }

    /// The results in the body that answers a search; `None` where the body
    /// is not one JSON list.
    pub fn search(&self, body: &str, filters: &SearchFilters) -> (r: Option<Vec<SearchResult>>)
        ensures
            (match r {
                Some(results) => Some(sources::result_views(results@)),
                None => None,
            }) == (match json::parsed(body@) {
                Some(reply) => found(reply, filters.instrument),
                None => None,
            }),
            r matches Some(results) ==> sources::ids_are_path_safe(results@),
    {
        match json::parse(body) {
            Some(reply) => results_of(&reply, filters.instrument),
            None => None,
        }
    }

    /// The direct URL of a work's PDF, from the wiki page of the work; `None`
    /// where the page has no link to one.
    pub fn fetch_pdf_url(&self, page: &str) -> (r: Option<String>)
        ensures
            text::view_opt(r) == (match html::attrs_of(page@, "a"@, "href"@) {
                Some(links) => pdf_among(links),
                None => None,
            }),
    {
        match html::select_attrs(page, "a", "href") {
            Some(links) => pdf_link(&links),
            None => None,
        }
    }
}

impl Source for Imslp {
    open spec fn source_id(&self) -> Seq<char> {
        "imslp"@
    }

    open spec fn name(&self) -> Seq<char> {
        "IMSLP"@
    }

    open spec fn is_external_url(&self, id: Seq<char>, url: Seq<char>) -> bool {
        &&& forall|name: Seq<char>| #[trigger] id_of(name) == id ==> url == wiki_page(name)
        &&& (forall|name: Seq<char>| #[trigger] id_of(name) != id) ==> url == wiki_page(id)
    }

    fn id(&self) -> (s: &'static str) {
        "imslp"
    }

    fn display_name(&self) -> (s: &'static str) {
        "IMSLP"
    }

    fn external_url(&self, id: &str) -> (url: String) {
        text::concat("https://imslp.org/wiki/", decode_name(id).as_str())
    }
}

/// Every result has a title, is in the public domain and is for the instrument
/// that was asked for, and there are at most as many as titles.
pub proof fn works_have_titles(
    titles: Seq<json::JsonView>,
    descriptions: Seq<json::JsonView>,
    urls: Seq<json::JsonView>,
    instrument: Option<Instrument>,
    n: nat,
)
    ensures
        works(titles, descriptions, urls, instrument, n).len() <= n,
        forall|i: int|
            0 <= i < works(titles, descriptions, urls, instrument, n).len() ==> {
                let r = #[trigger] works(titles, descriptions, urls, instrument, n)[i];
                &&& r.source == "imslp"@
                &&& r.title.len() > 0
                &&& r.is_public_domain == Some(true)
                &&& passes(r, instrument)
            },
    decreases n,
{
    if n > 0 {
        works_have_titles(titles, descriptions, urls, instrument, (n - 1) as nat);
    }
}

/// The id of a work leads to its page: to the wiki page of its name, which is
/// the page that the work was found on where that is one of the wiki. A name
/// that is plain is the id.
pub proof fn ids_lead_to_pages(
    imslp: Imslp,
    title: Seq<char>,
    description: Seq<char>,
    url: Seq<char>,
    found: Seq<char>,
)
    requires
        imslp.is_external_url(work(title, description, url).id, found),
    ensures
        found == wiki_page(page_name(title, url)),
        is_plain(page_name(title, url)) ==> work(title, description, url).id == page_name(
            title,
            url,
        ),
        forall|name: Seq<char>| url == #[trigger] wiki_page(name) ==> found == url,
{
    assert forall|name: Seq<char>| url == #[trigger] wiki_page(name) implies found == url by {
        wiki_page_id(name);
    }
}

/// The name of a wiki page stands behind `/wiki/` in its URL.
pub proof fn wiki_page_id(id: Seq<char>)
    ensures
        page_id(wiki_page(id)) == Some(id),
{
    reveal_strlit("https://imslp.org/wiki/");
    reveal_strlit("/wiki/");
    let url = wiki_page(id);
    let p = "/wiki/"@;
    assert(url.subrange(17, 23) =~= p);
    text::search::first_at_is_first(url, p, 0);
    let i = text::search::first_at(url, p, 0)->0;
    assert(text::search::occurs_at(url, p, 17));
    assert(i <= 17);
    assert(url.subrange(i, i + 6) == p);
    assert(url.subrange(i, i + 6)[0] == url[i] && url.subrange(i, i + 6)[1] == url[i + 1]);
    assert(i == 17);
    assert(url.skip(23) =~= id);
}

/// The link of a kind that is given is the first of that kind: a link of the
/// page, with none of the kind before it. Where none is given, no link is of
/// the kind.
pub proof fn first_link_of_a_kind(links: Seq<Option<Seq<char>>>, kind: LinkKind)
    ensures
        match first_of_kind(links, kind) {
            Some(href) => exists|i: int|
                {
                    &&& 0 <= i < links.len()
                    &&& #[trigger] links[i] == Some(href)
                    &&& is_kind(href, kind)
                    &&& forall|j: int|
                        0 <= j < i ==> !((#[trigger] links[j]) is Some && is_kind(links[j]->0, kind))
                },
            None => forall|j: int|
                0 <= j < links.len() ==> !((#[trigger] links[j]) is Some && is_kind(
                    links[j]->0,
                    kind,
                )),
        },
    decreases links.len(),
{
    if links.len() > 0 {
        if links[0] is Some && is_kind(links[0]->0, kind) {
            assert(links[0] == Some(links[0]->0));
        } else {
            let rest = links.drop_first();
            first_link_of_a_kind(rest, kind);
            match first_of_kind(rest, kind) {
                Some(href) => {
                    let i = choose|i: int|
                        {
                            &&& 0 <= i < rest.len()
                            &&& #[trigger] rest[i] == Some(href)
                            &&& is_kind(href, kind)
                            &&& forall|j: int|
                                0 <= j < i ==> !((#[trigger] rest[j]) is Some && is_kind(
                                    rest[j]->0,
                                    kind,
                                ))
                        };
                    assert(links[i + 1] == Some(href));
                    assert forall|j: int| 0 <= j < i + 1 implies !((#[trigger] links[j]) is Some
                        && is_kind(links[j]->0, kind)) by {
                        if j > 0 {
                            assert(rest[j - 1] == links[j]);
                        }
                    }
                },
                None => {
                    assert forall|j: int| 0 <= j < links.len() implies !((#[trigger] links[j])
                        is Some && is_kind(links[j]->0, kind)) by {
                        if j > 0 {
                            assert(rest[j - 1] == links[j]);
                        }
                    }
                },
            }
        }
    }
}

/// `links[i]` is a link of the kind, and none before it is.
pub open spec fn is_first_of_kind(
    links: Seq<Option<Seq<char>>>,
    i: int,
    kind: LinkKind,
) -> bool {
    &&& 0 <= i < links.len()
    &&& links[i] is Some
    &&& is_kind(links[i]->0, kind)
    &&& forall|j: int|
        0 <= j < i ==> !((#[trigger] links[j]) is Some && is_kind(links[j]->0, kind))
}

/// No link is of the kind.
pub open spec fn has_none_of_kind(links: Seq<Option<Seq<char>>>, kind: LinkKind) -> bool {
    forall|j: int|
        0 <= j < links.len() ==> !((#[trigger] links[j]) is Some && is_kind(links[j]->0, kind))
}

proof fn kind_is_found(links: Seq<Option<Seq<char>>>, i: int, kind: LinkKind)
    ensures
        is_first_of_kind(links, i, kind) ==> first_of_kind(links, kind) == links[i],
        has_none_of_kind(links, kind) ==> first_of_kind(links, kind) is None,
{
    first_link_of_a_kind(links, kind);
    if is_first_of_kind(links, i, kind) {
        assert(links[i] is Some && is_kind(links[i]->0, kind));
        let href = first_of_kind(links, kind)->0;
        let k = choose|k: int|
            {
                &&& 0 <= k < links.len()
                &&& #[trigger] links[k] == Some(href)
                &&& is_kind(href, kind)
                &&& forall|j: int|
                    0 <= j < k ==> !((#[trigger] links[j]) is Some && is_kind(links[j]->0, kind))
            };
        assert(links[k] is Some && is_kind(links[k]->0, kind));
        assert(k == i);
    }
    if has_none_of_kind(links, kind) {
        if let Some(href) = first_of_kind(links, kind) {
            let k = choose|k: int|
                {
                    &&& 0 <= k < links.len()
                    &&& #[trigger] links[k] == Some(href)
                    &&& is_kind(href, kind)
                    &&& forall|j: int|
                        0 <= j < k ==> !((#[trigger] links[j]) is Some && is_kind(
                            links[j]->0,
                            kind,
                        ))
                };
            assert(links[k] is Some && is_kind(links[k]->0, kind));
        }
    }
}

/// The PDF of a work is the first link straight to a file, wherever it stands
/// among the others; only a page without one gives its first link through the
/// disclaimer, and only a page without either its first other PDF. A page with
/// none of them gives nothing.
pub proof fn direct_links_come_first(links: Seq<Option<Seq<char>>>, i: int)
    ensures
        is_first_of_kind(links, i, LinkKind::Direct) ==> pdf_among(links) == Some(
            absolute(links[i]->0),
        ),
        has_none_of_kind(links, LinkKind::Direct) && is_first_of_kind(links, i, LinkKind::Gated)
            ==> pdf_among(links) == Some(absolute(links[i]->0)),
        has_none_of_kind(links, LinkKind::Direct) && has_none_of_kind(links, LinkKind::Gated)
            && is_first_of_kind(links, i, LinkKind::Pdf) ==> pdf_among(links) == Some(
            absolute(links[i]->0),
        ),
        has_none_of_kind(links, LinkKind::Direct) && has_none_of_kind(links, LinkKind::Gated)
            && has_none_of_kind(links, LinkKind::Pdf) ==> pdf_among(links) is None,
{
    kind_is_found(links, i, LinkKind::Direct);
    kind_is_found(links, i, LinkKind::Gated);
    kind_is_found(links, i, LinkKind::Pdf);
}

/// What makes a link one of a kind: a file of the image server with `.pdf` in
/// its address, in any case; the wiki's page for files; an address that ends
/// in `.pdf`, in any case.
pub proof fn kinds_are_told_by_the_address(href: Seq<char>)
    ensures
        is_kind(href, LinkKind::Direct) <==> (exists|i: int| #[trigger]
            text::search::occurs_at(text::lowercase(href), "/imglnks/"@, i)) && (exists|i: int| #[trigger]
            text::search::occurs_at(text::lowercase(href), ".pdf"@, i)),
        is_kind(href, LinkKind::Gated) <==> exists|i: int| #[trigger]
            text::search::occurs_at(href, "Special:ImagefromIndex"@, i),
        is_kind(href, LinkKind::Pdf) <==> exists|stem: Seq<char>|
            text::lowercase(href) == #[trigger] (stem + ".pdf"@),
{
    let lower = text::lowercase(href);
    if ".pdf"@.is_suffix_of(lower) {
        let stem = lower.take(lower.len() - ".pdf"@.len());
        assert(lower =~= stem + ".pdf"@);
    }
    assert forall|stem: Seq<char>| lower == #[trigger] (stem + ".pdf"@) implies ".pdf"@.is_suffix_of(
        lower,
    ) by {
        text::search::affixes_come_off(".pdf"@, stem);
    }
}

/// A full address stays as it is, one without a scheme gets `https:`, and a
/// path is one of the wiki's host.
pub proof fn addresses_are_completed(rest: Seq<char>)
    ensures
        absolute("http://"@ + rest) == "http://"@ + rest,
        absolute("https://"@ + rest) == "https://"@ + rest,
        absolute("//"@ + rest) == "https://"@ + rest,
        rest.len() > 0 && rest[0] != '/' ==> absolute("/"@ + rest) == "https://imslp.org/"@ + rest,
{
    reveal_strlit("http://");
    reveal_strlit("https://");
    reveal_strlit("//");
    reveal_strlit("/");
    reveal_strlit("https://imslp.org");
    reveal_strlit("https://imslp.org/");
    text::search::affixes_come_off("http://"@, rest);
    text::search::affixes_come_off("https://"@, rest);
    text::search::affixes_come_off("//"@, rest);
    let s = "//"@ + rest;
    assert(s[0] == '/');
    assert(!"http://"@.is_prefix_of(s) && !"https://"@.is_prefix_of(s)) by {
        if "http://"@.is_prefix_of(s) {
            assert("http://"@[0] == s[0]);
        }
        if "https://"@.is_prefix_of(s) {
            assert("https://"@[0] == s[0]);
        }
    }
    let t = "/"@ + rest;
    assert(t[0] == '/');
    if "http://"@.is_prefix_of(t) {
        assert("http://"@[0] == t[0]);
    }
    if "https://"@.is_prefix_of(t) {
        assert("https://"@[0] == t[0]);
    }
    if rest.len() > 0 && rest[0] != '/' {
        assert(t[1] == rest[0]);
        if "//"@.is_prefix_of(t) {
            assert("//"@[1] == t[1]);
        }
        assert("https://imslp.org"@ + t =~= "https://imslp.org/"@ + rest);
    }
}

/// Without an instrument every titled work of an answer is given, in order,
/// each with its own title, description and page.
pub proof fn works_come_in_order(
    titles: Seq<json::JsonView>,
    descriptions: Seq<json::JsonView>,
    urls: Seq<json::JsonView>,
    n: nat,
)
    requires
        n <= titles.len(),
        forall|i: int|
            0 <= i < n ==> (#[trigger] titles[i]) is Text && (titles[i]->Text_0).len() > 0,
    ensures
        works(titles, descriptions, urls, None, n).len() == n,
        forall|i: int|
            0 <= i < n ==> {
                let r = #[trigger] works(titles, descriptions, urls, None, n)[i];
                &&& r.source == "imslp"@
                &&& titles[i] == json::JsonView::Text(r.title)
                &&& match text_at(urls, i) {
                    url => r.external_url == url && r.id == id_of(page_name(r.title, url)),
                }
                &&& match text_at(descriptions, i) {
                    d => if d.len() > 0 {
                        r.description == Some(d)
                    } else {
                        r.description is None
                    },
                }
                &&& r.is_public_domain == Some(true)
                &&& r.thumbnail_url is None
                &&& r.metadata.len() == 0
                &&& r.complexity is None
                &&& r.is_official is None
            },
        forall|i: int|
            0 <= i < urls.len() && (#[trigger] urls[i]) is Text ==> text_at(urls, i)
                == urls[i]->Text_0,
        forall|i: int|
            0 <= i < descriptions.len() && (#[trigger] descriptions[i]) is Text ==> text_at(
                descriptions,
                i,
            ) == descriptions[i]->Text_0,
    decreases n,
{
    if n > 0 {
        works_come_in_order(titles, descriptions, urls, (n - 1) as nat);
        assert(titles[n - 1] is Text);
    }
}

/// Asking for an instrument leaves the works that pass, in their order, and
/// none else.
pub proof fn filtering_only_leaves_out(
    titles: Seq<json::JsonView>,
    descriptions: Seq<json::JsonView>,
    urls: Seq<json::JsonView>,
    instrument: Option<Instrument>,
    n: nat,
)
    ensures
        works(titles, descriptions, urls, instrument, n) == works(
            titles,
            descriptions,
            urls,
            None,
            n,
        ).filter(|r: sources::ResultView| passes(r, instrument)),
    decreases n,
{
    reveal(Seq::filter);
    if n > 0 {
        filtering_only_leaves_out(titles, descriptions, urls, instrument, (n - 1) as nat);
        let before = works(titles, descriptions, urls, None, (n - 1) as nat);
        let i = n - 1;
        let w = work(text_at(titles, i), text_at(descriptions, i), text_at(urls, i));
        if w.title.len() > 0 {
            assert(before.push(w).drop_last() =~= before);
            assert(before.push(w).last() == w);
        }
    }
}

/// An answer is its second, third and fourth list: titles, descriptions and
/// pages. What is no list gives nothing.
pub proof fn answers_hold_three_lists(
    head: json::JsonView,
    titles: Seq<json::JsonView>,
    descriptions: Seq<json::JsonView>,
    urls: Seq<json::JsonView>,
    more: Seq<json::JsonView>,
    instrument: Option<Instrument>,
)
    ensures
        found(
            json::JsonView::List(
                seq![
                    head,
                    json::JsonView::List(titles),
                    json::JsonView::List(descriptions),
                    json::JsonView::List(urls),
                ] + more,
            ),
            instrument,
        ) == Some(works(titles, descriptions, urls, instrument, titles.len())),
        head !is List ==> found(head, instrument) is None,
{
    let parts = seq![
        head,
        json::JsonView::List(titles),
        json::JsonView::List(descriptions),
        json::JsonView::List(urls),
    ] + more;
    assert(parts[1] == json::JsonView::List(titles));
    assert(parts[2] == json::JsonView::List(descriptions));
    assert(parts[3] == json::JsonView::List(urls));
}

/// A work passes for an instrument exactly where its title or its description
/// holds one of the instrument's names, in any case: its slug, or for a choir
/// also that word. Without an instrument every work passes.
pub proof fn works_pass_where_they_name_it(r: sources::ResultView, i: Instrument)
    ensures
        passes(r, None),
        text::search::contains(text::lowercase(r.title), i.slug_of()) ==> passes(r, Some(i)),
        r.description matches Some(d) ==> (text::search::contains(text::lowercase(d), i.slug_of())
            ==> passes(r, Some(i))),
        i == Instrument::Choral && text::search::contains(text::lowercase(r.title), "choir"@)
            ==> passes(r, Some(i)),
        passes(r, Some(i)) ==> {
            let t = text::lowercase(r.title);
            ||| text::search::contains(t, i.slug_of())
            ||| i == Instrument::Choral && text::search::contains(t, "choir"@)
            ||| r.description matches Some(d) && (text::search::contains(
                text::lowercase(d),
                i.slug_of(),
            ) || (i == Instrument::Choral && text::search::contains(text::lowercase(d), "choir"@)))
        },
{
    let words = keywords_of(i);
    assert(words[0] == i.slug_of());
    if i == Instrument::Choral {
        assert(words[1] == "choir"@);
    }
}

/// A page outside the wiki has no name of its own.
pub proof fn only_wiki_pages_have_names(url: Seq<char>, title: Seq<char>)
    ensures
        !text::search::contains(url, "/wiki/"@) ==> page_id(url) is None && page_name(title, url)
            == title,
        page_id(url) matches Some(name) ==> page_name(title, url) == name,
{
    text::search::first_at_is_first(url, "/wiki/"@, 0);
}

/// A search asks for the query as it was typed and for as many works as were
/// asked for, in an open search that answers in JSON.
pub proof fn searches_ask_for_the_query(query: Seq<char>, limit: usize)
    ensures
        search_fields(query, limit).contains(("search"@, query)),
        search_fields(query, limit).contains(("limit"@, text::number::decimal(limit as nat))),
        search_fields(query, limit).contains(("action"@, "opensearch"@)),
        search_fields(query, limit).contains(("format"@, "json"@)),
        search_fields(query, limit).contains(("namespace"@, "0"@)),
        search_fields(query, limit).len() == 5,
{
    let f = search_fields(query, limit);
    assert(f[0] == ("action"@, "opensearch"@));
    assert(f[1] == ("search"@, query));
    assert(f[2] == ("format"@, "json"@));
    assert(f[3] == ("limit"@, text::number::decimal(limit as nat)));
    assert(f[4] == ("namespace"@, "0"@));
}

/// A work is viewed at the wiki page of the name that its id stands for.
pub proof fn works_are_viewed_on_their_page(m: Imslp, name: Seq<char>, url: Seq<char>)
    ensures
        m.is_external_url(id_of(name), url) ==> url == "https://imslp.org/wiki/"@ + name,
        m.source_id() == "imslp"@,
{
}

/// Four cookies say that the disclaimer was accepted, each for the whole site.
pub proof fn disclaimers_are_accepted_for_the_site(i: int)
    requires
        0 <= i < disclaimer_cookies().len(),
    ensures
        disclaimer_cookies().len() == 4,
        "; Domain=.imslp.org; Path=/"@.is_suffix_of(disclaimer_cookies()[i]),
{
    let end = "; Domain=.imslp.org; Path=/"@;
    reveal_strlit("; Domain=.imslp.org; Path=/");
    reveal_strlit("imslpdisclaim=true; Domain=.imslp.org; Path=/");
    reveal_strlit("imslpdisclaimer=true; Domain=.imslp.org; Path=/");
    reveal_strlit("imslpfileaccess=true; Domain=.imslp.org; Path=/");
    reveal_strlit("imslp_disclaimer_accepted=1; Domain=.imslp.org; Path=/");
    let c = disclaimer_cookies()[i];
    assert(i == 0 || i == 1 || i == 2 || i == 3);
    assert(c.subrange(c.len() - end.len(), c.len() as int) =~= end);
}

/// Every title keeps the description and the page in its own place, also
/// behind a title that is empty and gives no work.
pub proof fn works_keep_their_place(
    titles: Seq<json::JsonView>,
    descriptions: Seq<json::JsonView>,
    urls: Seq<json::JsonView>,
    n: nat,
)
    ensures
        text_at(titles, n as int).len() == 0 ==> works(titles, descriptions, urls, None, n + 1)
            == works(titles, descriptions, urls, None, n),
        text_at(titles, n as int).len() > 0 ==> {
            let all = works(titles, descriptions, urls, None, n + 1);
            &&& all.drop_last() == works(titles, descriptions, urls, None, n)
            &&& all.len() == works(titles, descriptions, urls, None, n).len() + 1
            &&& all.last().title == text_at(titles, n as int)
            &&& all.last().external_url == text_at(urls, n as int)
            &&& text_at(descriptions, n as int).len() > 0 ==> all.last().description == Some(
                text_at(descriptions, n as int),
            )
            &&& text_at(descriptions, n as int).len() == 0 ==> all.last().description is None
        },
        forall|list: Seq<json::JsonView>, i: int|
            i < 0 || list.len() <= i || list[i] !is Text ==> (#[trigger] text_at(list, i)).len()
                == 0,
{
    let before = works(titles, descriptions, urls, None, n);
    let w = work(
        text_at(titles, n as int),
        text_at(descriptions, n as int),
        text_at(urls, n as int),
    );
    if w.title.len() > 0 {
        assert(before.push(w).drop_last() =~= before);
    }
}

} // verus!
