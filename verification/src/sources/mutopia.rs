//! Mutopia Project: engravings of works in the public domain.
//!
//! A search answers with an HTML page on which each piece is a table:
//!
//! - first row: title, composer, opus;
//! - second row: "for <instruments>", year, style;
//! - further rows: notes, license, links to the files.

use crate::codec;
use crate::html;
use crate::sources::download;
use crate::sources::{
    BadgeKind,
    ClientSettings,
    MetadataBadge,
    SearchFilters,
    SearchResult,
    Source,
    TIMEOUT_SECS,
    USER_AGENT,
};
use crate::text;
use crate::sources;
use vstd::prelude::*;

verus! {

pub const BASE: &'static str = "https://www.mutopiaproject.org";

/// The catalog.
#[derive(Debug, Clone)]
pub struct Mutopia {
    pub http: ClientSettings,
}

/// The page that searches.
pub open spec fn search_page() -> Seq<char> {
    BASE@ + "/cgibin/make-table.cgi"@
}

/// The address of a link on a Mutopia page.
pub open spec fn absolute(href: Seq<char>) -> Seq<char> {
    if "http://"@.is_prefix_of(href) || "https://"@.is_prefix_of(href) {
        href
    } else {
        match text::search::without_prefix(href, "//"@) {
            Some(rest) => "https://"@ + rest,
            None => if "/"@.is_prefix_of(href) {
                BASE@ + href
            } else {
                BASE@ + "/"@ + href
            },
        }
    }
}

/// The text of a cell with its words one space apart.
pub open spec fn clean_cell(s: Seq<char>) -> Seq<char> {
    text::joined(text::split::words(s), " "@)
}

/// The preview image next to a PDF: `<base>-pre.png` for
/// `<base>-a4.pdf`, `<base>-let.pdf` or `<base>.pdf`.
pub open spec fn thumbnail_of(pdf_url: Seq<char>) -> Option<Seq<char>> {
    let stem = match text::search::without_suffix(pdf_url, ".pdf"@) {
        Some(s) => Some(s),
        None => text::search::without_suffix(pdf_url, ".PDF"@),
    };
    match stem {
        None => None,
        Some(stem) => {
            let base = match text::search::without_suffix(stem, "-let"@) {
                Some(b) => b,
                None => match text::search::without_suffix(stem, "-a4"@) {
                    Some(b) => b,
                    None => stem,
                },
            };
            Some(base + "-pre.png"@)
        },
    }
}

/// The first address of `links` whose lower-case form ends in `suffix`. (The
/// address ends as the link does: only what stands before its first `/` is
/// added or replaced.)
pub open spec fn first_ending(links: Seq<Option<Seq<char>>>, suffix: Seq<char>) -> Option<Seq<char>>
    decreases links.len(),
{
    if links.len() == 0 {
        None
    } else {
        match links[0] {
            Some(href) => if suffix.is_suffix_of(text::lowercase(absolute(href))) {
                Some(absolute(href))
            } else {
                first_ending(links.drop_first(), suffix)
            },
            None => first_ending(links.drop_first(), suffix),
        }
    }
}

/// The PDF of a piece: the first A4 one, or else the first one.
pub open spec fn pdf_of(links: Seq<Option<Seq<char>>>) -> Option<Seq<char>> {
    match first_ending(links, "-a4.pdf"@) {
        Some(url) => Some(url),
        None => first_ending(links, ".pdf"@),
    }
}

/// The title that the file name of a PDF suggests.
pub open spec fn title_from_file(url: Seq<char>) -> Seq<char> {
    let file = text::split::after_last(url, |c: char| c == '/');
    let stem = text::trim::without_suffixes(
        text::trim::without_suffixes(text::trim::without_suffixes(file, ".pdf"@), "-a4"@),
        "-let"@,
    );
    text::search::replaced(text::search::replaced(stem, "-"@, " "@), "_"@, " "@)
}

/// Cell `i` of a row, cleaned.
pub open spec fn cell(row: Seq<Seq<char>>, i: int) -> Option<Seq<char>> {
    if 0 <= i < row.len() {
        Some(clean_cell(row[i]))
    } else {
        None
    }
}

/// The title of a piece: its first cell, or else what the file name suggests.
pub open spec fn title_of(row: Seq<Seq<char>>, url: Seq<char>) -> Seq<char> {
    match cell(row, 0) {
        Some(t) => if t.len() > 0 {
            t
        } else {
            title_from_file(url)
        },
        None => title_from_file(url),
    }
}

/// The composer of a piece, without the leading "by ".
pub open spec fn composer_of(row: Seq<Seq<char>>) -> Option<Seq<char>> {
    match cell(row, 1) {
        Some(c) => if c.len() > 0 && c != "Anonymous"@ {
            Some(text::trim::without_prefixes(c, "by "@))
        } else {
            None
        },
        None => None,
    }
}

/// The instruments that the second row names behind "for ".
pub open spec fn instrument_badges(row: Seq<Seq<char>>) -> Seq<sources::BadgeView> {
    match cell(row, 0) {
        Some(c) => match text::search::without_prefix(c, "for "@) {
            Some(inst) => if inst.len() > 0 {
                seq![sources::BadgeView { label: inst, kind: BadgeKind::Instrument }]
            } else {
                Seq::empty()
            },
            None => Seq::empty(),
        },
        None => Seq::empty(),
    }
}

/// Cell `i` of the second row as a badge, unless it is empty or "n/a".
pub open spec fn cell_badges(row: Seq<Seq<char>>, i: int, kind: BadgeKind) -> Seq<
    sources::BadgeView,
> {
    match cell(row, i) {
        Some(c) => if c.len() > 0 && c != "n/a"@ {
            seq![sources::BadgeView { label: c, kind }]
        } else {
            Seq::empty()
        },
        None => Seq::empty(),
    }
}

/// The badges of a piece: instruments, year, style.
pub open spec fn badges_of(rows: Seq<Seq<Seq<char>>>) -> Seq<sources::BadgeView> {
    if rows.len() > 1 {
        instrument_badges(rows[1]) + cell_badges(rows[1], 1, BadgeKind::Year) + cell_badges(
            rows[1],
            2,
            BadgeKind::Generic,
        )
    } else {
        Seq::empty()
    }
}

/// The result for a piece whose table has rows and whose PDF is at `url`;
/// `None` where no title can be found.
pub open spec fn piece(rows: Seq<Seq<Seq<char>>>, url: Seq<char>) -> Option<sources::ResultView> {
    let title = title_of(rows[0], url);
    if title.len() == 0 {
        None
    } else {
        Some(
            sources::ResultView {
                source: "mutopia"@,
                id: codec::url_id(url),
                title,
                description: composer_of(rows[0]),
                external_url: url,
                thumbnail_url: thumbnail_of(url),
                metadata: badges_of(rows),
                complexity: None,
                is_public_domain: Some(true),
                is_official: None,
            },
        )
    }
}

/// The PDF of a table, where the table has rows and one of its links is a
/// PDF.
pub open spec fn table_pdf(t: html::TableView) -> Option<Seq<char>> {
    if t.rows.len() == 0 {
        None
    } else {
        pdf_of(t.links)
    }
}

/// The results for `tables`, in order, at most `limit` of them. A table whose
/// PDF is in `seen`, or was that of an earlier table, gives none.
pub open spec fn found(
    tables: Seq<html::TableView>,
    seen: Seq<Seq<char>>,
    limit: nat,
) -> Seq<sources::ResultView>
    decreases tables.len(),
{
    if tables.len() == 0 || limit == 0 {
        Seq::empty()
    } else {
        let rest = tables.drop_first();
        match table_pdf(tables[0]) {
            None => found(rest, seen, limit),
            Some(url) => if seen.contains(url) {
                found(rest, seen, limit)
            } else {
                match piece(tables[0].rows, url) {
                    None => found(rest, seen.push(url), limit),
                    Some(r) => seq![r] + found(rest, seen.push(url), (limit - 1) as nat),
                }
            },
        }
    }
}

/// A status of success.
pub open spec fn succeeds(status: u16) -> bool {
    200 <= status < 300
}

/// What the answer to a search gives: the page where the status is one of
/// success, and else an error with the status, as it is `shown`, and the start
/// of the page.
pub open spec fn verdict(status: u16, shown: Seq<char>, body: Seq<char>) -> Result<
    Seq<char>,
    Seq<char>,
> {
    if succeeds(status) {
        Ok(body)
    } else {
        Err(download::status_text("mutopia"@, "search"@, shown, body))
    }
}

/// The results on a page; none where the selectors of its tables are not
/// understood.
pub open spec fn found_on(page: Seq<char>, limit: nat) -> Option<Seq<sources::ResultView>> {
    match html::tables_of(page, "table.result-table"@, "tr"@, "td"@, "a[href]"@, "href"@) {
        Some(tables) => Some(found(tables, Seq::empty(), limit)),
        None => None,
    }
}

/// What a search gives for an answer.
pub open spec fn answered(
    status: u16,
    shown: Seq<char>,
    body: Seq<char>,
    limit: nat,
) -> Result<Seq<sources::ResultView>, Seq<char>> {
    match verdict(status, shown, body) {
        Ok(page) => match found_on(page, limit) {
            Some(results) => Ok(results),
            None => Err("mutopia selectors"@),
        },
        Err(e) => Err(e),
    }
}

/// The fields of a search, in order.
pub open spec fn search_fields(query: Seq<char>, filters: SearchFilters) -> Seq<
    (Seq<char>, Seq<char>),
> {
    seq![
        ("searchingfor"@, query),
        ("Composer"@, ""@),
        ("Style"@, ""@),
        (
            "Instrument"@,
            match filters.instrument {
                Some(i) => i.mutopia_value_of(),
                None => ""@,
            },
        ),
        ("Collection"@, ""@),
        ("recent"@, ""@),
        ("timelength"@, ""@),
        ("timeunit"@, "days"@),
        ("Preview"@, "1"@),
    ]
}

/// The address of a link on a Mutopia page.
pub fn absolutize(href: &str) -> (url: String)
    ensures
        url@ == absolute(href@),
{
    if text::search::starts_with(href, "http://") || text::search::starts_with(href, "https://") {
        return text::owned(href);
    }
    match text::search::strip_prefix(href, "//") {
        Some(rest) => text::concat("https://", rest.as_str()),
        None => if text::search::starts_with(href, "/") {
            text::concat(BASE, href)
        } else {
            text::concat3(BASE, "/", href)
        },
    }
}

/// Collapses runs of white space into single spaces, and trims.
pub fn clean_cell_text(s: &str) -> (out: String)
    ensures
        out@ == clean_cell(s@),
{
    let words = text::split::words_of(s);
    text::join(&words, " ")
}

/// Cleaning a cell twice changes nothing.
pub proof fn clean_cells_stay(s: Seq<char>)
    ensures
        clean_cell(clean_cell(s)) == clean_cell(s),
{
    text::split::words_stay(s);
}

/// The preview image next to a PDF.
pub fn derive_thumbnail_url(pdf_url: &str) -> (r: Option<String>)
    ensures
        text::view_opt(r) == thumbnail_of(pdf_url@),
{
    let stem = match text::search::strip_suffix(pdf_url, ".pdf") {
        Some(s) => s,
        None => match text::search::strip_suffix(pdf_url, ".PDF") {
            Some(s) => s,
            None => {
                return None;
            },
        },
    };
    let base = match text::search::strip_suffix(stem.as_str(), "-let") {
        Some(b) => b,
        None => match text::search::strip_suffix(stem.as_str(), "-a4") {
            Some(b) => b,
            None => stem,
        },
    };
    Some(text::concat(base.as_str(), "-pre.png"))
}

/// The id of a PDF's URL: path-safe, and the id of no other URL.
pub fn encode_url(url: &str) -> (id: String)
    ensures
        id@ == codec::url_id(url@),
        codec::path_safe(id@),
        forall|other: Seq<char>| #[trigger] codec::url_id(other) == id@ ==> other == url@,
{
    codec::encode_url_id(url)
}

/// The URL whose id this is; `None` where it is the id of no URL.
pub fn decode_url(id: &str) -> (r: Option<String>)
    ensures
        match r {
            Some(url) => codec::url_id(url@) == id@,
            None => forall|url: Seq<char>| #[trigger] codec::url_id(url) != id@,
        },
{
    codec::decode_url_id(id)
}

fn first_with_suffix(links: &Vec<Option<String>>, suffix: &str) -> (r: Option<String>)
    ensures
        text::view_opt(r) == first_ending(html::attr_views(links@), suffix@),
{
    let ghost all = html::attr_views(links@);
    assert(all.skip(0) =~= all);
    for i in 0..links.len()
        invariant
            all == html::attr_views(links@),
            first_ending(all, suffix@) == first_ending(all.skip(i as int), suffix@),
    {
        assert(all.skip(i as int)[0] == text::view_opt(links@[i as int]));
        assert(all.skip(i as int).drop_first() =~= all.skip(i + 1));
        if let Some(href) = &links[i] {
            let url = absolutize(href.as_str());
            let lower = url.as_str().to_lowercase();
            if text::search::ends_with(lower.as_str(), suffix) {
                return Some(url);
            }
        }
    }
    None
}

fn pdf_link(links: &Vec<Option<String>>) -> (r: Option<String>)
    ensures
        text::view_opt(r) == pdf_of(html::attr_views(links@)),
{
    match first_with_suffix(links, "-a4.pdf") {
        Some(url) => Some(url),
        None => first_with_suffix(links, ".pdf"),
    }
}

fn file_title(url: &str) -> (out: String)
    ensures
        out@ == title_from_file(url@),
{
    proof {
        reveal_strlit(".pdf");
        reveal_strlit("-a4");
        reveal_strlit("-let");
        reveal_strlit("-");
        reveal_strlit("_");
    }
    let file = text::split::tail(url, '/');
    let stem = text::trim::trim_end_matches(file.as_str(), ".pdf");
    let stem = text::trim::trim_end_matches(stem.as_str(), "-a4");
    let stem = text::trim::trim_end_matches(stem.as_str(), "-let");
    let spaced = text::search::replace(stem.as_str(), "-", " ");
    text::search::replace(spaced.as_str(), "_", " ")
}

fn cell_text(row: &Vec<String>, i: usize) -> (r: Option<String>)
    ensures
        text::view_opt(r) == cell(text::views(row@), i as int),
{
    if i < row.len() {
        Some(clean_cell_text(row[i].as_str()))
    } else {
        None
    }
}

fn title(row: &Vec<String>, url: &str) -> (out: String)
    ensures
        out@ == title_of(text::views(row@), url@),
{
    match cell_text(row, 0) {
        Some(t) => if text::is_empty(t.as_str()) {
            file_title(url)
        } else {
            t
        },
        None => file_title(url),
    }
}

fn composer(row: &Vec<String>) -> (r: Option<String>)
    ensures
        text::view_opt(r) == composer_of(text::views(row@)),
{
    proof {
        reveal_strlit("by ");
    }
    match cell_text(row, 1) {
        Some(c) => if text::is_empty(c.as_str()) || text::same(c.as_str(), "Anonymous") {
            None
        } else {
            Some(text::trim::trim_start_matches(c.as_str(), "by "))
        },
        None => None,
    }
}

fn push_cell_badge(badges: &mut Vec<MetadataBadge>, row: &Vec<String>, i: usize, kind: BadgeKind)
    ensures
        sources::badge_views(final(badges)@) == sources::badge_views(old(badges)@) + cell_badges(
            text::views(row@),
            i as int,
            kind,
        ),
{
    let ghost before = sources::badge_views(badges@);
    if let Some(label) = cell_text(row, i) {
        if !text::is_empty(label.as_str()) && !text::same(label.as_str(), "n/a") {
            let ghost l = label@;
            badges.push(MetadataBadge { label, kind });
            assert(sources::badge_views(badges@) =~= before + seq![
                sources::BadgeView { label: l, kind },
            ]);
            return ;
        }
    }
    assert(before =~= before + Seq::<sources::BadgeView>::empty());
}

fn badges(rows: &Vec<Vec<String>>) -> (out: Vec<MetadataBadge>)
    ensures
        sources::badge_views(out@) == badges_of(html::row_views(rows@)),
{
    let mut out: Vec<MetadataBadge> = Vec::new();
    assert(sources::badge_views(out@) =~= Seq::<sources::BadgeView>::empty());
    if rows.len() > 1 {
        let row = &rows[1];
        let ghost r = text::views(row@);
        assert(html::row_views(rows@)[1] == r);
        if let Some(first) = cell_text(row, 0) {
            if let Some(label) = text::search::strip_prefix(first.as_str(), "for ") {
                if !text::is_empty(label.as_str()) {
                    out.push(MetadataBadge { label, kind: BadgeKind::Instrument });
                }
            }
        }
        assert(sources::badge_views(out@) =~= instrument_badges(r));
        push_cell_badge(&mut out, row, 1, BadgeKind::Year);
        push_cell_badge(&mut out, row, 2, BadgeKind::Generic);
    }
    out
}

/// The result for a piece, where a title can be found.
fn piece_result(rows: &Vec<Vec<String>>, url: String) -> (r: Option<SearchResult>)
    requires
        rows@.len() > 0,
    ensures
        piece(html::row_views(rows@), url@) == (match r {
            Some(result) => Some(result@),
            None => None,
        }),
        r matches Some(result) ==> codec::path_safe(result.id@),
{
    assert(html::row_views(rows@)[0] == text::views(rows@[0]@));
    let title = title(&rows[0], url.as_str());
    if text::is_empty(title.as_str()) {
        return None;
    }
    Some(
        SearchResult {
            source: text::owned("mutopia"),
            id: encode_url(url.as_str()),
            title,
            description: composer(&rows[0]),
            thumbnail_url: derive_thumbnail_url(url.as_str()),
            external_url: url,
            metadata: badges(rows),
            complexity: None,
            is_public_domain: Some(true),
            is_official: None,
        },
    )
}

/// The results for the tables of a search page.
pub fn results_of(tables: &Vec<html::Table>, limit: usize) -> (out: Vec<SearchResult>)
    ensures
        sources::result_views(out@) == found(
            html::table_views(tables@),
            Seq::empty(),
            limit as nat,
        ),
        sources::ids_are_path_safe(out@),
{
    let mut out: Vec<SearchResult> = Vec::new();
    let mut seen: Vec<String> = Vec::new();
    let ghost all = html::table_views(tables@);
    let ghost goal = found(all, Seq::empty(), limit as nat);
    assert(all.skip(0) =~= all);
    assert(text::views(seen@) =~= Seq::<Seq<char>>::empty());
    assert(sources::result_views(out@) =~= Seq::<sources::ResultView>::empty());
    assert(sources::result_views(out@) + goal =~= goal);
    for i in 0..tables.len()
        invariant
            all == html::table_views(tables@),
            goal == found(all, Seq::empty(), limit as nat),
            out@.len() <= limit,
            sources::ids_are_path_safe(out@),
            goal == sources::result_views(out@) + found(
                all.skip(i as int),
                text::views(seen@),
                (limit - out@.len()) as nat,
            ),
    {
        let ghost done = sources::result_views(out@);
        let ghost urls = text::views(seen@);
        if out.len() >= limit {
            assert(goal =~= done);
            return out;
        }
        let table = &tables[i];
        assert(all.skip(i as int)[0] == table@);
        assert(all.skip(i as int).drop_first() =~= all.skip(i + 1));
        if table.rows.len() > 0 {
            if let Some(url) = pdf_link(&table.links) {
                if !text::among(&seen, url.as_str()) {
                    seen.push(text::owned(url.as_str()));
                    assert(text::views(seen@) =~= urls.push(url@));
                    if let Some(result) = piece_result(&table.rows, url) {
                        let ghost r = result@;
                        out.push(result);
                        assert(sources::result_views(out@) =~= done + seq![r]);
                        let ghost rest = found(
                            all.skip(i + 1),
                            text::views(seen@),
                            (limit - out@.len()) as nat,
                        );
                        assert(done + (seq![r] + rest) =~= sources::result_views(out@) + rest);
                    }
                }
            }
        }
    }
    assert(goal =~= sources::result_views(out@));
    out
}

/// The page in the answer to a search.
pub fn judge_search(status: u16, shown: &str, body: &str) -> (r: Result<String, String>)
    ensures
        verdict(status, shown@, body@) == (match r {
            Ok(page) => Ok::<Seq<char>, Seq<char>>(page@),
            Err(e) => Err(e@),
        }),
{
    if 200 <= status && status < 300 {
        return Ok(text::owned(body));
    }
    Err(download::status_message("mutopia", "search", shown, body))
}

impl Mutopia {
    /// The catalog, which needs no cookie.
    pub fn new() -> (mutopia: Self)
        ensures
            mutopia.http.has_cookies(Seq::empty()),
    {
        let cookies: Vec<&'static str> = Vec::new();
        assert(cookies@.map_values(|c: &'static str| c@) =~= Seq::<Seq<char>>::empty());
        Mutopia {
            http: ClientSettings {
                user_agent: USER_AGENT,
                timeout_secs: TIMEOUT_SECS,
                gzip: true,
                cookies,
            },
        }
    }

    /// The fields of a search request.
    pub fn search_query(&self, query: &str, filters: &SearchFilters) -> (out: Vec<
        (String, String),
    >)
        ensures
            out@.map_values(|f: (String, String)| (f.0@, f.1@)) == search_fields(query@, *filters),
    {
        let instrument = match filters.instrument {
            Some(i) => i.mutopia_value(),
            None => "",
        };
        let out = vec![
            (text::owned("searchingfor"), text::owned(query)),
            (text::owned("Composer"), text::owned("")),
            (text::owned("Style"), text::owned("")),
            (text::owned("Instrument"), text::owned(instrument)),
            (text::owned("Collection"), text::owned("")),
            (text::owned("recent"), text::owned("")),
            (text::owned("timelength"), text::owned("")),
            (text::owned("timeunit"), text::owned("days")),
            (text::owned("Preview"), text::owned("1")),
        ];
        assert(out@.map_values(|f: (String, String)| (f.0@, f.1@)) =~= search_fields(
            query@,
            *filters,
        ));
        out
    }

    /// The results on the page that answers a search; `None` where the
    /// selectors of the page's tables are not understood.
    pub fn search(&self, page: &str, limit: usize) -> (r: Option<Vec<SearchResult>>)
        ensures
            (match r {
                Some(results) => Some(sources::result_views(results@)),
                None => None,
            }) == found_on(page@, limit as nat),
            r matches Some(results) ==> sources::ids_are_path_safe(results@),
    {
        match html::select_tables(page, "table.result-table", "tr", "td", "a[href]", "href") {
            Some(tables) => Some(results_of(&tables, limit)),
            None => None,
        }
    }

    /// What a search gives for an answer with this status and body.
    pub fn answer(&self, status: u16, shown: &str, body: &str, limit: usize) -> (r: Result<
        Vec<SearchResult>,
        String,
    >)
        ensures
            answered(status, shown@, body@, limit as nat) == (match r {
                Ok(results) => Ok::<Seq<sources::ResultView>, Seq<char>>(
                    sources::result_views(results@),
                ),
                Err(e) => Err(e@),
            }),
            r matches Ok(results) ==> sources::ids_are_path_safe(results@),
    {
        let page = match judge_search(status, shown, body) {
            Ok(page) => page,
            Err(e) => {
                return Err(e);
            },
        };
        match self.search(page.as_str(), limit) {
            Some(results) => Ok(results),
            None => Err(text::owned("mutopia selectors")),
        }
    }
}

/// What [`first_ending`] gives ends in the suffix, in lower case.
proof fn first_ending_ends(links: Seq<Option<Seq<char>>>, suffix: Seq<char>)
    ensures
        first_ending(links, suffix) matches Some(url) ==> suffix.is_suffix_of(
            text::lowercase(url),
        ),
    decreases links.len(),
{
    if links.len() > 0 {
        first_ending_ends(links.drop_first(), suffix);
    }
}

/// What is taken as a PDF ends in `.pdf`, in lower case.
proof fn pdf_of_is_a_pdf(links: Seq<Option<Seq<char>>>)
    ensures
        pdf_of(links) matches Some(url) ==> ".pdf"@.is_suffix_of(text::lowercase(url)),
{
    reveal_strlit("-a4.pdf");
    reveal_strlit(".pdf");
    first_ending_ends(links, "-a4.pdf"@);
    first_ending_ends(links, ".pdf"@);
    assert("-a4.pdf"@.skip(3) =~= ".pdf"@);
    if let Some(url) = first_ending(links, "-a4.pdf"@) {
        let lower = text::lowercase(url);
        assert(lower.skip(lower.len() - 4) =~= lower.skip(lower.len() - 7).skip(3));
    }
}

/// A search gives at most `limit` results. Each is of this source, has a
/// title, is in the public domain, leads to a PDF and has the id of that PDF.
/// No two have the same PDF.
pub proof fn found_results(tables: Seq<html::TableView>, seen: Seq<Seq<char>>, limit: nat)
    ensures
        found(tables, seen, limit).len() <= limit,
        forall|i: int|
            0 <= i < found(tables, seen, limit).len() ==> {
                let r = #[trigger] found(tables, seen, limit)[i];
                &&& r.source == "mutopia"@
                &&& r.title.len() > 0
                &&& r.is_public_domain == Some(true)
                &&& r.id == codec::url_id(r.external_url)
                &&& ".pdf"@.is_suffix_of(text::lowercase(r.external_url))
                &&& !seen.contains(r.external_url)
            },
        forall|i: int, j: int|
            0 <= i < j < found(tables, seen, limit).len() ==> (#[trigger] found(
                tables,
                seen,
                limit,
            )[i]).external_url != (#[trigger] found(tables, seen, limit)[j]).external_url,
    decreases tables.len(),
{
    if tables.len() > 0 && limit > 0 {
        let rest = tables.drop_first();
        pdf_of_is_a_pdf(tables[0].links);
        match table_pdf(tables[0]) {
            None => found_results(rest, seen, limit),
            Some(url) => if seen.contains(url) {
                found_results(rest, seen, limit)
            } else {
                let more = seen.push(url);
                assert(more[seen.len() as int] == url);
                assert forall|u: Seq<char>| !more.contains(u) implies !seen.contains(u) && u
                    != url by {
                    if seen.contains(u) {
                        let k = choose|k: int| 0 <= k < seen.len() && seen[k] == u;
                        assert(more[k] == u);
                    }
                }
                match piece(tables[0].rows, url) {
                    None => found_results(rest, more, limit),
                    Some(r) => {
                        found_results(rest, more, (limit - 1) as nat);
                        let tail = found(rest, more, (limit - 1) as nat);
                        assert(found(tables, seen, limit) == seq![r] + tail);
                        assert forall|i: int| 0 <= i < tail.len() implies (seq![r] + tail)[i + 1]
                            == #[trigger] tail[i] by {}
                        assert forall|i: int| 0 < i < (seq![r] + tail).len() implies (#[trigger] (
                        seq![r] + tail)[i]) == tail[i - 1] by {}
                    },
                }
            },
        }
    }
}

/// An answer without success gives an error. Any other gives at most `limit`
/// results, of this source, each with a title and the id of its PDF, no two
/// with the same PDF.
pub proof fn answers_are_judged(status: u16, shown: Seq<char>, body: Seq<char>, limit: nat)
    ensures
        !succeeds(status) ==> answered(status, shown, body, limit) is Err,
        answered(status, shown, body, limit) matches Ok(v) ==> {
            &&& succeeds(status)
            &&& v.len() <= limit
            &&& forall|i: int|
                0 <= i < v.len() ==> {
                    let r = #[trigger] v[i];
                    &&& r.source == "mutopia"@
                    &&& r.title.len() > 0
                    &&& r.id == codec::url_id(r.external_url)
                    &&& ".pdf"@.is_suffix_of(text::lowercase(r.external_url))
                }
            &&& forall|i: int, j: int|
                0 <= i < j < v.len() ==> (#[trigger] v[i]).external_url != (#[trigger] v[
                    j]).external_url
        },
{
    if let Some(tables) = html::tables_of(
        body,
        "table.result-table"@,
        "tr"@,
        "td"@,
        "a[href]"@,
        "href"@,
    ) {
        found_results(tables, Seq::empty(), limit);
    }
}

impl Source for Mutopia {
    open spec fn source_id(&self) -> Seq<char> {
        "mutopia"@
    }

    open spec fn name(&self) -> Seq<char> {
        "Mutopia Project"@
    }

    open spec fn is_external_url(&self, id: Seq<char>, url: Seq<char>) -> bool {
        ||| codec::url_id(url) == id
        ||| url == search_page() && forall|u: Seq<char>| #[trigger] codec::url_id(u) != id
    }

    fn id(&self) -> (s: &'static str) {
        "mutopia"
    }

    fn display_name(&self) -> (s: &'static str) {
        "Mutopia Project"
    }

    fn external_url(&self, id: &str) -> (url: String) {
        match decode_url(id) {
            Some(url) => url,
            None => text::concat(BASE, "/cgibin/make-table.cgi"),
        }
    }
}

/// The composer of a piece is told by the second cell of its first row alone:
/// a cell that reads `by X` gives `X`, one that reads `X` without that word
/// gives `X`, and an empty one, or `Anonymous`, gives none, whatever cells
/// stand around it. A row of one cell gives none.
pub proof fn the_second_cell_names_the_composer(row: Seq<Seq<char>>, x: Seq<char>)
    requires
        !"by "@.is_prefix_of(x),
    ensures
        row.len() >= 2 && clean_cell(row[1]) == "by "@ + x ==> composer_of(row) == Some(x),
        row.len() >= 2 && clean_cell(row[1]) == x && x.len() > 0 && x != "Anonymous"@
            ==> composer_of(row) == Some(x),
        row.len() >= 2 && clean_cell(row[1]).len() == 0 ==> composer_of(row) is None,
        row.len() >= 2 && clean_cell(row[1]) == "Anonymous"@ ==> composer_of(row) is None,
        row.len() < 2 ==> composer_of(row) is None,
{
    reveal_strlit("by ");
    reveal_strlit("Anonymous");
    text::trim::copies_come_off("by "@, x);
    if row.len() >= 2 && clean_cell(row[1]) == "by "@ + x {
        assert(("by "@ + x)[0] == 'b');
        assert("Anonymous"@[0] == 'A');
    }
}

/// The title of a piece is its first cell, cleaned, whatever else the table
/// holds; only where that is empty or missing is it made of the name of the
/// PDF.
pub proof fn the_first_cell_is_the_title(row: Seq<Seq<char>>, url: Seq<char>)
    ensures
        row.len() >= 1 && clean_cell(row[0]).len() > 0 ==> title_of(row, url) == clean_cell(row[0]),
        row.len() == 0 || clean_cell(row[0]).len() == 0 ==> title_of(row, url) == title_from_file(
            url,
        ),
{
}

/// Words one space apart are kept as they are: cleaning takes only white space
/// away, and puts one space between words.
pub proof fn cleaning_keeps_the_words(s: Seq<char>)
    ensures
        text::split::words(clean_cell(s)) == text::split::words(s),
        clean_cell(s).len() == 0 <==> text::split::words(s).len() == 0,
{
    text::split::words_stay(s);
    let list = text::split::words(s);
    text::split::words_are_not_empty(s);
    if list.len() > 0 {
        joined_words_are_something(list);
    }
}

proof fn joined_words_are_something(list: Seq<Seq<char>>)
    requires
        list.len() > 0,
        forall|k: int| 0 <= k < list.len() ==> (#[trigger] list[k]).len() > 0,
    ensures
        text::joined(list, " "@).len() > 0,
{
    if list.len() > 1 {
        assert(list.last() == list[list.len() - 1]);
    }
}

/// The title that a file name suggests: what stands behind the last slash,
/// with the endings for the format and the paper taken off.
pub proof fn file_names_suggest_titles(dir: Seq<char>, stem: Seq<char>)
    requires
        stem.len() > 0,
        forall|i: int|
            0 <= i < stem.len() ==> (#[trigger] stem[i]) != '/' && stem[i] != '-' && stem[i] != '_'
                && stem[i] != '.',
    ensures
        title_from_file(dir + "/"@ + stem + ".pdf"@) == stem,
        title_from_file(dir + "/"@ + stem + "-a4.pdf"@) == stem,
        title_from_file(dir + "/"@ + stem + "-let.pdf"@) == stem,
{
    reveal_strlit("/");
    file_name_is_cut(dir, stem, Seq::empty());
    reveal_strlit("-a4");
    reveal_strlit("-let");
    reveal_strlit(".pdf");
    reveal_strlit("-a4.pdf");
    reveal_strlit("-let.pdf");
    file_name_is_cut(dir, stem, "-a4"@);
    file_name_is_cut(dir, stem, "-let"@);
    assert(dir + "/"@ + stem + Seq::<char>::empty() + ".pdf"@ =~= dir + "/"@ + stem + ".pdf"@);
    assert(dir + "/"@ + stem + "-a4"@ + ".pdf"@ =~= dir + "/"@ + stem + "-a4.pdf"@);
    assert(dir + "/"@ + stem + "-let"@ + ".pdf"@ =~= dir + "/"@ + stem + "-let.pdf"@);
}

proof fn file_name_is_cut(dir: Seq<char>, stem: Seq<char>, paper: Seq<char>)
    requires
        stem.len() > 0,
        forall|i: int|
            0 <= i < stem.len() ==> (#[trigger] stem[i]) != '/' && stem[i] != '-' && stem[i] != '_'
                && stem[i] != '.',
        paper == Seq::<char>::empty() || paper == "-a4"@ || paper == "-let"@,
    ensures
        title_from_file(dir + "/"@ + stem + paper + ".pdf"@) == stem,
{
    reveal_strlit("/");
    reveal_strlit("-a4");
    reveal_strlit("-let");
    reveal_strlit(".pdf");
    reveal_strlit("-");
    reveal_strlit("_");
    reveal_strlit(" ");
    let slash = |c: char| c == '/';
    let name = stem + paper;
    let file = name + ".pdf"@;
    let url = dir + "/"@ + stem + paper + ".pdf"@;
    assert(url =~= dir + seq!['/'] + file);
    assert forall|i: int| 0 <= i < file.len() implies !slash(#[trigger] file[i]) by {
        if i < stem.len() {
            assert(file[i] == stem[i]);
        } else if i < name.len() {
            assert(file[i] == paper[i - stem.len()]);
        } else {
            assert(file[i] == ".pdf"@[i - name.len()]);
        }
    }
    text::split::ends_are_cut_at_separators(dir, '/', file, slash);
    text::trim::copies_come_off(".pdf"@, name);
    assert(!".pdf"@.is_suffix_of(name)) by {
        if ".pdf"@.is_suffix_of(name) {
            let k = name.len() - 4;
            assert(name.subrange(k, name.len() as int)[0] == name[k]);
            if k < stem.len() {
                assert(name[k] == stem[k]);
            } else {
                assert(name[k] == paper[k - stem.len()]);
            }
        }
    }
    text::trim::copies_come_off("-a4"@, stem);
    text::trim::copies_come_off("-a4"@, name);
    text::trim::copies_come_off("-let"@, stem);
    text::trim::copies_come_off("-let"@, name);
    no_paper_in_a_stem(stem, "-a4"@);
    no_paper_in_a_stem(stem, "-let"@);
    if paper == Seq::<char>::empty() {
        assert(name =~= stem);
    } else if paper == "-let"@ {
        assert(!"-a4"@.is_suffix_of(name)) by {
            if "-a4"@.is_suffix_of(name) {
                let k = name.len() as int;
                assert(name.subrange(k - 3, k)[2] == name[k - 1]);
                assert(name[k - 1] == 't');
            }
        }
    }
    assert(text::trim::without_suffixes(
        text::trim::without_suffixes(name, "-a4"@),
        "-let"@,
    ) == stem);
    assert(!stem.contains('-') && !stem.contains('_'));
    text::search::nothing_starts_without_its_first(stem, "-"@, Seq::empty());
    text::search::nothing_starts_without_its_first(stem, "_"@, Seq::empty());
    text::search::replacing_what_is_not_there(stem, "-"@, " "@);
    text::search::replacing_what_is_not_there(stem, "_"@, " "@);
}

proof fn no_paper_in_a_stem(stem: Seq<char>, p: Seq<char>)
    requires
        p.len() > 0,
        p[0] == '-',
        forall|i: int| 0 <= i < stem.len() ==> (#[trigger] stem[i]) != '-',
    ensures
        !p.is_suffix_of(stem),
{
    if p.is_suffix_of(stem) {
        let k = stem.len() - p.len();
        assert(stem.subrange(k, stem.len() as int)[0] == stem[k]);
    }
}

/// The badges of a piece are told by its second row: the instruments behind
/// `for ` in the first cell, then the year in the second, then the style in
/// the third. A cell that is empty or reads `n/a` gives none, nor does a piece
/// of one row.
pub proof fn the_second_row_gives_the_badges(rows: Seq<Seq<Seq<char>>>, inst: Seq<char>)
    ensures
        rows.len() < 2 ==> badges_of(rows).len() == 0,
        rows.len() >= 2 && rows[1].len() >= 3 && inst.len() > 0 && clean_cell(rows[1][0]) == "for "@
            + inst && is_told(rows[1][1]) && is_told(rows[1][2]) ==> badges_of(rows) == seq![
            sources::BadgeView { label: inst, kind: BadgeKind::Instrument },
            sources::BadgeView { label: clean_cell(rows[1][1]), kind: BadgeKind::Year },
            sources::BadgeView { label: clean_cell(rows[1][2]), kind: BadgeKind::Generic },
        ],
        rows.len() >= 2 && rows[1].len() >= 1 && !"for "@.is_prefix_of(clean_cell(rows[1][0]))
            ==> forall|i: int|
            0 <= i < badges_of(rows).len() ==> (#[trigger] badges_of(rows)[i]).kind
                != BadgeKind::Instrument,
        rows.len() >= 2 && (rows[1].len() < 2 || !is_told(rows[1][1])) ==> forall|i: int|
            0 <= i < badges_of(rows).len() ==> (#[trigger] badges_of(rows)[i]).kind
                != BadgeKind::Year,
        rows.len() >= 2 && (rows[1].len() < 3 || !is_told(rows[1][2])) ==> forall|i: int|
            0 <= i < badges_of(rows).len() ==> (#[trigger] badges_of(rows)[i]).kind
                != BadgeKind::Generic,
{
    reveal_strlit("for ");
    text::search::affixes_come_off("for "@, inst);
    if rows.len() >= 2 && rows[1].len() >= 3 && inst.len() > 0 && clean_cell(rows[1][0]) == "for "@
        + inst && is_told(rows[1][1]) && is_told(rows[1][2]) {
        assert(badges_of(rows) =~= seq![
            sources::BadgeView { label: inst, kind: BadgeKind::Instrument },
            sources::BadgeView { label: clean_cell(rows[1][1]), kind: BadgeKind::Year },
            sources::BadgeView { label: clean_cell(rows[1][2]), kind: BadgeKind::Generic },
        ]);
    }
}

/// A cell that says something.
pub open spec fn is_told(cell: Seq<char>) -> bool {
    clean_cell(cell).len() > 0 && clean_cell(cell) != "n/a"@
}

/// A piece has its own title, composer, badges and preview, is in the public
/// domain, and leads to its PDF.
pub proof fn pieces_say_what_their_tables_say(rows: Seq<Seq<Seq<char>>>, url: Seq<char>)
    requires
        rows.len() > 0,
    ensures
        match piece(rows, url) {
            Some(r) => {
                &&& r.source == "mutopia"@
                &&& r.title == title_of(rows[0], url)
                &&& r.title.len() > 0
                &&& r.description == composer_of(rows[0])
                &&& r.external_url == url
                &&& r.id == codec::url_id(url)
                &&& r.thumbnail_url == thumbnail_of(url)
                &&& r.metadata == badges_of(rows)
                &&& r.is_public_domain == Some(true)
                &&& r.complexity is None
                &&& r.is_official is None
            },
            None => title_of(rows[0], url).len() == 0,
        },
{
}

/// The preview next to a PDF has its name without the ending for the paper.
/// What is no PDF has none.
pub proof fn previews_stand_next_to_pdfs(base: Seq<char>)
    ensures
        !"-let"@.is_suffix_of(base) && !"-a4"@.is_suffix_of(base) ==> thumbnail_of(base + ".pdf"@)
            == Some(base + "-pre.png"@) && thumbnail_of(base + ".PDF"@) == Some(
            base + "-pre.png"@,
        ),
        thumbnail_of(base + "-a4.pdf"@) == Some(base + "-pre.png"@),
        thumbnail_of(base + "-let.pdf"@) == Some(base + "-pre.png"@),
        !".pdf"@.is_suffix_of(base) && !".PDF"@.is_suffix_of(base) ==> thumbnail_of(base) is None,
{
    preview_without_paper(base);
    preview_on_a4(base);
    preview_on_letter(base);
}

proof fn preview_without_paper(base: Seq<char>)
    ensures
        !"-let"@.is_suffix_of(base) && !"-a4"@.is_suffix_of(base) ==> thumbnail_of(base + ".pdf"@)
            == Some(base + "-pre.png"@) && thumbnail_of(base + ".PDF"@) == Some(
            base + "-pre.png"@,
        ),
        !".pdf"@.is_suffix_of(base) && !".PDF"@.is_suffix_of(base) ==> thumbnail_of(base) is None,
{
    preview_of_a_stem(base);
}

proof fn preview_on_a4(base: Seq<char>)
    ensures
        thumbnail_of(base + "-a4.pdf"@) == Some(base + "-pre.png"@),
{
    preview_of_a_stem(base + "-a4"@);
    paper_is_told(base);
    assert(base + "-a4"@ + ".pdf"@ =~= base + "-a4.pdf"@) by {
        reveal_strlit(".pdf");
        reveal_strlit("-a4");
        reveal_strlit("-a4.pdf");
    }
}

proof fn preview_on_letter(base: Seq<char>)
    ensures
        thumbnail_of(base + "-let.pdf"@) == Some(base + "-pre.png"@),
{
    preview_of_a_stem(base + "-let"@);
    paper_is_told(base);
    assert(base + "-let"@ + ".pdf"@ =~= base + "-let.pdf"@) by {
        reveal_strlit(".pdf");
        reveal_strlit("-let");
        reveal_strlit("-let.pdf");
    }
}

/// The ending for the paper comes off a name.
proof fn paper_is_told(base: Seq<char>)
    ensures
        text::search::without_suffix(base + "-let"@, "-let"@) == Some(base),
        text::search::without_suffix(base + "-a4"@, "-let"@) is None,
        text::search::without_suffix(base + "-a4"@, "-a4"@) == Some(base),
{
    text::search::affixes_come_off("-let"@, base);
    text::search::affixes_come_off("-a4"@, base);
    let a4 = base + "-a4"@;
    reveal_strlit("-let");
    reveal_strlit("-a4");
    if "-let"@.is_suffix_of(a4) {
        let n = a4.len() as int;
        assert(a4.subrange(n - 4, n)[3] == a4[n - 1]);
        assert(a4[n - 1] == '4');
    }
}

proof fn preview_of_a_stem(stem: Seq<char>)
    ensures
        ({
            let base = match text::search::without_suffix(stem, "-let"@) {
                Some(b) => b,
                None => match text::search::without_suffix(stem, "-a4"@) {
                    Some(b) => b,
                    None => stem,
                },
            };
            &&& thumbnail_of(stem + ".pdf"@) == Some(base + "-pre.png"@)
            &&& thumbnail_of(stem + ".PDF"@) == Some(base + "-pre.png"@)
        }),
{
    text::search::affixes_come_off(".pdf"@, stem);
    text::search::affixes_come_off(".PDF"@, stem);
    let upper = stem + ".PDF"@;
    assert(!".pdf"@.is_suffix_of(upper)) by {
        reveal_strlit(".pdf");
        reveal_strlit(".PDF");
        if ".pdf"@.is_suffix_of(upper) {
            let n = upper.len() as int;
            assert(upper.subrange(n - 4, n)[1] == upper[n - 3]);
            assert(upper[n - 3] == 'P');
        }
    }
}

/// A full address stays as it is, one without a scheme gets `https:`, and a
/// path, rooted or not, is one of Mutopia's host.
pub proof fn addresses_are_completed(rest: Seq<char>)
    ensures
        absolute("http://"@ + rest) == "http://"@ + rest,
        absolute("https://"@ + rest) == "https://"@ + rest,
        absolute("//"@ + rest) == "https://"@ + rest,
        rest.len() > 0 && rest[0] != '/' ==> absolute("/"@ + rest)
            == "https://www.mutopiaproject.org/"@ + rest,
        rest.len() > 0 && rest[0] != '/' && rest[0] != 'h' ==> absolute(rest)
            == "https://www.mutopiaproject.org/"@ + rest,
{
    reveal_strlit("http://");
    reveal_strlit("https://");
    reveal_strlit("//");
    reveal_strlit("/");
    reveal_strlit("https://www.mutopiaproject.org");
    reveal_strlit("https://www.mutopiaproject.org/");
    text::search::affixes_come_off("http://"@, rest);
    text::search::affixes_come_off("https://"@, rest);
    text::search::affixes_come_off("//"@, rest);
    let s = "//"@ + rest;
    let t = "/"@ + rest;
    assert(s[0] == '/' && t[0] == '/');
    if "http://"@.is_prefix_of(s) {
        assert("http://"@[0] == s[0]);
    }
    if "https://"@.is_prefix_of(s) {
        assert("https://"@[0] == s[0]);
    }
    if "http://"@.is_prefix_of(t) {
        assert("http://"@[0] == t[0]);
    }
    if "https://"@.is_prefix_of(t) {
        assert("https://"@[0] == t[0]);
    }
    if rest.len() > 0 && rest[0] != '/' {
        assert(t[1] == rest[0]);
        if "//"@.is_prefix_of(t) {
            assert("//"@[1] == t[1]);
        }
        text::search::affixes_come_off("/"@, rest);
        assert(BASE@ + t =~= "https://www.mutopiaproject.org/"@ + rest);
        if rest[0] != 'h' {
            if "http://"@.is_prefix_of(rest) {
                assert("http://"@[0] == rest[0]);
            }
            if "https://"@.is_prefix_of(rest) {
                assert("https://"@[0] == rest[0]);
            }
            if "//"@.is_prefix_of(rest) {
                assert("//"@[0] == rest[0]);
            }
            if "/"@.is_prefix_of(rest) {
                assert("/"@[0] == rest[0]);
            }
            assert(BASE@ + "/"@ + rest =~= "https://www.mutopiaproject.org/"@ + rest);
        }
    }
}

/// `links[i]` is a link whose address ends in `suffix`, in any case, and none
/// before it is.
pub open spec fn is_first_ending(
    links: Seq<Option<Seq<char>>>,
    i: int,
    suffix: Seq<char>,
) -> bool {
    &&& 0 <= i < links.len()
    &&& links[i] is Some
    &&& suffix.is_suffix_of(text::lowercase(absolute(links[i]->0)))
    &&& forall|j: int|
        0 <= j < i ==> !((#[trigger] links[j]) is Some && suffix.is_suffix_of(
            text::lowercase(absolute(links[j]->0)),
        ))
}

/// No link has an address that ends in `suffix`.
pub open spec fn has_no_ending(links: Seq<Option<Seq<char>>>, suffix: Seq<char>) -> bool {
    forall|j: int|
        0 <= j < links.len() ==> !((#[trigger] links[j]) is Some && suffix.is_suffix_of(
            text::lowercase(absolute(links[j]->0)),
        ))
}

proof fn ending_is_found(links: Seq<Option<Seq<char>>>, suffix: Seq<char>, i: int)
    ensures
        is_first_ending(links, i, suffix) ==> first_ending(links, suffix) == Some(
            absolute(links[i]->0),
        ),
        has_no_ending(links, suffix) ==> first_ending(links, suffix) is None,
    decreases links.len(),
{
    if links.len() > 0 {
        let rest = links.drop_first();
        ending_is_found(rest, suffix, i - 1);
        if is_first_ending(links, i, suffix) && i > 0 {
            assert(!(links[0] is Some && suffix.is_suffix_of(
                text::lowercase(absolute(links[0]->0)),
            )));
            assert(rest[i - 1] == links[i]);
            assert forall|j: int| 0 <= j < i - 1 implies !((#[trigger] rest[j]) is Some
                && suffix.is_suffix_of(text::lowercase(absolute(rest[j]->0)))) by {
                assert(rest[j] == links[j + 1]);
            }
        }
        if has_no_ending(links, suffix) {
            assert(!(links[0] is Some && suffix.is_suffix_of(
                text::lowercase(absolute(links[0]->0)),
            )));
            assert forall|j: int| 0 <= j < rest.len() implies !((#[trigger] rest[j]) is Some
                && suffix.is_suffix_of(text::lowercase(absolute(rest[j]->0)))) by {
                assert(rest[j] == links[j + 1]);
            }
        }
    }
}

/// The PDF of a piece is the first one for A4 paper, wherever it stands among
/// its links; only a piece without one has the first of its PDFs, and a piece
/// without any has none.
pub proof fn a4_comes_first(links: Seq<Option<Seq<char>>>, i: int)
    ensures
        is_first_ending(links, i, "-a4.pdf"@) ==> pdf_of(links) == Some(absolute(links[i]->0)),
        has_no_ending(links, "-a4.pdf"@) && is_first_ending(links, i, ".pdf"@) ==> pdf_of(links)
            == Some(absolute(links[i]->0)),
        has_no_ending(links, "-a4.pdf"@) && has_no_ending(links, ".pdf"@) ==> pdf_of(links) is None,
{
    ending_is_found(links, "-a4.pdf"@, i);
    ending_is_found(links, ".pdf"@, i);
}

/// A lower limit only cuts the results off at their end.
pub proof fn limits_cut_the_end(
    tables: Seq<html::TableView>,
    seen: Seq<Seq<char>>,
    less: nat,
    limit: nat,
)
    requires
        less <= limit,
    ensures
        found(tables, seen, less) == (if found(tables, seen, limit).len() <= less {
            found(tables, seen, limit)
        } else {
            found(tables, seen, limit).take(less as int)
        }),
    decreases tables.len(),
{
    if tables.len() > 0 && limit > 0 {
        let rest = tables.drop_first();
        match table_pdf(tables[0]) {
            None => limits_cut_the_end(rest, seen, less, limit),
            Some(url) => if seen.contains(url) {
                limits_cut_the_end(rest, seen, less, limit);
            } else {
                let more = seen.push(url);
                match piece(tables[0].rows, url) {
                    None => limits_cut_the_end(rest, more, less, limit),
                    Some(r) => {
                        let tail = found(rest, more, (limit - 1) as nat);
                        if less > 0 {
                            limits_cut_the_end(rest, more, (less - 1) as nat, (limit - 1) as nat);
                            if tail.len() >= less {
                                assert((seq![r] + tail).take(less as int) =~= seq![r] + tail.take(
                                    less - 1,
                                ));
                            }
                        } else {
                            assert((seq![r] + tail).take(0) =~= Seq::<sources::ResultView>::empty());
                        }
                    },
                }
            },
        }
    }
    if less == 0 {
        assert(found(tables, seen, limit).take(0) =~= Seq::<sources::ResultView>::empty());
    }
}

/// One more piece at the end of a page adds one result at the end, and changes
/// none before it: the piece of that table, unless it has no PDF or no title,
/// or an earlier table has the same PDF.
pub proof fn pieces_come_in_order(tables: Seq<html::TableView>, t: html::TableView, limit: nat)
    requires
        limit > tables.len(),
    ensures
        found(Seq::<html::TableView>::empty(), Seq::empty(), limit).len() == 0,
        found(tables.push(t), Seq::empty(), limit) == (match table_pdf(t) {
            Some(url) => match piece(t.rows, url) {
                Some(r) => if exists|j: int|
                    0 <= j < tables.len() && table_pdf(#[trigger] tables[j]) == Some(url) {
                    found(tables, Seq::empty(), limit)
                } else {
                    found(tables, Seq::empty(), limit).push(r)
                },
                None => found(tables, Seq::empty(), limit),
            },
            None => found(tables, Seq::empty(), limit),
        }),
{
    piece_at_the_end(tables, t, Seq::empty(), limit);
}

proof fn piece_at_the_end(
    tables: Seq<html::TableView>,
    t: html::TableView,
    seen: Seq<Seq<char>>,
    limit: nat,
)
    requires
        limit > tables.len(),
    ensures
        found(tables.push(t), seen, limit) == (match table_pdf(t) {
            Some(url) => match piece(t.rows, url) {
                Some(r) => if seen.contains(url) || (exists|j: int|
                    0 <= j < tables.len() && table_pdf(#[trigger] tables[j]) == Some(url)) {
                    found(tables, seen, limit)
                } else {
                    found(tables, seen, limit).push(r)
                },
                None => found(tables, seen, limit),
            },
            None => found(tables, seen, limit),
        }),
    decreases tables.len(),
{
    let longer = tables.push(t);
    let none = Seq::<sources::ResultView>::empty();
    if tables.len() == 0 {
        assert(longer.drop_first() =~= tables);
        assert(longer[0] == t);
        assert(found(tables, seen, limit) =~= none);
        if let Some(url) = table_pdf(t) {
            assert(found(tables, seen.push(url), limit) =~= none);
            assert(found(tables, seen.push(url), (limit - 1) as nat) =~= none);
            if let Some(r) = piece(t.rows, url) {
                assert(seq![r] + none =~= none.push(r));
            }
        }
    } else {
        let rest = tables.drop_first();
        assert(longer[0] == tables[0]);
        assert(longer.drop_first() =~= rest.push(t));
        let now = match table_pdf(tables[0]) {
            Some(u) => if seen.contains(u) {
                seen
            } else {
                seen.push(u)
            },
            None => seen,
        };
        piece_at_the_end(rest, t, now, limit);
        piece_at_the_end(rest, t, now, (limit - 1) as nat);
        if let Some(url) = table_pdf(t) {
            let before = seen.contains(url) || exists|j: int|
                0 <= j < tables.len() && table_pdf(#[trigger] tables[j]) == Some(url);
            let then = now.contains(url) || exists|j: int|
                0 <= j < rest.len() && table_pdf(#[trigger] rest[j]) == Some(url);
            assert(before == then) by {
                if seen.contains(url) {
                    let k = choose|k: int| 0 <= k < seen.len() && seen[k] == url;
                    assert(now[k] == url);
                }
                if exists|j: int| 0 <= j < tables.len() && table_pdf(#[trigger] tables[j]) == Some(
                    url,
                ) {
                    let j = choose|j: int|
                        0 <= j < tables.len() && table_pdf(#[trigger] tables[j]) == Some(url);
                    if j > 0 {
                        assert(rest[j - 1] == tables[j]);
                    } else if !seen.contains(url) {
                        assert(now[seen.len() as int] == url);
                    }
                }
                if exists|j: int| 0 <= j < rest.len() && table_pdf(#[trigger] rest[j]) == Some(
                    url,
                ) {
                    let j = choose|j: int|
                        0 <= j < rest.len() && table_pdf(#[trigger] rest[j]) == Some(url);
                    assert(tables[j + 1] == rest[j]);
                }
                if now.contains(url) && !seen.contains(url) {
                    let k = choose|k: int| 0 <= k < now.len() && now[k] == url;
                    if k < seen.len() {
                        assert(seen[k] == url);
                    }
                    assert(table_pdf(tables[0]) == Some(url));
                }
            }
        }
        if let Some(u) = table_pdf(tables[0]) {
            if !seen.contains(u) {
                if let Some(first) = piece(tables[0].rows, u) {
                    let tail = found(rest, now, (limit - 1) as nat);
                    if let Some(url) = table_pdf(t) {
                        if let Some(r) = piece(t.rows, url) {
                            assert(seq![first] + tail.push(r) =~= (seq![first] + tail).push(r));
                        }
                    }
                }
            }
        }
    }
}

/// A table has the PDF of its links where it has rows at all.
pub proof fn tables_have_the_pdf_of_their_links(t: html::TableView)
    ensures
        t.rows.len() > 0 ==> table_pdf(t) == pdf_of(t.links),
        t.rows.len() == 0 ==> table_pdf(t) is None,
{
}

/// A search asks for the query as it was typed, and for an instrument exactly
/// where one is asked for.
pub proof fn searches_ask_for_the_query(query: Seq<char>, filters: SearchFilters)
    ensures
        search_fields(query, filters).len() == 9,
        search_fields(query, filters)[0] == ("searchingfor"@, query),
        filters.instrument matches Some(i) ==> search_fields(query, filters).contains(
            ("Instrument"@, i.mutopia_value_of()),
        ),
        filters.instrument is None ==> search_fields(query, filters).contains(
            ("Instrument"@, ""@),
        ),
        forall|i: int|
            1 <= i < 9 && (#[trigger] search_fields(query, filters)[i]).0 != "Instrument"@
                ==> search_fields(query, filters)[i].1 == ""@ || search_fields(query, filters)[i]
                == ("timeunit"@, "days"@) || search_fields(query, filters)[i] == ("Preview"@, "1"@),
{
    let f = search_fields(query, filters);
    assert(f[3].0 == "Instrument"@);
    assert(f.contains(f[3]));
}

/// The results of a search are those in the tables for results of its page, by
/// their rows, cells and links; an answer outside the two hundreds is an
/// error, told with the source, what was asked and the status.
pub proof fn results_stand_in_tables(
    status: u16,
    shown: Seq<char>,
    body: Seq<char>,
    tables: Seq<html::TableView>,
    limit: nat,
)
    ensures
        200 <= status <= 299 && html::tables_of(
            body,
            "table.result-table"@,
            "tr"@,
            "td"@,
            "a[href]"@,
            "href"@,
        ) == Some(tables) ==> answered(status, shown, body, limit) == Ok::<
            Seq<sources::ResultView>,
            Seq<char>,
        >(found(tables, Seq::empty(), limit)),
        status < 200 || 300 <= status ==> answered(status, shown, body, limit) is Err && (
        "mutopia"@ + " "@ + "search"@ + " HTTP "@ + shown + ": "@).is_prefix_of(
            answered(status, shown, body, limit)->Err_0,
        ),
{
    download::answers_are_quoted("mutopia"@, "search"@, shown, body);
}

/// A piece is viewed at the address that its id stands for, and an id that
/// stands for none leads to the search.
pub proof fn pieces_are_viewed_at_their_address(m: Mutopia, url: Seq<char>, other: Seq<char>)
    ensures
        m.is_external_url(codec::url_id(url), url),
        m.is_external_url(codec::url_id(url), other) ==> codec::url_id(other) == codec::url_id(url),
        m.source_id() == "mutopia"@,
        search_page() == "https://www.mutopiaproject.org"@ + "/cgibin/make-table.cgi"@,
{
}

/// Each cell of the second row gives its badge or none, whatever the others
/// give: the instruments, the year and the style, in this order.
pub proof fn badges_are_told_cell_by_cell(
    rows: Seq<Seq<Seq<char>>>,
    inst: Seq<char>,
    first: Seq<sources::BadgeView>,
    second: Seq<sources::BadgeView>,
    third: Seq<sources::BadgeView>,
)
    requires
        rows.len() >= 2,
        rows[1].len() >= 3,
        inst.len() > 0,
        first == seq![sources::BadgeView { label: inst, kind: BadgeKind::Instrument }]
            && clean_cell(rows[1][0]) == "for "@ + inst || first.len() == 0 && !"for "@.is_prefix_of(
            clean_cell(rows[1][0]),
        ),
        second == (if is_told(rows[1][1]) {
            seq![sources::BadgeView { label: clean_cell(rows[1][1]), kind: BadgeKind::Year }]
        } else {
            Seq::empty()
        }),
        third == (if is_told(rows[1][2]) {
            seq![sources::BadgeView { label: clean_cell(rows[1][2]), kind: BadgeKind::Generic }]
        } else {
            Seq::empty()
        }),
    ensures
        badges_of(rows) == first + second + third,
{
    text::search::affixes_come_off("for "@, inst);
    assert(badges_of(rows) =~= first + second + third);
}

} // verus!
