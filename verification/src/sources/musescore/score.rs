//! Scores, as MuseScore's pages and page data describe them.

use crate::codec;
use crate::html;
use crate::html::Link;
use crate::json;
use crate::json::{Json, JsonView};
use crate::sources;
use crate::sources::{BadgeKind, Difficulty, MetadataBadge, SearchResult};
use crate::sources::musescore::page;
use crate::text;
use vstd::prelude::*;

verus! {

/// The most instruments that one score is labelled with.
pub const MAX_INSTRUMENTS: usize = 2;

/// A score that a search found.
#[derive(Debug)]
pub struct SearchScore {
    pub id: u64,
    pub title: String,
    pub composer_name: Option<String>,
    pub href: Option<String>,
    pub thumbnail_url: Option<String>,
    pub pages_count: Option<usize>,
    pub parts_count: Option<usize>,
    pub instrumentations: Vec<String>,
    /// 1 is beginner, 2 intermediate, 3 advanced.
    pub complexity: Option<u8>,
    pub is_public_domain: Option<bool>,
    pub is_official: Option<bool>,
}

/// The view of a [`SearchScore`].
pub struct ScoreView {
    pub id: u64,
    pub title: Seq<char>,
    pub composer_name: Option<Seq<char>>,
    pub href: Option<Seq<char>>,
    pub thumbnail_url: Option<Seq<char>>,
    pub pages_count: Option<usize>,
    pub parts_count: Option<usize>,
    pub instrumentations: Seq<Seq<char>>,
    pub complexity: Option<u8>,
    pub is_public_domain: Option<bool>,
    pub is_official: Option<bool>,
}

impl View for SearchScore {
    type V = ScoreView;

    open spec fn view(&self) -> ScoreView {
        ScoreView {
            id: self.id,
            title: self.title@,
            composer_name: text::view_opt(self.composer_name),
            href: text::view_opt(self.href),
            thumbnail_url: text::view_opt(self.thumbnail_url),
            pages_count: self.pages_count,
            parts_count: self.parts_count,
            instrumentations: text::views(self.instrumentations@),
            complexity: self.complexity,
            is_public_domain: self.is_public_domain,
            is_official: self.is_official,
        }
    }
}

/// The views of a list of scores.
pub open spec fn score_views(scores: Seq<SearchScore>) -> Seq<ScoreView> {
    scores.map_values(|s: SearchScore| s@)
}

/// The view of an optional list of scores.
pub open spec fn scores_view(r: Option<Vec<SearchScore>>) -> Option<Seq<ScoreView>> {
    match r {
        Some(scores) => Some(score_views(scores@)),
        None => None,
    }
}

/// A text, unless it is empty.
pub open spec fn if_nonempty(s: Option<Seq<char>>) -> Option<Seq<char>> {
    match s {
        Some(t) => if t.len() > 0 {
            Some(t)
        } else {
            None
        },
        None => None,
    }
}

/// The first of two options that is there.
pub open spec fn either<T>(a: Option<T>, b: Option<T>) -> Option<T> {
    if a is Some {
        a
    } else {
        b
    }
}

// ----- Looking through page data -----

/// The object is a score whose page count is known.
pub open spec fn own_pages(v: JsonView) -> Option<usize> {
    match json::unsigned_member(v, "pages_count"@) {
        Some(n) => if v.get("id"@) is Some && v.get("title"@) is Some {
            Some(n as usize)
        } else {
            None
        },
        None => None,
    }
}

/// The page count of the first score in a document, an object before its
/// members.
pub open spec fn pages_of(v: JsonView) -> Option<usize>
    decreases v,
{
    match v {
        JsonView::Object(members) => either(own_pages(v), pages_of_members(members)),
        JsonView::List(items) => pages_of_items(items),
        _ => None,
    }
}

pub open spec fn pages_of_members(members: Seq<(Seq<char>, JsonView)>) -> Option<usize>
    decreases members,
{
    if members.len() == 0 {
        None
    } else {
        either(pages_of(members[0].1), pages_of_members(members.subrange(1, members.len() as int)))
    }
}

pub open spec fn pages_of_items(items: Seq<JsonView>) -> Option<usize>
    decreases items,
{
    if items.len() == 0 {
        None
    } else {
        either(pages_of(items[0]), pages_of_items(items.subrange(1, items.len() as int)))
    }
}

/// The page count of the first score in a document.
pub fn find_pages_count(v: &Json) -> (r: Option<usize>)
    ensures
        r == pages_of(v@),
    decreases v,
{
    match v {
        Json::Object(members) => {
            if let Some(n) = v.unsigned_member("pages_count") {
                if v.get("id").is_some() && v.get("title").is_some() {
                    return Some(n as usize);
                }
            }
            let ghost all = v@->Object_0;
            assert(all.subrange(0, all.len() as int) =~= all);
            for i in 0..members.len()
                invariant
                    *v == Json::Object(*members),
                    all == v@->Object_0,
                    all.len() == members@.len(),
                    pages_of(v@) == pages_of_members(all.subrange(i as int, all.len() as int)),
            {
                let child = &members[i].1;
                let ghost rest = all.subrange(i as int, all.len() as int);
                assert(rest[0].1 == child@);
                assert(rest.subrange(1, rest.len() as int) =~= all.subrange(
                    i + 1,
                    all.len() as int,
                ));
                let found = find_pages_count(child);
                if found.is_some() {
                    return found;
                }
            }
            None
        },
        Json::List(items) => {
            let ghost all = v@->List_0;
            assert(all.subrange(0, all.len() as int) =~= all);
            for i in 0..items.len()
                invariant
                    *v == Json::List(*items),
                    all == v@->List_0,
                    all.len() == items@.len(),
                    pages_of(v@) == pages_of_items(all.subrange(i as int, all.len() as int)),
            {
                let child = &items[i];
                let ghost rest = all.subrange(i as int, all.len() as int);
                assert(rest[0] == child@);
                assert(rest.subrange(1, rest.len() as int) =~= all.subrange(
                    i + 1,
                    all.len() as int,
                ));
                let found = find_pages_count(child);
                if found.is_some() {
                    return found;
                }
            }
            None
        },
        _ => None,
    }
}

/// The list of scores that an object holds itself: its member `scores`, where
/// that is a list whose first item is an object with an id.
pub open spec fn own_scores(v: JsonView) -> Option<Seq<JsonView>> {
    match v.get("scores"@) {
        Some(s) => match s.list() {
            Some(items) => if items.len() > 0 && items[0].get("id"@) is Some {
                Some(items)
            } else {
                None
            },
            None => None,
        },
        None => None,
    }
}

/// The first list of scores in a document, an object before its members.
pub open spec fn scores_in(v: JsonView) -> Option<Seq<JsonView>>
    decreases v,
{
    match v {
        JsonView::Object(members) => either(own_scores(v), scores_in_members(members)),
        JsonView::List(items) => scores_in_items(items),
        _ => None,
    }
}

pub open spec fn scores_in_members(members: Seq<(Seq<char>, JsonView)>) -> Option<Seq<JsonView>>
    decreases members,
{
    if members.len() == 0 {
        None
    } else {
        either(
            scores_in(members[0].1),
            scores_in_members(members.subrange(1, members.len() as int)),
        )
    }
}

pub open spec fn scores_in_items(items: Seq<JsonView>) -> Option<Seq<JsonView>>
    decreases items,
{
    if items.len() == 0 {
        None
    } else {
        either(scores_in(items[0]), scores_in_items(items.subrange(1, items.len() as int)))
    }
}

fn own_score_list(v: &Json) -> (r: Option<&Vec<Json>>)
    ensures
        own_scores(v@) == (match r {
            Some(items) => Some(json::views(items@)),
            None => None,
        }),
{
    if let Some(s) = v.get("scores") {
        if let Some(items) = s.list() {
            if items.len() > 0 {
                assert(json::views(items@)[0] == items@[0]@);
                if items[0].get("id").is_some() {
                    return Some(items);
                }
            }
        }
    }
    None
}

/// The first list of scores in a document.
pub fn find_scores_array(v: &Json) -> (r: Option<&Vec<Json>>)
    ensures
        scores_in(v@) == (match r {
            Some(items) => Some(json::views(items@)),
            None => None,
        }),
    decreases v,
{
    match v {
        Json::Object(members) => {
            if let Some(items) = own_score_list(v) {
                return Some(items);
            }
            let ghost all = v@->Object_0;
            assert(all.subrange(0, all.len() as int) =~= all);
            for i in 0..members.len()
                invariant
                    *v == Json::Object(*members),
                    all == v@->Object_0,
                    all.len() == members@.len(),
                    scores_in(v@) == scores_in_members(all.subrange(i as int, all.len() as int)),
            {
                let child = &members[i].1;
                let ghost rest = all.subrange(i as int, all.len() as int);
                assert(rest[0].1 == child@);
                assert(rest.subrange(1, rest.len() as int) =~= all.subrange(
                    i + 1,
                    all.len() as int,
                ));
                if let Some(found) = find_scores_array(child) {
                    return Some(found);
                }
            }
            None
        },
        Json::List(items) => {
            let ghost all = v@->List_0;
            assert(all.subrange(0, all.len() as int) =~= all);
            for i in 0..items.len()
                invariant
                    *v == Json::List(*items),
                    all == v@->List_0,
                    all.len() == items@.len(),
                    scores_in(v@) == scores_in_items(all.subrange(i as int, all.len() as int)),
            {
                let child = &items[i];
                let ghost rest = all.subrange(i as int, all.len() as int);
                assert(rest[0] == child@);
                assert(rest.subrange(1, rest.len() as int) =~= all.subrange(
                    i + 1,
                    all.len() as int,
                ));
                if let Some(found) = find_scores_array(child) {
                    return Some(found);
                }
            }
            None
        },
        _ => None,
    }
}

// ----- Reading one score -----

/// The label of one instrument: a text, or the `name` or else the `title` of
/// an object; trimmed, and not empty.
pub open spec fn instrument_label(v: JsonView) -> Option<Seq<char>> {
    let raw = match v {
        JsonView::Text(s) => Some(s),
        JsonView::Object(_) => either(
            json::text_member(v, "name"@),
            json::text_member(v, "title"@),
        ),
        _ => None,
    };
    match raw {
        Some(s) => if_nonempty(Some(text::trim::trimmed(s))),
        None => None,
    }
}

/// The first `max` labels of a list of instruments.
pub open spec fn instrument_labels(items: Seq<JsonView>, max: nat) -> Seq<Seq<char>>
    decreases items.len(),
{
    if items.len() == 0 || max == 0 {
        Seq::empty()
    } else {
        match instrument_label(items[0]) {
            Some(l) => seq![l] + instrument_labels(items.drop_first(), (max - 1) as nat),
            None => instrument_labels(items.drop_first(), max),
        }
    }
}

/// The labels of a score's instruments.
pub open spec fn instrumentations_of(v: Option<JsonView>) -> Seq<Seq<char>> {
    match v {
        Some(v) => match v.list() {
            Some(items) => instrument_labels(items, MAX_INSTRUMENTS as nat),
            None => Seq::empty(),
        },
        None => Seq::empty(),
    }
}

/// The preview image of a score, from the first of several fields that holds
/// a text.
pub open spec fn thumbnail_of(v: JsonView) -> Option<Seq<char>> {
    let sized = match v.get("thumbnails"@) {
        Some(t) => match either(
            t.get("original"@),
            either(t.get("large"@), either(t.get("medium"@), t.get("small"@))),
        ) {
            Some(x) => x.text(),
            None => None,
        },
        None => None,
    };
    if_nonempty(
        either(
            sized,
            either(
                json::text_member(v, "share_pic_url"@),
                either(
                    json::text_member(v, "share_pic"@),
                    either(
                        json::text_member(v, "cover_pic"@),
                        json::text_member(v, "thumbnail_url"@),
                    ),
                ),
            ),
        ),
    )
}

/// A count, as a `usize`.
pub open spec fn count_member(v: JsonView, key: Seq<char>) -> Option<usize> {
    match json::unsigned_member(v, key) {
        Some(n) => Some(n as usize),
        None => None,
    }
}

/// A text with its entities decoded, unless it is empty.
pub open spec fn decoded_member(v: JsonView, key: Seq<char>) -> Option<Seq<char>> {
    match if_nonempty(json::text_member(v, key)) {
        Some(s) => Some(html::unescaped(s)),
        None => None,
    }
}

/// The score that an object of the page data describes; none without an id
/// and a title.
pub open spec fn score_of(v: JsonView) -> Option<ScoreView> {
    match (json::unsigned_member(v, "id"@), json::text_member(v, "title"@)) {
        (Some(id), Some(title)) => Some(
            ScoreView {
                id,
                title: html::unescaped(title),
                composer_name: decoded_member(v, "composer_name"@),
                href: if_nonempty(json::text_member(v, "href"@)),
                thumbnail_url: thumbnail_of(v),
                pages_count: count_member(v, "pages_count"@),
                parts_count: count_member(v, "parts_count"@),
                instrumentations: instrumentations_of(v.get("instrumentations"@)),
                complexity: match json::unsigned_member(v, "complexity"@) {
                    Some(n) => if 1 <= n <= 3 {
                        Some(n as u8)
                    } else {
                        None
                    },
                    None => None,
                },
                is_public_domain: match json::unsigned_member(v, "is_public_domain"@) {
                    Some(n) => Some(n != 0),
                    None => None,
                },
                is_official: match v.get("is_official"@) {
                    Some(b) => b.boolean(),
                    None => None,
                },
            },
        ),
        _ => None,
    }
}

/// The scores of a list; none where one of its items is no score.
pub open spec fn scores_of(items: Seq<JsonView>) -> Option<Seq<ScoreView>>
    decreases items.len(),
{
    if items.len() == 0 {
        Some(Seq::empty())
    } else {
        match (scores_of(items.drop_last()), score_of(items.last())) {
            (Some(before), Some(s)) => Some(before.push(s)),
            _ => None,
        }
    }
}

fn label_of(v: &Json) -> (r: Option<String>)
    ensures
        text::view_opt(r) == instrument_label(v@),
{
    let raw = match v {
        Json::Text(s) => Some(s.as_str()),
        Json::Object(_) => match v.text_member("name") {
            Some(s) => Some(s),
            None => v.text_member("title"),
        },
        _ => None,
    };
    match raw {
        Some(s) => {
            let label = text::trim::trim(s);
            if text::is_empty(label.as_str()) {
                None
            } else {
                Some(label)
            }
        },
        None => None,
    }
}

/// The labels of a score's instruments, at most [`MAX_INSTRUMENTS`].
pub fn extract_instrumentations(v: Option<&Json>) -> (out: Vec<String>)
    ensures
        text::views(out@) == instrumentations_of(json::view_opt(v)),
{
    let mut out: Vec<String> = Vec::new();
    assert(text::views(out@) =~= Seq::<Seq<char>>::empty());
    let items = match v {
        Some(v) => match v.list() {
            Some(items) => items,
            None => {
                return out;
            },
        },
        None => {
            return out;
        },
    };
    let ghost all = json::views(items@);
    let ghost goal = instrument_labels(all, MAX_INSTRUMENTS as nat);
    assert(all.skip(0) =~= all);
    assert(text::views(out@) + goal =~= goal);
    for i in 0..items.len()
        invariant
            all == json::views(items@),
            goal == instrumentations_of(json::view_opt(v)),
            out@.len() <= MAX_INSTRUMENTS,
            goal == text::views(out@) + instrument_labels(
                all.skip(i as int),
                (MAX_INSTRUMENTS - out@.len()) as nat,
            ),
    {
        let ghost done = text::views(out@);
        if out.len() >= MAX_INSTRUMENTS {
            assert(goal =~= done);
            return out;
        }
        assert(all.skip(i as int)[0] == items@[i as int]@);
        assert(all.skip(i as int).drop_first() =~= all.skip(i + 1));
        if let Some(label) = label_of(&items[i]) {
            let ghost l = label@;
            out.push(label);
            assert(text::views(out@) =~= done + seq![l]);
            let ghost rest = instrument_labels(
                all.skip(i + 1),
                (MAX_INSTRUMENTS - out@.len()) as nat,
            );
            assert(done + (seq![l] + rest) =~= text::views(out@) + rest);
        }
    }
    assert(goal =~= text::views(out@));
    out
}

/// An owned text, unless it is empty.
fn owned_nonempty(s: Option<&str>) -> (r: Option<String>)
    ensures
        text::view_opt(r) == if_nonempty(
            match s {
                Some(t) => Some(t@),
                None => None,
            },
        ),
{
    match s {
        Some(t) => if text::is_empty(t) {
            None
        } else {
            Some(text::owned(t))
        },
        None => None,
    }
}

fn sized_thumbnail(t: &Json) -> (r: Option<&str>)
    ensures
        (match r {
            Some(s) => Some(s@),
            None => None,
        }) == (match either(
            t@.get("original"@),
            either(t@.get("large"@), either(t@.get("medium"@), t@.get("small"@))),
        ) {
            Some(x) => x.text(),
            None => None,
        }),
{
    if let Some(x) = t.get("original") {
        return x.text();
    }
    if let Some(x) = t.get("large") {
        return x.text();
    }
    if let Some(x) = t.get("medium") {
        return x.text();
    }
    match t.get("small") {
        Some(x) => x.text(),
        None => None,
    }
}

fn raw_thumbnail(v: &Json) -> (r: Option<&str>)
    ensures
        if_nonempty(
            match r {
                Some(s) => Some(s@),
                None => None,
            },
        ) == thumbnail_of(v@),
{
    let sized = match v.get("thumbnails") {
        Some(t) => sized_thumbnail(t),
        None => None,
    };
    if sized.is_some() {
        return sized;
    }
    let share_pic_url = v.text_member("share_pic_url");
    if share_pic_url.is_some() {
        return share_pic_url;
    }
    let share_pic = v.text_member("share_pic");
    if share_pic.is_some() {
        return share_pic;
    }
    let cover_pic = v.text_member("cover_pic");
    if cover_pic.is_some() {
        return cover_pic;
    }
    v.text_member("thumbnail_url")
}

fn count(v: &Json, key: &str) -> (r: Option<usize>)
    ensures
        r == count_member(v@, key@),
{
    match v.unsigned_member(key) {
        Some(n) => Some(n as usize),
        None => None,
    }
}

fn decoded(v: &Json, key: &str) -> (r: Option<String>)
    ensures
        text::view_opt(r) == decoded_member(v@, key@),
{
    match owned_nonempty(v.text_member(key)) {
        Some(s) => Some(page::html_unescape(s.as_str())),
        None => None,
    }
}

/// The score that an object of the page data describes.
pub fn read_score(v: &Json) -> (r: Option<SearchScore>)
    ensures
        score_of(v@) == (match r {
            Some(s) => Some(s@),
            None => None,
        }),
{
    let id = match v.unsigned_member("id") {
        Some(id) => id,
        None => {
            return None;
        },
    };
    let title = match v.text_member("title") {
        Some(t) => page::html_unescape(t),
        None => {
            return None;
        },
    };
    let complexity = match v.unsigned_member("complexity") {
        Some(n) => if 1 <= n && n <= 3 {
            Some(n as u8)
        } else {
            None
        },
        None => None,
    };
    let is_public_domain = match v.unsigned_member("is_public_domain") {
        Some(n) => Some(n != 0),
        None => None,
    };
    let is_official = match v.get("is_official") {
        Some(b) => b.boolean(),
        None => None,
    };
    Some(
        SearchScore {
            id,
            title,
            composer_name: decoded(v, "composer_name"),
            href: owned_nonempty(v.text_member("href")),
            thumbnail_url: owned_nonempty(raw_thumbnail(v)),
            pages_count: count(v, "pages_count"),
            parts_count: count(v, "parts_count"),
            instrumentations: extract_instrumentations(v.get("instrumentations")),
            complexity,
            is_public_domain,
            is_official,
        },
    )
}

/// The scores of a list; `None` where one of its items is no score.
pub fn read_scores(items: &Vec<Json>) -> (r: Option<Vec<SearchScore>>)
    ensures
        scores_view(r) == scores_of(json::views(items@)),
{
    let mut out: Vec<SearchScore> = Vec::new();
    let ghost all = json::views(items@);
    assert(score_views(out@) =~= Seq::<ScoreView>::empty());
    for i in 0..items.len()
        invariant
            all == json::views(items@),
            scores_of(all.take(i as int)) == Some(score_views(out@)),
    {
        let ghost before = score_views(out@);
        assert(all.take(i + 1).drop_last() =~= all.take(i as int));
        assert(all.take(i + 1).last() == items@[i as int]@);
        match read_score(&items[i]) {
            Some(s) => {
                let ghost v = s@;
                out.push(s);
                assert(score_views(out@) =~= before.push(v));
            },
            None => {
                proof {
                    no_scores(all, i + 1);
                }
                return None;
            },
        }
    }
    assert(all.take(all.len() as int) =~= all);
    Some(out)
}

/// Where the front part of a list is no list of scores, the list is none.
proof fn no_scores(items: Seq<JsonView>, n: int)
    requires
        0 <= n <= items.len(),
        scores_of(items.take(n)) is None,
    ensures
        scores_of(items) is None,
    decreases items.len(),
{
    if n < items.len() {
        assert(items.drop_last().take(n) =~= items.take(n));
        no_scores(items.drop_last(), n);
    } else {
        assert(items.take(n) =~= items);
    }
}

// ----- Page data -----

/// The document in the data of a page.
pub open spec fn page_data(html: Seq<char>) -> Option<JsonView> {
    match page::hydration(html) {
        Some(raw) => json::parsed(raw),
        None => None,
    }
}

fn read_page_data(html: &str) -> (r: Option<Json>)
    ensures
        page_data(html@) == (match r {
            Some(j) => Some(j@),
            None => None,
        }),
{
    match page::find_hydration_json(html) {
        Some(raw) => json::parse(raw.as_str()),
        None => None,
    }
}

/// The scores in the data of a page.
pub open spec fn data_scores(data: JsonView) -> Option<Seq<ScoreView>> {
    match scores_in(data) {
        Some(items) => scores_of(items),
        None => None,
    }
}

/// The scores in a document of page data.
pub fn read_data_scores(data: &Json) -> (r: Option<Vec<SearchScore>>)
    ensures
        scores_view(r) == data_scores(data@),
{
    match find_scores_array(data) {
        Some(items) => read_scores(items),
        None => None,
    }
}

/// The scores in the data of a search page.
pub fn extract_search_scores(html: &str) -> (r: Option<Vec<SearchScore>>)
    ensures
        scores_view(r) == (match page_data(html@) {
            Some(data) => data_scores(data),
            None => None,
        }),
{
    match read_page_data(html) {
        Some(data) => read_data_scores(&data),
        None => None,
    }
}

/// What the data of a score page says of the score.
#[derive(Debug, Clone, Copy, PartialEq, Eq, Structural)]
pub struct ScoreMeta {
    pub pages_count: Option<usize>,
}

/// What the data of a score page says of the score; `None` where the page has
/// no data.
pub fn extract_score_meta(html: &str) -> (r: Option<ScoreMeta>)
    ensures
        r == (match page_data(html@) {
            Some(data) => Some(ScoreMeta { pages_count: pages_of(data) }),
            None => None,
        }),
{
    match read_page_data(html) {
        Some(data) => Some(ScoreMeta { pages_count: find_pages_count(&data) }),
        None => None,
    }
}

/// The page count of a score page: from its data, or else from the raw field
/// in its text.
pub open spec fn page_count_of(data: Option<JsonView>, html: Seq<char>) -> Option<nat> {
    let from_data = match data {
        Some(d) => pages_of(d),
        None => None,
    };
    match from_data {
        Some(n) => Some(n as nat),
        None => page::pages_in(html),
    }
}

/// The page count of a score page.
pub fn extract_pages_count(html: &str) -> (r: Option<usize>)
    ensures
        page_count_of(page_data(html@), html@) == (match r {
            Some(n) => Some(n as nat),
            None => None,
        }),
{
    if let Some(meta) = extract_score_meta(html) {
        if let Some(n) = meta.pages_count {
            return Some(n);
        }
    }
    page::find_pages_count_regex(html)
}

// ----- Scores as links of a page -----

/// The title of a linked score: what its image is called, or else the text of
/// the link; trimmed.
pub open spec fn link_title(link: html::LinkView) -> Seq<char> {
    let alt = match link.image {
        Some(image) => match image.alt {
            Some(a) => if_nonempty(Some(text::trim::trimmed(a))),
            None => None,
        },
        None => None,
    };
    match alt {
        Some(a) => a,
        None => text::trim::trimmed(link.text),
    }
}

/// The score that a link with this id leads to.
pub open spec fn linked_score(link: html::LinkView, id: u64) -> ScoreView {
    ScoreView {
        id,
        title: html::unescaped(link_title(link)),
        composer_name: None,
        href: link.href,
        thumbnail_url: match link.image {
            Some(image) => if_nonempty(image.src),
            None => None,
        },
        pages_count: None,
        parts_count: None,
        instrumentations: Seq::empty(),
        complexity: None,
        is_public_domain: None,
        is_official: None,
    }
}

/// The id of the score that a link leads to.
pub open spec fn link_id(link: html::LinkView) -> Option<u64> {
    match link.href {
        Some(href) => match page::score_id(href) {
            Some(n) => Some(n as u64),
            None => None,
        },
        None => None,
    }
}

/// The scores that `links` lead to, in order. A link to a score in `seen`, or
/// to that of an earlier link, gives none; nor does one without a title.
pub open spec fn linked_scores(links: Seq<html::LinkView>, seen: Seq<u64>) -> Seq<ScoreView>
    decreases links.len(),
{
    if links.len() == 0 {
        Seq::empty()
    } else {
        let rest = links.drop_first();
        match link_id(links[0]) {
            None => linked_scores(rest, seen),
            Some(id) => if seen.contains(id) {
                linked_scores(rest, seen)
            } else if link_title(links[0]).len() == 0 {
                linked_scores(rest, seen.push(id))
            } else {
                seq![linked_score(links[0], id)] + linked_scores(rest, seen.push(id))
            },
        }
    }
}

/// The scores of a list, unless it is empty.
pub open spec fn if_any(scores: Seq<ScoreView>) -> Option<Seq<ScoreView>> {
    if scores.len() == 0 {
        None
    } else {
        Some(scores)
    }
}

fn among_ids(ids: &Vec<u64>, id: u64) -> (b: bool)
    ensures
        b == ids@.contains(id),
{
    for i in 0..ids.len()
        invariant
            forall|j: int| 0 <= j < i ==> ids@[j] != id,
    {
        if ids[i] == id {
            return true;
        }
    }
    false
}

fn title_of_link(link: &Link) -> (out: String)
    ensures
        out@ == link_title(link@),
{
    if let Some(image) = &link.image {
        if let Some(alt) = &image.alt {
            let alt = text::trim::trim(alt.as_str());
            if !text::is_empty(alt.as_str()) {
                return alt;
            }
        }
    }
    text::trim::trim(link.text.as_str())
}

fn id_of_link(link: &Link) -> (r: Option<u64>)
    ensures
        r == link_id(link@),
{
    match &link.href {
        Some(href) => page::parse_score_id_from_url(href.as_str()),
        None => None,
    }
}

fn score_of_link(link: &Link, id: u64, title: &str) -> (s: SearchScore)
    requires
        title@ == link_title(link@),
    ensures
        s@ == linked_score(link@, id),
{
    let href = match &link.href {
        Some(h) => Some(text::owned(h.as_str())),
        None => None,
    };
    let thumbnail_url = match &link.image {
        Some(image) => match &image.src {
            Some(src) => owned_nonempty(Some(src.as_str())),
            None => None,
        },
        None => None,
    };
    let instrumentations: Vec<String> = Vec::new();
    assert(text::views(instrumentations@) =~= Seq::<Seq<char>>::empty());
    SearchScore {
        id,
        title: page::html_unescape(title),
        composer_name: None,
        href,
        thumbnail_url,
        pages_count: None,
        parts_count: None,
        instrumentations,
        complexity: None,
        is_public_domain: None,
        is_official: None,
    }
}

/// The scores that the links of a page lead to; `None` where there are none.
pub fn read_linked_scores(links: &Vec<Link>) -> (r: Option<Vec<SearchScore>>)
    ensures
        scores_view(r) == if_any(linked_scores(html::link_views(links@), Seq::empty())),
{
    let mut out: Vec<SearchScore> = Vec::new();
    let mut seen: Vec<u64> = Vec::new();
    let ghost all = html::link_views(links@);
    let ghost goal = linked_scores(all, Seq::empty());
    assert(all.skip(0) =~= all);
    assert(seen@ =~= Seq::<u64>::empty());
    assert(score_views(out@) =~= Seq::<ScoreView>::empty());
    assert(score_views(out@) + goal =~= goal);
    for i in 0..links.len()
        invariant
            all == html::link_views(links@),
            goal == score_views(out@) + linked_scores(all.skip(i as int), seen@),
    {
        let ghost done = score_views(out@);
        let link = &links[i];
        assert(all.skip(i as int)[0] == link@);
        assert(all.skip(i as int).drop_first() =~= all.skip(i + 1));
        if let Some(id) = id_of_link(link) {
            if !among_ids(&seen, id) {
                seen.push(id);
                let title = title_of_link(link);
                if !text::is_empty(title.as_str()) {
                    let s = score_of_link(link, id, title.as_str());
                    let ghost v = s@;
                    out.push(s);
                    assert(score_views(out@) =~= done + seq![v]);
                    let ghost rest = linked_scores(all.skip(i + 1), seen@);
                    assert(done + (seq![v] + rest) =~= score_views(out@) + rest);
                }
            }
        }
    }
    assert(goal =~= score_views(out@));
    if out.len() == 0 {
        None
    } else {
        Some(out)
    }
}

/// The scores that a search page links to.
pub fn extract_search_scores_from_dom(html: &str) -> (r: Option<Vec<SearchScore>>)
    ensures
        scores_view(r) == (match html::links_of(html@, "a[href*=\"/scores/\"]"@, "img"@) {
            Some(links) => if_any(linked_scores(links, Seq::empty())),
            None => None,
        }),
{
    match html::select_links(html, "a[href*=\"/scores/\"]", "img") {
        Some(links) => read_linked_scores(&links),
        None => None,
    }
}

/// No score is given twice, none is one of `seen`, and each has the id in its
/// address.
pub proof fn linked_scores_are_distinct(links: Seq<html::LinkView>, seen: Seq<u64>)
    ensures
        forall|i: int|
            0 <= i < linked_scores(links, seen).len() ==> {
                let s = #[trigger] linked_scores(links, seen)[i];
                &&& !seen.contains(s.id)
                &&& s.href is Some
                &&& page::score_id(s.href->0) == Some(s.id as nat)
            },
        forall|i: int, j: int|
            0 <= i < j < linked_scores(links, seen).len() ==> (#[trigger] linked_scores(
                links,
                seen,
            )[i]).id != (#[trigger] linked_scores(links, seen)[j]).id,
    decreases links.len(),
{
    if links.len() > 0 {
        let rest = links.drop_first();
        match link_id(links[0]) {
            None => linked_scores_are_distinct(rest, seen),
            Some(id) => if seen.contains(id) {
                linked_scores_are_distinct(rest, seen)
            } else {
                let more = seen.push(id);
                assert(more[seen.len() as int] == id);
                assert forall|x: u64| !more.contains(x) implies !seen.contains(x) && x != id by {
                    if seen.contains(x) {
                        let k = choose|k: int| 0 <= k < seen.len() && seen[k] == x;
                        assert(more[k] == x);
                    }
                }
                linked_scores_are_distinct(rest, more);
                if link_title(links[0]).len() > 0 {
                    let s = linked_score(links[0], id);
                    let tail = linked_scores(rest, more);
                    assert(linked_scores(links, seen) == seq![s] + tail);
                    assert forall|i: int| 0 < i < (seq![s] + tail).len() implies (#[trigger] (
                    seq![s] + tail)[i]) == tail[i - 1] by {}
                }
            },
        }
    }
}

// ----- Results -----

/// The label for a page count.
pub open spec fn pages_label(n: usize) -> Seq<char> {
    if n == 1 {
        "1 page"@
    } else {
        text::number::decimal(n as nat) + " pages"@
    }
}

/// The badges of a list of instruments.
pub open spec fn instrument_badges(labels: Seq<Seq<char>>) -> Seq<sources::BadgeView> {
    labels.map_values(
        |l: Seq<char>| sources::BadgeView { label: l, kind: BadgeKind::Instrument },
    )
}

/// The difficulty that a complexity stands for.
pub open spec fn difficulty_label(complexity: u8) -> Option<Seq<char>> {
    if complexity == 1 {
        Some("Beginner"@)
    } else if complexity == 2 {
        Some("Intermediate"@)
    } else if complexity == 3 {
        Some("Advanced"@)
    } else {
        None
    }
}

/// The badges of a score: pages, parts, instruments, difficulty.
pub open spec fn badges_of(s: ScoreView) -> Seq<sources::BadgeView> {
    let pages = match s.pages_count {
        Some(n) => if n > 0 {
            seq![sources::BadgeView { label: pages_label(n), kind: BadgeKind::Pages }]
        } else {
            Seq::empty()
        },
        None => Seq::empty(),
    };
    let parts = match s.parts_count {
        Some(n) => if n > 1 {
            seq![
                sources::BadgeView {
                    label: text::number::decimal(n as nat) + " parts"@,
                    kind: BadgeKind::Generic,
                },
            ]
        } else {
            Seq::empty()
        },
        None => Seq::empty(),
    };
    let level = match s.complexity {
        Some(c) => match difficulty_label(c) {
            Some(l) => seq![sources::BadgeView { label: l, kind: BadgeKind::Difficulty }],
            None => Seq::empty(),
        },
        None => Seq::empty(),
    };
    pages + parts + instrument_badges(s.instrumentations) + level
}

/// The address of a score.
pub open spec fn score_url(id: Seq<char>) -> Seq<char> {
    "https://musescore.com/score/"@ + id
}

/// The result for a score.
pub open spec fn result_of(s: ScoreView) -> sources::ResultView {
    sources::ResultView {
        source: "musescore"@,
        id: text::number::decimal(s.id as nat),
        title: page::without_markers(s.title),
        description: s.composer_name,
        external_url: match s.href {
            Some(h) => h,
            None => score_url(text::number::decimal(s.id as nat)),
        },
        thumbnail_url: s.thumbnail_url,
        metadata: badges_of(s),
        complexity: s.complexity,
        is_public_domain: s.is_public_domain,
        is_official: s.is_official,
    }
}

/// The results for the first `limit` scores.
pub open spec fn results_of(scores: Seq<ScoreView>, limit: nat) -> Seq<sources::ResultView> {
    (if scores.len() <= limit {
        scores
    } else {
        scores.take(limit as int)
    }).map_values(|s: ScoreView| result_of(s))
}

fn push_badge(badges: &mut Vec<MetadataBadge>, label: String, kind: BadgeKind)
    ensures
        sources::badge_views(final(badges)@) == sources::badge_views(old(badges)@).push(
            sources::BadgeView { label: label@, kind },
        ),
{
    let ghost before = sources::badge_views(badges@);
    let ghost l = label@;
    badges.push(MetadataBadge { label, kind });
    assert(sources::badge_views(badges@) =~= before.push(sources::BadgeView { label: l, kind }));
}

fn badges(s: &SearchScore) -> (out: Vec<MetadataBadge>)
    ensures
        sources::badge_views(out@) == badges_of(s@),
{
    let mut out: Vec<MetadataBadge> = Vec::new();
    assert(sources::badge_views(out@) =~= Seq::<sources::BadgeView>::empty());
    if let Some(n) = s.pages_count {
        if n > 0 {
            let label = if n == 1 {
                text::owned("1 page")
            } else {
                text::concat(text::number::to_decimal(n as u64).as_str(), " pages")
            };
            push_badge(&mut out, label, BadgeKind::Pages);
        }
    }
    if let Some(n) = s.parts_count {
        if n > 1 {
            let label = text::concat(text::number::to_decimal(n as u64).as_str(), " parts");
            push_badge(&mut out, label, BadgeKind::Generic);
        }
    }
    let ghost before = sources::badge_views(out@);
    let ghost labels = text::views(s.instrumentations@);
    assert(instrument_badges(labels.take(0)) =~= Seq::<sources::BadgeView>::empty());
    assert(before + instrument_badges(labels.take(0)) =~= before);
    for i in 0..s.instrumentations.len()
        invariant
            labels == text::views(s.instrumentations@),
            sources::badge_views(out@) == before + instrument_badges(labels.take(i as int)),
    {
        push_badge(&mut out, text::owned(s.instrumentations[i].as_str()), BadgeKind::Instrument);
        assert(instrument_badges(labels.take(i + 1)) =~= instrument_badges(
            labels.take(i as int),
        ).push(
            sources::BadgeView { label: labels[i as int], kind: BadgeKind::Instrument },
        ));
        assert(sources::badge_views(out@) =~= before + instrument_badges(labels.take(i + 1)));
    }
    assert(labels.take(labels.len() as int) =~= labels);
    if let Some(c) = s.complexity {
        if let Some(level) = Difficulty::from_complexity(c) {
            push_badge(&mut out, text::owned(level.display()), BadgeKind::Difficulty);
        }
    }
    assert(sources::badge_views(out@) =~= badges_of(s@));
    out
}

/// The result for a score.
pub fn score_result(s: &SearchScore) -> (r: SearchResult)
    ensures
        r@ == result_of(s@),
        codec::path_safe(r.id@),
{
    let id = text::number::to_decimal(s.id);
    proof {
        text::number::decimal_is_digits(s.id as nat);
        assert forall|i: int| 0 <= i < id@.len() implies codec::is_base64url_char(
            #[trigger] id@[i],
        ) by {
            assert(text::is_digit(id@[i]));
        }
        codec::url_safe_is_path_safe(id@);
    }
    let external_url = match &s.href {
        Some(h) => text::owned(h.as_str()),
        None => text::concat("https://musescore.com/score/", id.as_str()),
    };
    let description = match &s.composer_name {
        Some(c) => Some(text::owned(c.as_str())),
        None => None,
    };
    let thumbnail_url = match &s.thumbnail_url {
        Some(t) => Some(text::owned(t.as_str())),
        None => None,
    };
    SearchResult {
        source: text::owned("musescore"),
        id,
        title: page::strip_highlight_markers(s.title.as_str()),
        description,
        external_url,
        thumbnail_url,
        metadata: badges(s),
        complexity: s.complexity,
        is_public_domain: s.is_public_domain,
        is_official: s.is_official,
    }
}

/// The results for the first `limit` scores.
pub fn score_results(scores: &Vec<SearchScore>, limit: usize) -> (out: Vec<SearchResult>)
    ensures
        sources::result_views(out@) == results_of(score_views(scores@), limit as nat),
        sources::ids_are_path_safe(out@),
{
    let n: usize = if scores.len() <= limit {
        scores.len()
    } else {
        limit
    };
    let mut out: Vec<SearchResult> = Vec::new();
    let ghost all = score_views(scores@);
    assert(sources::result_views(out@) =~= all.take(0).map_values(|s: ScoreView| result_of(s)));
    for i in 0..n
        invariant
            n <= scores@.len(),
            all == score_views(scores@),
            sources::ids_are_path_safe(out@),
            sources::result_views(out@) == all.take(i as int).map_values(
                |s: ScoreView| result_of(s),
            ),
    {
        let ghost before = sources::result_views(out@);
        let r = score_result(&scores[i]);
        let ghost v = r@;
        out.push(r);
        assert(sources::result_views(out@) =~= before.push(v));
        assert(all.take(i + 1).map_values(|s: ScoreView| result_of(s)) =~= before.push(v));
    }
    assert(all.take(all.len() as int) =~= all);
    out
}

// ----- Which score is meant -----

/// The first of a list of documents that holds a score with a page count
/// decides, whatever stands behind it; where none holds one, there is no page
/// count.
pub proof fn first_item_decides_the_pages(items: Seq<JsonView>)
    ensures
        forall|k: int|
            0 <= k < items.len() && pages_of(#[trigger] items[k]) is Some && (forall|j: int|
                0 <= j < k ==> pages_of(#[trigger] items[j]) is None) ==> pages_of(
                JsonView::List(items),
            ) == pages_of(items[k]),
        (forall|k: int| 0 <= k < items.len() ==> pages_of(#[trigger] items[k]) is None)
            ==> pages_of(JsonView::List(items)) is None,
    decreases items.len(),
{
    if items.len() > 0 {
        let rest = items.subrange(1, items.len() as int);
        first_item_decides_the_pages(rest);
        assert(pages_of(JsonView::List(rest)) == pages_of_items(rest));
        assert forall|k: int|
            0 <= k < items.len() && pages_of(#[trigger] items[k]) is Some && (forall|j: int|
                0 <= j < k ==> pages_of(#[trigger] items[j]) is None) implies pages_of(
            JsonView::List(items),
        ) == pages_of(items[k]) by {
            if k > 0 {
                assert(pages_of(items[0]) is None);
                assert(rest[k - 1] == items[k]);
                assert forall|j: int| 0 <= j < k - 1 implies pages_of(#[trigger] rest[j]) is None by {
                    assert(rest[j] == items[j + 1]);
                }
            }
        }
        if forall|k: int| 0 <= k < items.len() ==> pages_of(#[trigger] items[k]) is None {
            assert(pages_of(items[0]) is None);
            assert forall|j: int| 0 <= j < rest.len() implies pages_of(#[trigger] rest[j]) is None by {
                assert(rest[j] == items[j + 1]);
            }
        }
    }
}

/// What the front part of a list says of the page count stands, whatever is
/// put behind it; what is behind counts only where the front says nothing.
pub proof fn pages_of_lists_put_together(a: Seq<JsonView>, b: Seq<JsonView>)
    ensures
        pages_of(JsonView::List(a)) is Some ==> pages_of(JsonView::List(a + b)) == pages_of(
            JsonView::List(a),
        ),
        pages_of(JsonView::List(a)) is None ==> pages_of(JsonView::List(a + b)) == pages_of(
            JsonView::List(b),
        ),
    decreases a.len(),
{
    if a.len() == 0 {
        assert(a + b =~= b);
    } else {
        let rest = a.subrange(1, a.len() as int);
        let both = a + b;
        assert(both[0] == a[0]);
        assert(both.subrange(1, both.len() as int) =~= rest + b);
        pages_of_lists_put_together(rest, b);
    }
}

/// An object that has an id, a title and a page count is a score, and its page
/// count is the one, whatever its members hold.
pub proof fn scores_have_their_own_pages(v: JsonView, n: u64)
    requires
        v.get("id"@) is Some,
        v.get("title"@) is Some,
        v.get("pages_count"@) == Some(JsonView::Unsigned(n)),
    ensures
        pages_of(v) == Some(n as usize),
{
}

/// In an object that lacks an id, a title or a page count of its own the first
/// member that holds a score with a page count decides; where none does, there
/// is no page count.
pub proof fn first_member_decides_the_pages(members: Seq<(Seq<char>, JsonView)>)
    requires
        ({
            let v = JsonView::Object(members);
            ||| v.get("id"@) is None
            ||| v.get("title"@) is None
            ||| !(v.get("pages_count"@) matches Some(JsonView::Unsigned(_)))
        }),
    ensures
        forall|k: int|
            0 <= k < members.len() && pages_of((#[trigger] members[k]).1) is Some && (forall|
                j: int,
            |
                0 <= j < k ==> pages_of((#[trigger] members[j]).1) is None) ==> pages_of(
                JsonView::Object(members),
            ) == pages_of(members[k].1),
        (forall|k: int| 0 <= k < members.len() ==> pages_of((#[trigger] members[k]).1) is None)
            ==> pages_of(JsonView::Object(members)) is None,
{
    members_decide_the_pages(members);
}

proof fn members_decide_the_pages(members: Seq<(Seq<char>, JsonView)>)
    ensures
        forall|k: int|
            0 <= k < members.len() && pages_of((#[trigger] members[k]).1) is Some && (forall|
                j: int,
            |
                0 <= j < k ==> pages_of((#[trigger] members[j]).1) is None) ==> pages_of_members(
                members,
            ) == pages_of(members[k].1),
        (forall|k: int| 0 <= k < members.len() ==> pages_of((#[trigger] members[k]).1) is None)
            ==> pages_of_members(members) is None,
    decreases members.len(),
{
    if members.len() > 0 {
        let rest = members.subrange(1, members.len() as int);
        members_decide_the_pages(rest);
        assert forall|k: int|
            0 <= k < members.len() && pages_of((#[trigger] members[k]).1) is Some && (forall|
                j: int,
            |
                0 <= j < k ==> pages_of((#[trigger] members[j]).1) is None) implies pages_of_members(
            members,
        ) == pages_of(members[k].1) by {
            if k > 0 {
                assert(pages_of(members[0].1) is None);
                assert(rest[k - 1] == members[k]);
                assert forall|j: int| 0 <= j < k - 1 implies pages_of(
                    (#[trigger] rest[j]).1,
                ) is None by {
                    assert(rest[j] == members[j + 1]);
                }
            }
        }
        if forall|k: int| 0 <= k < members.len() ==> pages_of((#[trigger] members[k]).1) is None {
            assert(pages_of(members[0].1) is None);
            assert forall|j: int| 0 <= j < rest.len() implies pages_of(
                (#[trigger] rest[j]).1,
            ) is None by {
                assert(rest[j] == members[j + 1]);
            }
        }
    }
}

/// What the first members of an object say of the page count stands, whatever
/// members come behind them, where the object is no score itself.
pub proof fn pages_of_members_put_together(
    a: Seq<(Seq<char>, JsonView)>,
    b: Seq<(Seq<char>, JsonView)>,
)
    requires
        JsonView::Object(a).get("pages_count"@) is None,
        JsonView::Object(a + b).get("pages_count"@) is None,
        pages_of(JsonView::Object(a)) is Some,
    ensures
        pages_of(JsonView::Object(a + b)) == pages_of(JsonView::Object(a)),
{
    front_members_decide(a, b);
}

proof fn front_members_decide(a: Seq<(Seq<char>, JsonView)>, b: Seq<(Seq<char>, JsonView)>)
    requires
        pages_of_members(a) is Some,
    ensures
        pages_of_members(a + b) == pages_of_members(a),
    decreases a.len(),
{
    let both = a + b;
    assert(both[0] == a[0]);
    assert(both.subrange(1, both.len() as int) =~= a.subrange(1, a.len() as int) + b);
    if pages_of(a[0].1) is None {
        front_members_decide(a.subrange(1, a.len() as int), b);
    }
}

/// A text, a number or a truth value holds no score.
pub proof fn plain_values_hold_no_score(v: JsonView)
    requires
        v !is List,
        v !is Object,
    ensures
        pages_of(v) is None,
        scores_in(v) is None,
{
}

/// The page count of a score page is that of its data; only where the data
/// gives none, or there is none, is it the one in the text of the page.
pub proof fn data_decides_the_page_count(data: JsonView, html: Seq<char>)
    ensures
        forall|n: usize|
            pages_of(data) == Some(n) ==> page_count_of(Some(data), html) == Some(n as nat),
        pages_of(data) is None ==> page_count_of(Some(data), html) == page::pages_in(html),
        page_count_of(None, html) == page::pages_in(html),
{
}

/// The first of a list of documents that holds a list of scores decides,
/// whatever stands behind it; where none holds one, there is none.
pub proof fn first_item_decides_the_scores(items: Seq<JsonView>)
    ensures
        forall|k: int|
            0 <= k < items.len() && scores_in(#[trigger] items[k]) is Some && (forall|j: int|
                0 <= j < k ==> scores_in(#[trigger] items[j]) is None) ==> scores_in(
                JsonView::List(items),
            ) == scores_in(items[k]),
        (forall|k: int| 0 <= k < items.len() ==> scores_in(#[trigger] items[k]) is None)
            ==> scores_in(JsonView::List(items)) is None,
    decreases items.len(),
{
    if items.len() > 0 {
        let rest = items.subrange(1, items.len() as int);
        first_item_decides_the_scores(rest);
        assert(scores_in(JsonView::List(rest)) == scores_in_items(rest));
        assert forall|k: int|
            0 <= k < items.len() && scores_in(#[trigger] items[k]) is Some && (forall|j: int|
                0 <= j < k ==> scores_in(#[trigger] items[j]) is None) implies scores_in(
            JsonView::List(items),
        ) == scores_in(items[k]) by {
            if k > 0 {
                assert(scores_in(items[0]) is None);
                assert(rest[k - 1] == items[k]);
                assert forall|j: int| 0 <= j < k - 1 implies scores_in(
                    #[trigger] rest[j],
                ) is None by {
                    assert(rest[j] == items[j + 1]);
                }
            }
        }
        if forall|k: int| 0 <= k < items.len() ==> scores_in(#[trigger] items[k]) is None {
            assert(scores_in(items[0]) is None);
            assert forall|j: int| 0 <= j < rest.len() implies scores_in(#[trigger] rest[j]) is None by {
                assert(rest[j] == items[j + 1]);
            }
        }
    }
}

/// An object whose member `scores` is a list that starts with an object with
/// an id has that list, whatever else it holds.
pub proof fn objects_have_their_own_scores(v: JsonView, items: Seq<JsonView>)
    requires
        v.get("scores"@) == Some(JsonView::List(items)),
        items.len() > 0,
        items[0].get("id"@) is Some,
    ensures
        scores_in(v) == Some(items),
{
}

/// In an object without such a list of its own the first member that holds one
/// decides; where none does, there is none.
pub proof fn first_member_decides_the_scores(members: Seq<(Seq<char>, JsonView)>)
    requires
        match JsonView::Object(members).get("scores"@) {
            Some(JsonView::List(items)) => items.len() == 0 || items[0].get("id"@) is None,
            _ => true,
        },
    ensures
        forall|k: int|
            0 <= k < members.len() && scores_in((#[trigger] members[k]).1) is Some && (forall|
                j: int,
            |
                0 <= j < k ==> scores_in((#[trigger] members[j]).1) is None) ==> scores_in(
                JsonView::Object(members),
            ) == scores_in(members[k].1),
        (forall|k: int| 0 <= k < members.len() ==> scores_in((#[trigger] members[k]).1) is None)
            ==> scores_in(JsonView::Object(members)) is None,
{
    assert(own_scores(JsonView::Object(members)) is None);
    members_decide_the_scores(members);
}

proof fn members_decide_the_scores(members: Seq<(Seq<char>, JsonView)>)
    ensures
        forall|k: int|
            0 <= k < members.len() && scores_in((#[trigger] members[k]).1) is Some && (forall|
                j: int,
            |
                0 <= j < k ==> scores_in((#[trigger] members[j]).1) is None) ==> scores_in_members(
                members,
            ) == scores_in(members[k].1),
        (forall|k: int| 0 <= k < members.len() ==> scores_in((#[trigger] members[k]).1) is None)
            ==> scores_in_members(members) is None,
    decreases members.len(),
{
    if members.len() > 0 {
        let rest = members.subrange(1, members.len() as int);
        members_decide_the_scores(rest);
        assert forall|k: int|
            0 <= k < members.len() && scores_in((#[trigger] members[k]).1) is Some && (forall|
                j: int,
            |
                0 <= j < k ==> scores_in((#[trigger] members[j]).1) is None) implies scores_in_members(
            members,
        ) == scores_in(members[k].1) by {
            if k > 0 {
                assert(scores_in(members[0].1) is None);
                assert(rest[k - 1] == members[k]);
                assert forall|j: int| 0 <= j < k - 1 implies scores_in(
                    (#[trigger] rest[j]).1,
                ) is None by {
                    assert(rest[j] == members[j + 1]);
                }
            }
        }
        if forall|k: int| 0 <= k < members.len() ==> scores_in((#[trigger] members[k]).1) is None {
            assert(scores_in(members[0].1) is None);
            assert forall|j: int| 0 <= j < rest.len() implies scores_in(
                (#[trigger] rest[j]).1,
            ) is None by {
                assert(rest[j] == members[j + 1]);
            }
        }
    }
}

// ----- What is read of a score -----

/// A list is read item by item: it gives as many scores as it has items, each
/// the score of the item in its place, and nothing where one item is no score.
pub proof fn lists_are_read_item_by_item(items: Seq<JsonView>)
    ensures
        match scores_of(items) {
            Some(scores) => {
                &&& scores.len() == items.len()
                &&& forall|i: int|
                    0 <= i < items.len() ==> score_of(#[trigger] items[i]) == Some(scores[i])
            },
            None => exists|i: int| 0 <= i < items.len() && score_of(#[trigger] items[i]) is None,
        },
    decreases items.len(),
{
    if items.len() > 0 {
        let front = items.drop_last();
        lists_are_read_item_by_item(front);
        match scores_of(front) {
            Some(before) => match score_of(items.last()) {
                Some(s) => {
                    assert forall|i: int| 0 <= i < items.len() implies score_of(
                        #[trigger] items[i],
                    ) == Some(before.push(s)[i]) by {
                        if i < front.len() {
                            assert(front[i] == items[i]);
                        }
                    }
                },
                None => {
                    assert(items[items.len() - 1] == items.last());
                },
            },
            None => {
                let i = choose|i: int|
                    0 <= i < front.len() && score_of(#[trigger] front[i]) is None;
                assert(items[i] == front[i]);
            },
        }
    }
}

/// An object is a score exactly where it has a number as its id and a text as
/// its title, and what is read of it is what its members of these names say.
pub proof fn scores_say_what_their_members_say(v: JsonView)
    ensures
        score_of(v) is Some <==> (v.get("id"@) matches Some(JsonView::Unsigned(_))) && (v.get(
            "title"@,
        ) matches Some(JsonView::Text(_))),
        score_of(v) matches Some(s) ==> {
            &&& v.get("id"@) == Some(JsonView::Unsigned(s.id))
            &&& forall|t: Seq<char>|
                v.get("title"@) == Some(JsonView::Text(t)) ==> s.title == #[trigger] html::unescaped(t)
            &&& match v.get("composer_name"@) {
                Some(JsonView::Text(c)) => if c.len() > 0 {
                    s.composer_name == Some(html::unescaped(c))
                } else {
                    s.composer_name is None
                },
                _ => s.composer_name is None,
            }
            &&& match v.get("href"@) {
                Some(JsonView::Text(h)) => if h.len() > 0 {
                    s.href == Some(h)
                } else {
                    s.href is None
                },
                _ => s.href is None,
            }
            &&& match v.get("pages_count"@) {
                Some(JsonView::Unsigned(n)) => s.pages_count == Some(n as usize),
                _ => s.pages_count is None,
            }
            &&& match v.get("parts_count"@) {
                Some(JsonView::Unsigned(n)) => s.parts_count == Some(n as usize),
                _ => s.parts_count is None,
            }
            &&& match v.get("complexity"@) {
                Some(JsonView::Unsigned(1)) => s.complexity == Some(1u8),
                Some(JsonView::Unsigned(2)) => s.complexity == Some(2u8),
                Some(JsonView::Unsigned(3)) => s.complexity == Some(3u8),
                _ => s.complexity is None,
            }
            &&& match v.get("is_public_domain"@) {
                Some(JsonView::Unsigned(0)) => s.is_public_domain == Some(false),
                Some(JsonView::Unsigned(_)) => s.is_public_domain == Some(true),
                _ => s.is_public_domain is None,
            }
            &&& match v.get("is_official"@) {
                Some(JsonView::Bool(b)) => s.is_official == Some(b),
                _ => s.is_official is None,
            }
            &&& match v.get("instrumentations"@) {
                Some(JsonView::List(items)) => s.instrumentations == instrument_labels(
                    items,
                    MAX_INSTRUMENTS as nat,
                ),
                _ => s.instrumentations.len() == 0,
            }
            &&& s.thumbnail_url == thumbnail_of(v)
        },
{
}

/// A score is labelled with at most two instruments.
pub proof fn two_instruments_are_enough()
    ensures
        MAX_INSTRUMENTS == 2,
{
}

/// The labels of a list that goes on are those of its front part, and then
/// those of the rest, as far as there is room.
pub proof fn labels_come_in_order(a: Seq<JsonView>, b: Seq<JsonView>, max: nat)
    ensures
        instrument_labels(a, max).len() <= max,
        instrument_labels(a, max).len() <= a.len(),
        instrument_labels(a + b, max) == instrument_labels(a, max) + instrument_labels(
            b,
            (max - instrument_labels(a, max).len()) as nat,
        ),
    decreases a.len(),
{
    if a.len() == 0 {
        assert(a + b =~= b);
        assert(instrument_labels(a, max) + instrument_labels(b, max) =~= instrument_labels(b, max));
    } else if max == 0 {
        assert(instrument_labels(a + b, max) =~= instrument_labels(a, max) + instrument_labels(
            b,
            0,
        ));
    } else {
        let rest = a.drop_first();
        assert((a + b)[0] == a[0]);
        assert((a + b).drop_first() =~= rest + b);
        match instrument_label(a[0]) {
            Some(l) => {
                labels_come_in_order(rest, b, (max - 1) as nat);
                let front = instrument_labels(rest, (max - 1) as nat);
                let back = instrument_labels(b, (max - 1 - front.len()) as nat);
                assert(seq![l] + (front + back) =~= (seq![l] + front) + back);
            },
            None => {
                labels_come_in_order(rest, b, max);
            },
        }
    }
}

/// One instrument gives one label: the text itself, or the `name` of an
/// object, or its `title` where it has no text as its name; without the white
/// space around it. Where that leaves nothing, there is no label.
pub proof fn one_instrument_has_one_label(v: JsonView, max: nat)
    requires
        max > 0,
    ensures
        forall|s: Seq<char>|
            (v == JsonView::Text(s) || (v is Object && (v.get("name"@) == Some(JsonView::Text(s))
                || (!(v.get("name"@) matches Some(JsonView::Text(_))) && v.get("title"@) == Some(
                JsonView::Text(s),
            ))))) ==> instrument_labels(seq![v], max) == (if (#[trigger] text::trim::trimmed(
                s,
            )).len() > 0 {
                seq![text::trim::trimmed(s)]
            } else {
                Seq::empty()
            }),
        v !is Text && v !is Object ==> instrument_labels(seq![v], max).len() == 0,
        v is Object && !(v.get("name"@) matches Some(JsonView::Text(_))) && !(v.get(
            "title"@,
        ) matches Some(JsonView::Text(_))) ==> instrument_labels(seq![v], max).len() == 0,
{
    let one = seq![v];
    assert(one.drop_first() =~= Seq::<JsonView>::empty());
    assert(instrument_labels(one.drop_first(), (max - 1) as nat) =~= Seq::<Seq<char>>::empty());
    assert(instrument_labels(one.drop_first(), max) =~= Seq::<Seq<char>>::empty());
    assert(one[0] == v);
    if let Some(l) = instrument_label(v) {
        assert(instrument_labels(one, max) =~= seq![l]);
    }
}

/// The preview is the largest of the sizes that a score offers: of `original`,
/// `large`, `medium` and `small` the first that is there. Only where a score
/// offers no such size with a text is it the first text of the fields for
/// sharing, the cover and the plain address. An empty address is none.
pub proof fn the_best_preview_is_taken(v: JsonView, i: int, url: Seq<char>)
    ensures
        ({
            let sizes = seq!["original"@, "large"@, "medium"@, "small"@];
            0 <= i < 4 && url.len() > 0 && v.get("thumbnails"@) is Some && (forall|j: int|
                0 <= j < i ==> (v.get("thumbnails"@)->0).get(#[trigger] sizes[j]) is None) && (v.get(
                "thumbnails"@,
            )->0).get(sizes[i]) == Some(JsonView::Text(url)) ==> thumbnail_of(v) == Some(url)
        }),
        ({
            let fields = seq!["share_pic_url"@, "share_pic"@, "cover_pic"@, "thumbnail_url"@];
            let no_size = v.get("thumbnails"@) is None || ((v.get("thumbnails"@)->0).get(
                "original"@,
            ) is None && (v.get("thumbnails"@)->0).get("large"@) is None && (v.get(
                "thumbnails"@,
            )->0).get("medium"@) is None && (v.get("thumbnails"@)->0).get("small"@) is None);
            0 <= i < 4 && url.len() > 0 && no_size && (forall|j: int|
                0 <= j < i ==> json::text_member(v, #[trigger] fields[j]) is None) && v.get(
                fields[i],
            ) == Some(JsonView::Text(url)) ==> thumbnail_of(v) == Some(url)
        }),
        thumbnail_of(v) matches Some(u) ==> u.len() > 0,
{
    let sizes = seq!["original"@, "large"@, "medium"@, "small"@];
    let fields = seq!["share_pic_url"@, "share_pic"@, "cover_pic"@, "thumbnail_url"@];
    if 0 <= i < 4 {
        assert(sizes[0] == "original"@ && sizes[1] == "large"@ && sizes[2] == "medium"@ && sizes[3]
            == "small"@);
        assert(fields[0] == "share_pic_url"@ && fields[1] == "share_pic"@ && fields[2]
            == "cover_pic"@ && fields[3] == "thumbnail_url"@);
        assert(i == 0 || i == 1 || i == 2 || i == 3);
    }
}

/// One more link at the end of a page adds one score at the end, and changes
/// none before it: the score that the link leads to, unless an earlier link
/// leads to it too, or the link leads to none, or it has no title.
pub proof fn links_are_read_in_order(links: Seq<html::LinkView>, link: html::LinkView)
    ensures
        linked_scores(Seq::<html::LinkView>::empty(), Seq::empty()).len() == 0,
        linked_scores(links.push(link), Seq::empty()) == (match link_id(link) {
            Some(id) => if link_title(link).len() == 0 || (exists|j: int|
                0 <= j < links.len() && link_id(#[trigger] links[j]) == Some(id)) {
                linked_scores(links, Seq::empty())
            } else {
                linked_scores(links, Seq::empty()).push(linked_score(link, id))
            },
            None => linked_scores(links, Seq::empty()),
        }),
{
    link_at_the_end(links, link, Seq::empty());
}

proof fn link_at_the_end(links: Seq<html::LinkView>, link: html::LinkView, seen: Seq<u64>)
    ensures
        linked_scores(links.push(link), seen) == (match link_id(link) {
            Some(id) => if link_title(link).len() == 0 || seen.contains(id) || (exists|j: int|
                0 <= j < links.len() && link_id(#[trigger] links[j]) == Some(id)) {
                linked_scores(links, seen)
            } else {
                linked_scores(links, seen).push(linked_score(link, id))
            },
            None => linked_scores(links, seen),
        }),
    decreases links.len(),
{
    let longer = links.push(link);
    if links.len() == 0 {
        assert(longer.drop_first() =~= Seq::<html::LinkView>::empty());
        assert(longer[0] == link);
        assert(linked_scores(links, seen) =~= Seq::<ScoreView>::empty());
        assert(linked_scores(longer.drop_first(), seen) =~= Seq::<ScoreView>::empty());
        if let Some(id) = link_id(link) {
            assert(linked_scores(longer.drop_first(), seen.push(id)) =~= Seq::<ScoreView>::empty());
            assert(seq![linked_score(link, id)] + Seq::<ScoreView>::empty()
                =~= Seq::<ScoreView>::empty().push(linked_score(link, id)));
        }
    } else {
        let rest = links.drop_first();
        assert(longer[0] == links[0]);
        assert(longer.drop_first() =~= rest.push(link));
        let now = match link_id(links[0]) {
            Some(id) => if seen.contains(id) {
                seen
            } else {
                seen.push(id)
            },
            None => seen,
        };
        link_at_the_end(rest, link, now);
        if let Some(id) = link_id(link) {
            let before = seen.contains(id) || exists|j: int|
                0 <= j < links.len() && link_id(#[trigger] links[j]) == Some(id);
            let then = now.contains(id) || exists|j: int|
                0 <= j < rest.len() && link_id(#[trigger] rest[j]) == Some(id);
            assert(before == then) by {
                if seen.contains(id) {
                    let k = choose|k: int| 0 <= k < seen.len() && seen[k] == id;
                    assert(now[k] == id);
                }
                if exists|j: int| 0 <= j < links.len() && link_id(#[trigger] links[j]) == Some(id) {
                    let j = choose|j: int|
                        0 <= j < links.len() && link_id(#[trigger] links[j]) == Some(id);
                    if j > 0 {
                        assert(rest[j - 1] == links[j]);
                    } else if !seen.contains(id) {
                        assert(now[seen.len() as int] == id);
                    }
                }
                if exists|j: int| 0 <= j < rest.len() && link_id(#[trigger] rest[j]) == Some(id) {
                    let j = choose|j: int|
                        0 <= j < rest.len() && link_id(#[trigger] rest[j]) == Some(id);
                    assert(links[j + 1] == rest[j]);
                }
                if now.contains(id) && !seen.contains(id) {
                    let k = choose|k: int| 0 <= k < now.len() && now[k] == id;
                    if k < seen.len() {
                        assert(seen[k] == id);
                    }
                    assert(link_id(links[0]) == Some(id));
                }
            }
        }
        let tail = linked_scores(rest, now);
        if let Some(first) = link_id(links[0]) {
            if !seen.contains(first) && link_title(links[0]).len() > 0 {
                let s = linked_score(links[0], first);
                if let Some(id) = link_id(link) {
                    assert(seq![s] + tail.push(linked_score(link, id)) =~= (seq![s] + tail).push(
                        linked_score(link, id),
                    ));
                }
            }
        }
    }
}

/// A linked score is called what its picture is called, and only where the
/// picture has no name is it called what the link reads; either without the
/// white space around it. It keeps the address of the link and of the picture,
/// and what a link cannot tell stays unknown.
pub proof fn links_say_what_they_show(link: html::LinkView, id: u64)
    ensures
        link_title(link) == (match link.image {
            Some(html::ImageView { alt: Some(a), .. }) => if text::trim::trimmed(a).len() > 0 {
                text::trim::trimmed(a)
            } else {
                text::trim::trimmed(link.text)
            },
            _ => text::trim::trimmed(link.text),
        }),
        ({
            let s = linked_score(link, id);
            &&& s.id == id
            &&& s.title == html::unescaped(link_title(link))
            &&& s.href == link.href
            &&& match link.image {
                Some(html::ImageView { src: Some(u), .. }) => if u.len() > 0 {
                    s.thumbnail_url == Some(u)
                } else {
                    s.thumbnail_url is None
                },
                _ => s.thumbnail_url is None,
            }
            &&& s.composer_name is None
            &&& s.pages_count is None
            &&& s.parts_count is None
            &&& s.instrumentations.len() == 0
            &&& s.complexity is None
            &&& s.is_public_domain is None
            &&& s.is_official is None
        }),
        match link.href {
            Some(href) => match page::score_id(href) {
                Some(n) => link_id(link) == Some(n as u64),
                None => link_id(link) is None,
            },
            None => link_id(link) is None,
        },
{
}

/// The badges of a score in order: its pages where it has any, its parts where
/// it has more than one, its instruments, and its difficulty. One page is not
/// called pages.
pub proof fn badges_come_in_order(s: ScoreView)
    ensures
        ({
            let b = badges_of(s);
            let pages: int = if s.pages_count is Some && s.pages_count->0 > 0 {
                1
            } else {
                0
            };
            let parts: int = if s.parts_count is Some && s.parts_count->0 > 1 {
                1
            } else {
                0
            };
            let n = s.instrumentations.len();
            let level: int = if s.complexity is Some && 1 <= s.complexity->0 <= 3 {
                1
            } else {
                0
            };
            &&& b.len() == pages + parts + n + level
            &&& pages == 1 ==> b[0].kind == BadgeKind::Pages && b[0].label == (if s.pages_count->0
                == 1 {
                "1 page"@
            } else {
                text::number::decimal(s.pages_count->0 as nat) + " pages"@
            })
            &&& parts == 1 ==> b[pages].kind == BadgeKind::Generic && b[pages].label
                == text::number::decimal(s.parts_count->0 as nat) + " parts"@
            &&& forall|i: int|
                0 <= i < n ==> (#[trigger] b[pages + parts + i]).kind == BadgeKind::Instrument && b[
                pages + parts + i].label == s.instrumentations[i]
            &&& level == 1 ==> b.last().kind == BadgeKind::Difficulty && b.last().label == (
            if s.complexity->0 == 1 {
                "Beginner"@
            } else if s.complexity->0 == 2 {
                "Intermediate"@
            } else {
                "Advanced"@
            })
        }),
{
    let b = badges_of(s);
    let labels = instrument_badges(s.instrumentations);
    let pages: int = if s.pages_count is Some && s.pages_count->0 > 0 {
        1
    } else {
        0
    };
    let parts: int = if s.parts_count is Some && s.parts_count->0 > 1 {
        1
    } else {
        0
    };
    assert forall|i: int| 0 <= i < labels.len() implies #[trigger] b[pages + parts + i]
        == labels[i] by {}
}

/// A search gives the first `limit` scores of a page, one result each, in
/// order, with the score's own id, composer, pictures and flags. A score
/// without an address has the address of its id.
pub proof fn results_follow_the_scores(scores: Seq<ScoreView>, limit: nat)
    ensures
        results_of(scores, limit).len() == (if scores.len() <= limit {
            scores.len()
        } else {
            limit
        }),
        forall|i: int|
            0 <= i < results_of(scores, limit).len() ==> {
                let r = #[trigger] results_of(scores, limit)[i];
                let s = scores[i];
                &&& r.source == "musescore"@
                &&& r.id == text::number::decimal(s.id as nat)
                &&& r.title == page::without_markers(s.title)
                &&& r.description == s.composer_name
                &&& s.href is Some ==> r.external_url == s.href->0
                &&& s.href is None ==> r.external_url == "https://musescore.com/score/"@ + r.id
                &&& r.thumbnail_url == s.thumbnail_url
                &&& r.metadata == badges_of(s)
                &&& r.complexity == s.complexity
                &&& r.is_public_domain == s.is_public_domain
                &&& r.is_official == s.is_official
            },
{
}

/// The data of a page is the document that its data attribute writes; a page
/// without the attribute, or with one that is no document, has none.
pub proof fn page_data_is_what_the_attribute_writes(html: Seq<char>, raw: Seq<char>)
    ensures
        page::hydration(html) == Some(raw) ==> page_data(html) == json::parsed(raw),
        page::hydration(html) is None ==> page_data(html) is None,
{
}

} // verus!
