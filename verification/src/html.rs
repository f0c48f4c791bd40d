//! What the sources read out of HTML pages.
//!
//! Pages are parsed and searched by `scraper`, which keeps attributes in the
//! order of the page; entities are decoded by `html_escape`. What those return
//! is a function of the page and the selectors alone, and has a name here.

use crate::text;
use vstd::prelude::*;

verus! {

/// One table of a page: the texts of its cells row by row, and what one
/// attribute holds on each of its anchors.
#[derive(Debug)]
pub struct Table {
    pub rows: Vec<Vec<String>>,
    pub links: Vec<Option<String>>,
}

/// The view of a [`Table`].
pub struct TableView {
    pub rows: Seq<Seq<Seq<char>>>,
    pub links: Seq<Option<Seq<char>>>,
}

/// The views of a list of rows.
pub open spec fn row_views(rows: Seq<Vec<String>>) -> Seq<Seq<Seq<char>>> {
    rows.map_values(|row: Vec<String>| text::views(row@))
}

/// The views of a list of attribute values.
pub open spec fn attr_views(attrs: Seq<Option<String>>) -> Seq<Option<Seq<char>>> {
    attrs.map_values(|a: Option<String>| text::view_opt(a))
}

impl View for Table {
    type V = TableView;

    open spec fn view(&self) -> TableView {
        TableView { rows: row_views(self.rows@), links: attr_views(self.links@) }
    }
}

/// The views of a list of tables.
pub open spec fn table_views(tables: Seq<Table>) -> Seq<TableView> {
    tables.map_values(|t: Table| t@)
}

/// An image inside a link: its `alt` and `src` attributes.
#[derive(Debug)]
pub struct Image {
    pub alt: Option<String>,
    pub src: Option<String>,
}

/// The view of an [`Image`].
pub struct ImageView {
    pub alt: Option<Seq<char>>,
    pub src: Option<Seq<char>>,
}

impl View for Image {
    type V = ImageView;

    open spec fn view(&self) -> ImageView {
        ImageView { alt: text::view_opt(self.alt), src: text::view_opt(self.src) }
    }
}

/// A link of a page: where it points, its first image, and its text.
#[derive(Debug)]
pub struct Link {
    pub href: Option<String>,
    pub image: Option<Image>,
    pub text: String,
}

/// The view of a [`Link`].
pub struct LinkView {
    pub href: Option<Seq<char>>,
    pub image: Option<ImageView>,
    pub text: Seq<char>,
}

impl View for Link {
    type V = LinkView;

    open spec fn view(&self) -> LinkView {
        LinkView {
            href: text::view_opt(self.href),
            image: match self.image {
                Some(i) => Some(i@),
                None => None,
            },
            text: self.text@,
        }
    }
}

/// The views of a list of links.
pub open spec fn link_views(links: Seq<Link>) -> Seq<LinkView> {
    links.map_values(|l: Link| l@)
}

/// `s` with its HTML entities decoded.
pub uninterp spec fn unescaped(s: Seq<char>) -> Seq<char>;

/// `html_escape::decode_html_entities`, whose result depends on the text
/// alone.
#[verifier::external_body]
pub(crate) fn decode_entities(s: &str) -> (out: String)
    ensures
        out@ == unescaped(s@),
{
    html_escape::decode_html_entities(s).into_owned()
}

/// The value of `attr` on each element of `page` that `selector` matches, in
/// document order; `None` where `selector` is no CSS selector.
pub uninterp spec fn attrs_of(page: Seq<char>, selector: Seq<char>, attr: Seq<char>) -> Option<
    Seq<Option<Seq<char>>>,
>;

/// `scraper`: `Html::parse_document`, `Selector::parse`, `Html::select` and
/// `Element::attr` on each element. The result depends on the three texts
/// alone.
#[verifier::external_body]
pub(crate) fn select_attrs(page: &str, selector: &str, attr: &str) -> (r: Option<
    Vec<Option<String>>,
>)
    ensures
        attrs_of(page@, selector@, attr@) == (match r {
            Some(list) => Some(attr_views(list@)),
            None => None,
        }),
{
    let doc = scraper::Html::parse_document(page);
    let selector = scraper::Selector::parse(selector).ok()?;
    Some(doc.select(&selector).map(|el| el.value().attr(attr).map(str::to_string)).collect())
}

/// The elements of `page` that `table` matches, each with the texts of its
/// cells row by row and the value of `attr` on each of its anchors; `None`
/// where one of the selectors is no CSS selector.
pub uninterp spec fn tables_of(
    page: Seq<char>,
    table: Seq<char>,
    row: Seq<char>,
    cell: Seq<char>,
    anchor: Seq<char>,
    attr: Seq<char>,
) -> Option<Seq<TableView>>;

/// `scraper`: `Html::parse_document`, `Selector::parse`, `Html::select`,
/// `ElementRef::select`, `ElementRef::text` and `Element::attr`. The result
/// depends on the texts alone.
#[verifier::external_body]
pub(crate) fn select_tables(
    page: &str,
    table: &str,
    row: &str,
    cell: &str,
    anchor: &str,
    attr: &str,
) -> (r: Option<Vec<Table>>)
    ensures
        tables_of(page@, table@, row@, cell@, anchor@, attr@) == (match r {
            Some(list) => Some(table_views(list@)),
            None => None,
        }),
{
    let doc = scraper::Html::parse_document(page);
    let table = scraper::Selector::parse(table).ok()?;
    let row = scraper::Selector::parse(row).ok()?;
    let cell = scraper::Selector::parse(cell).ok()?;
    let anchor = scraper::Selector::parse(anchor).ok()?;
    Some(doc.select(&table).map(|t| Table {
        rows: t.select(&row).map(|r| r.select(&cell).map(|c| c.text().collect()).collect()).collect(),
        links: t.select(&anchor).map(|a| a.value().attr(attr).map(str::to_string)).collect(),
    }).collect())
}

/// The elements of `page` that `link` matches, each with its `href`, the
/// first element inside it that `image` matches, and its text; `None` where
/// one of the selectors is no CSS selector.
pub uninterp spec fn links_of(page: Seq<char>, link: Seq<char>, image: Seq<char>) -> Option<
    Seq<LinkView>,
>;

/// `scraper`: `Html::parse_document`, `Selector::parse`, `Html::select`,
/// `ElementRef::select`, `ElementRef::text` and `Element::attr`. The result
/// depends on the three texts alone.
#[verifier::external_body]
pub(crate) fn select_links(page: &str, link: &str, image: &str) -> (r: Option<Vec<Link>>)
    ensures
        links_of(page@, link@, image@) == (match r {
            Some(list) => Some(link_views(list@)),
            None => None,
        }),
{
    let doc = scraper::Html::parse_document(page);
    let link = scraper::Selector::parse(link).ok()?;
    let image = scraper::Selector::parse(image).ok()?;
    Some(doc.select(&link).map(|el| Link {
        href: el.value().attr("href").map(str::to_string),
        image: el.select(&image).next().map(|img| Image {
            alt: img.value().attr("alt").map(str::to_string),
            src: img.value().attr("src").map(str::to_string),
        }),
        text: el.text().collect(),
    }).collect())
}

/// The markup of an element, and of the element around it where there is one.
#[derive(Debug)]
pub struct Markup {
    pub around: Option<String>,
    pub own: String,
}

impl View for Markup {
    type V = (Option<Seq<char>>, Seq<char>);

    open spec fn view(&self) -> (Option<Seq<char>>, Seq<char>) {
        (text::view_opt(self.around), self.own@)
    }
}

/// The markup of the element around the first element of `page` that
/// `selector` matches, where there is one around it, and of that element
/// itself; `None` where nothing matches or `selector` is no CSS selector.
pub uninterp spec fn first_markup(page: Seq<char>, selector: Seq<char>) -> Option<
    (Option<Seq<char>>, Seq<char>),
>;

/// `scraper`: `Html::parse_document`, `Selector::parse`, `Html::select`, and
/// `ElementRef::html` of the first element that matches and of its parent
/// element, where it has one. The result depends on the two texts alone, the
/// attributes being written in the order of the page. There is one where any
/// element matches.
#[verifier::external_body]
pub(crate) fn select_first_markup(page: &str, selector: &str) -> (r: Option<Markup>)
    ensures
        first_markup(page@, selector@) == (match r {
            Some(m) => Some(m@),
            None => None,
        }),
        (r is Some) == (match attrs_of(page@, selector@, "href"@) {
            Some(list) => list.len() > 0,
            None => false,
        }),
{
    let doc = scraper::Html::parse_document(page);
    let selector = scraper::Selector::parse(selector).ok()?;
    let el = doc.select(&selector).next()?;
    let around = el.parent().and_then(scraper::ElementRef::wrap).map(|p| p.html());
    Some(Markup { around, own: el.html() })
}

/// The views of what is read out of a page have every part of it, in order.
pub proof fn views_have_every_part(t: Table, l: Link, m: Markup)
    ensures
        t@.rows.len() == t.rows@.len(),
        t@.links.len() == t.links@.len(),
        forall|i: int| 0 <= i < t.rows@.len() ==> (#[trigger] t@.rows[i]) == text::views(t.rows@[i]@),
        forall|i: int|
            0 <= i < t.links@.len() ==> (#[trigger] t@.links[i]) == text::view_opt(t.links@[i]),
        l@.href == text::view_opt(l.href),
        l@.text == l.text@,
        l.image matches Some(i) ==> l@.image is Some && (l@.image->0).alt == text::view_opt(i.alt)
            && (l@.image->0).src == text::view_opt(i.src),
        l.image is None ==> l@.image is None,
        m@ == (text::view_opt(m.around), m.own@),
{
}

} // verus!
