//! Reading MuseScore pages and scripts as text.

use crate::html;
use crate::text;
use vstd::prelude::*;

verus! {

/// Where MuseScore keeps its scripts.
pub const BUILD_PREFIX: &'static str = "https://musescore.com/static/public/build/";

/// The least number of hexadecimal digits in the name of the attribute that
/// holds a page's data.
pub const HASH_DIGITS: usize = 60;

/// The most characters that a salt has.
pub const MAX_SALT: usize = 50;

/// The page is Cloudflare's challenge or block page in place of the page that
/// was asked for.
pub open spec fn is_challenge(page: Seq<char>) -> bool {
    text::search::contains(page, "Just a moment"@) || text::search::contains(
        page,
        "Attention Required"@,
    )
}

pub fn looks_like_cf_challenge(page: &str) -> (b: bool)
    ensures
        b == is_challenge(page@),
{
    text::search::has(page, "Just a moment") || text::search::has(page, "Attention Required")
}

/// The first `max` characters of `s`.
pub fn truncate_for_log(s: &str, max: usize) -> (out: String)
    ensures
        out@ == text::first_chars(s@, max as nat),
{
    text::take_chars(s, max)
}

/// A character that ends a URL in a page or script.
pub open spec fn ends_url(c: char) -> bool {
    c == '"' || c == '\'' || c == ' ' || c == '<' || c == '>' || c == '\n' || c == '\r' || c
        == '\\'
}

fn url_end(c: char) -> (b: bool)
    ensures
        b == ends_url(c),
{
    c == '"' || c == '\'' || c == ' ' || c == '<' || c == '>' || c == '\n' || c == '\r' || c
        == '\\'
}

/// `url` is a MuseScore script of a dated build:
/// `<build prefix>musescore…/20….js`.
pub open spec fn is_bundle(url: Seq<char>) -> bool {
    match text::search::without_prefix(url, BUILD_PREFIX@) {
        Some(rest) => {
            &&& ".js"@.is_suffix_of(url)
            &&& "musescore"@.is_prefix_of(rest)
            &&& text::search::contains(rest, "/20"@)
        },
        None => false,
    }
}

pub fn is_bundle_candidate(url: &str) -> (b: bool)
    ensures
        b == is_bundle(url@),
{
    match text::search::strip_prefix(url, BUILD_PREFIX) {
        Some(rest) => text::search::ends_with(url, ".js") && text::search::starts_with(
            rest.as_str(),
            "musescore",
        ) && text::search::has(rest.as_str(), "/20"),
        None => false,
    }
}

/// The URL that starts at position `i` of a page.
pub open spec fn url_at(page: Seq<char>, i: int) -> Seq<char> {
    page.subrange(i, text::split::first_where(page, |c: char| ends_url(c), i))
}

/// `known` with the scripts that the page names from position `from` on, in
/// document order, each once.
pub open spec fn bundles(page: Seq<char>, from: int, known: Seq<Seq<char>>) -> Seq<Seq<char>>
    decreases page.len() - from,
{
    match text::search::first_at(page, BUILD_PREFIX@, from) {
        Some(i) => if from <= i && i + BUILD_PREFIX@.len() <= page.len() && BUILD_PREFIX@.len() > 0 {
            let url = url_at(page, i);
            let more = if is_bundle(url) && !known.contains(url) {
                known.push(url)
            } else {
                known
            };
            bundles(page, i + BUILD_PREFIX@.len(), more)
        } else {
            known
        },
        None => known,
    }
}

/// The scripts that a page names, in document order, each once.
pub fn extract_bundle_urls(page: &str) -> (out: Vec<String>)
    ensures
        text::views(out@) == bundles(page@, 0, Seq::empty()),
{
    proof {
        reveal_strlit("https://musescore.com/static/public/build/");
    }
    let chars = text::chars_of(page);
    let needle = text::chars_of(BUILD_PREFIX);
    let mut out: Vec<String> = Vec::new();
    let mut start: usize = 0;
    assert(text::views(out@) =~= Seq::<Seq<char>>::empty());
    loop
        invariant
            chars@ == page@,
            needle@ == BUILD_PREFIX@,
            needle@.len() > 0,
            start <= chars@.len(),
            bundles(page@, 0, Seq::empty()) == bundles(page@, start as int, text::views(out@)),
        decreases chars@.len() - start,
    {
        match text::search::find(&chars, &needle, start) {
            Some(i) => {
                let ghost known = text::views(out@);
                let end = text::split::find_where(&chars, url_end, i, Ghost(|c: char| ends_url(c)));
                let url = text::slice_of(&chars, i, end);
                if is_bundle_candidate(url.as_str()) && !text::among(&out, url.as_str()) {
                    let ghost u = url@;
                    out.push(url);
                    assert(text::views(out@) =~= known.push(u));
                }
                start = i + needle.len();
            },
            None => {
                return out;
            },
        }
    }
}

/// Every script that [`bundles`] gives is a bundle, and none is given twice.
pub proof fn bundles_are_distinct(page: Seq<char>, from: int, known: Seq<Seq<char>>)
    requires
        known.no_duplicates(),
        forall|i: int| 0 <= i < known.len() ==> is_bundle(#[trigger] known[i]),
    ensures
        bundles(page, from, known).no_duplicates(),
        forall|i: int|
            0 <= i < bundles(page, from, known).len() ==> is_bundle(
                #[trigger] bundles(page, from, known)[i],
            ),
    decreases page.len() - from,
{
    match text::search::first_at(page, BUILD_PREFIX@, from) {
        Some(i) => if from <= i && i + BUILD_PREFIX@.len() <= page.len() && BUILD_PREFIX@.len() > 0 {
            let url = url_at(page, i);
            let more = if is_bundle(url) && !known.contains(url) {
                known.push(url)
            } else {
                known
            };
            assert(more.no_duplicates());
            bundles_are_distinct(page, i + BUILD_PREFIX@.len(), more);
        },
        None => {},
    }
}

/// [`bundles`] only adds behind what is known.
proof fn bundles_extend(page: Seq<char>, from: int, known: Seq<Seq<char>>)
    ensures
        known.is_prefix_of(bundles(page, from, known)),
    decreases page.len() - from,
{
    match text::search::first_at(page, BUILD_PREFIX@, from) {
        Some(i) => if from <= i && i + BUILD_PREFIX@.len() <= page.len() && BUILD_PREFIX@.len() > 0 {
            let url = url_at(page, i);
            let more = if is_bundle(url) && !known.contains(url) {
                known.push(url)
            } else {
                known
            };
            bundles_extend(page, i + BUILD_PREFIX@.len(), more);
        },
        None => {},
    }
}

/// Where all that a page names is known, nothing is added.
proof fn bundles_add_nothing(
    page: Seq<char>,
    from: int,
    before: Seq<Seq<char>>,
    known: Seq<Seq<char>>,
)
    requires
        forall|u: Seq<char>| #[trigger]
            bundles(page, from, before).contains(u) ==> known.contains(u),
    ensures
        bundles(page, from, known) == known,
    decreases page.len() - from,
{
    match text::search::first_at(page, BUILD_PREFIX@, from) {
        Some(i) => if from <= i && i + BUILD_PREFIX@.len() <= page.len() && BUILD_PREFIX@.len() > 0 {
            let url = url_at(page, i);
            let at = i + BUILD_PREFIX@.len();
            let more = if is_bundle(url) && !before.contains(url) {
                before.push(url)
            } else {
                before
            };
            let all = bundles(page, at, more);
            assert(bundles(page, from, before) == all);
            if is_bundle(url) {
                bundles_extend(page, at, more);
                assert(more.contains(url)) by {
                    if !before.contains(url) {
                        assert(more[before.len() as int] == url);
                    }
                }
                let k = more.index_of(url);
                assert(all[k] == url);
                assert(all.contains(url));
            }
            bundles_add_nothing(page, at, more, known);
        },
        None => {},
    }
}

/// Nothing that starts in the first of two pages, with a line break between
/// them, reaches into the second.
proof fn pages_are_apart(a: Seq<char>, b: Seq<char>, from: int)
    requires
        0 <= from <= a.len(),
    ensures
        ({
            let both = a + seq!['\n'] + b;
            match text::search::first_at(a, BUILD_PREFIX@, from) {
                Some(i) => {
                    &&& text::search::first_at(both, BUILD_PREFIX@, from) == Some(i)
                    &&& url_at(both, i) == url_at(a, i)
                },
                None => text::search::first_at(both, BUILD_PREFIX@, from)
                    == text::search::first_at(both, BUILD_PREFIX@, a.len() as int + 1),
            }
        }),
{
    reveal_strlit("https://musescore.com/static/public/build/");
    let needle = BUILD_PREFIX@;
    let both = a + seq!['\n'] + b;
    let n = a.len() as int;
    assert forall|j: int| 0 <= j <= n implies #[trigger] text::search::occurs_at(both, needle, j)
        == text::search::occurs_at(a, needle, j) by {
        if j + needle.len() <= n {
            assert(both.subrange(j, j + needle.len()) =~= a.subrange(j, j + needle.len()));
        } else if j + needle.len() <= both.len() {
            let part = both.subrange(j, j + needle.len());
            assert(part[n - j] == '\n');
            assert(needle[n - j] != '\n');
        }
    }
    text::search::first_at_is_first(a, needle, from);
    match text::search::first_at(a, needle, from) {
        Some(i) => {
            text::search::first_at_found(both, needle, from, i);
            let f = |c: char| ends_url(c);
            text::split::first_where_is_first(a, f, i);
            let e = text::split::first_where(a, f, i);
            if e == n {
                assert(both[n] == '\n');
            }
            text::split::first_where_found(both, f, i, e);
            assert(url_at(both, i) =~= url_at(a, i));
        },
        None => {
            text::search::first_at_is_first(both, needle, n + 1);
            match text::search::first_at(both, needle, n + 1) {
                Some(i) => {
                    text::search::first_at_found(both, needle, from, i);
                },
                None => {
                    text::search::first_at_none(both, needle, from);
                },
            }
        },
    }
}

/// What is found in the second of two pages is what is found in it alone.
proof fn second_page_is_itself(a: Seq<char>, b: Seq<char>, from: int)
    requires
        0 <= from <= b.len(),
    ensures
        ({
            let both = a + seq!['\n'] + b;
            let next = a.len() as int + 1;
            match text::search::first_at(b, BUILD_PREFIX@, from) {
                Some(i) => {
                    &&& text::search::first_at(both, BUILD_PREFIX@, next + from) == Some(next + i)
                    &&& url_at(both, next + i) == url_at(b, i)
                },
                None => text::search::first_at(both, BUILD_PREFIX@, next + from) is None,
            }
        }),
{
    let both = a + seq!['\n'] + b;
    let next = a.len() as int + 1;
    assert(both.skip(next + from) =~= b.skip(from));
    text::search::first_at_of_skip(both, BUILD_PREFIX@, next + from);
    text::search::first_at_of_skip(b, BUILD_PREFIX@, from);
    if let Some(i) = text::search::first_at(b, BUILD_PREFIX@, from) {
        let f = |c: char| ends_url(c);
        text::search::first_at_is_first(b, BUILD_PREFIX@, from);
        text::split::first_where_is_first(b, f, i);
        let e = text::split::first_where(b, f, i);
        assert forall|j: int| next + i <= j < next + e implies !f(#[trigger] both[j]) by {
            assert(both[j] == b[j - next]);
        }
        if e < b.len() {
            assert(both[next + e] == b[e]);
        }
        text::split::first_where_found(both, f, next + i, next + e);
        assert(url_at(both, next + i) =~= url_at(b, i));
    }
}

/// What the first of two pages names comes first.
proof fn first_page_first(a: Seq<char>, b: Seq<char>, from: int, known: Seq<Seq<char>>)
    requires
        0 <= from <= a.len(),
    ensures
        bundles(a + seq!['\n'] + b, from, known) == bundles(
            a + seq!['\n'] + b,
            a.len() as int + 1,
            bundles(a, from, known),
        ),
    decreases a.len() - from,
{
    reveal_strlit("https://musescore.com/static/public/build/");
    let both = a + seq!['\n'] + b;
    pages_are_apart(a, b, from);
    text::search::first_at_is_first(a, BUILD_PREFIX@, from);
    match text::search::first_at(a, BUILD_PREFIX@, from) {
        Some(i) => {
            let url = url_at(a, i);
            let more = if is_bundle(url) && !known.contains(url) {
                known.push(url)
            } else {
                known
            };
            first_page_first(a, b, i + BUILD_PREFIX@.len(), more);
        },
        None => {
            text::search::first_at_is_first(both, BUILD_PREFIX@, a.len() as int + 1);
        },
    }
}

/// The second page adds what it names.
proof fn second_page_second(a: Seq<char>, b: Seq<char>, from: int, known: Seq<Seq<char>>)
    requires
        0 <= from <= b.len(),
    ensures
        bundles(a + seq!['\n'] + b, a.len() + 1 + from, known) == bundles(b, from, known),
    decreases b.len() - from,
{
    reveal_strlit("https://musescore.com/static/public/build/");
    second_page_is_itself(a, b, from);
    text::search::first_at_is_first(b, BUILD_PREFIX@, from);
    match text::search::first_at(b, BUILD_PREFIX@, from) {
        Some(i) => {
            let url = url_at(b, i);
            let more = if is_bundle(url) && !known.contains(url) {
                known.push(url)
            } else {
                known
            };
            second_page_second(a, b, i + BUILD_PREFIX@.len(), more);
        },
        None => {},
    }
}

/// The scripts are named in document order: what the front part of a page
/// names stays at the front, whatever lines follow, and what follows is added
/// behind it. A line that holds nothing but the address of a script, in quotes
/// or not, adds that address where it is not there yet.
pub proof fn bundles_in_document_order(a: Seq<char>, b: Seq<char>)
    ensures
        bundles(a + seq!['\n'] + b, 0, Seq::empty()) == bundles(b, 0, bundles(a, 0, Seq::empty())),
        bundles(a, 0, Seq::empty()).is_prefix_of(bundles(a + seq!['\n'] + b, 0, Seq::empty())),
        is_bundle(b) && (forall|i: int| 0 <= i < b.len() ==> !ends_url(#[trigger] b[i])) && (forall|
            i: int,
        |
            0 < i ==> !#[trigger] text::search::occurs_at(b, BUILD_PREFIX@, i)) && !bundles(
            a,
            0,
            Seq::empty(),
        ).contains(b) ==> bundles(a + seq!['\n'] + b, 0, Seq::empty()) == bundles(
            a,
            0,
            Seq::empty(),
        ).push(b),
{
    let known = bundles(a, 0, Seq::empty());
    first_page_first(a, b, 0, Seq::empty());
    second_page_second(a, b, 0, known);
    bundles_extend(b, 0, known);
    if is_bundle(b) && (forall|i: int| 0 <= i < b.len() ==> !ends_url(#[trigger] b[i])) && (forall|
        i: int,
    |
        0 < i ==> !#[trigger] text::search::occurs_at(b, BUILD_PREFIX@, i)) && !known.contains(b) {
        reveal_strlit("https://musescore.com/static/public/build/");
        let f = |c: char| ends_url(c);
        assert(b.subrange(0, BUILD_PREFIX@.len() as int) =~= BUILD_PREFIX@);
        assert(text::search::occurs_at(b, BUILD_PREFIX@, 0));
        text::search::first_at_found(b, BUILD_PREFIX@, 0, 0);
        text::split::first_where_found(b, f, 0, b.len() as int);
        assert(url_at(b, 0) =~= b);
        text::search::first_at_none(b, BUILD_PREFIX@, BUILD_PREFIX@.len() as int);
        assert(bundles(b, BUILD_PREFIX@.len() as int, known.push(b)) == known.push(b));
    }
}

/// Nothing that starts in the first of two copies of a page, with a line break
/// between them, reaches into the second.
proof fn copies_are_apart(page: Seq<char>, from: int)
    requires
        0 <= from <= page.len(),
    ensures
        ({
            let twice = page + seq!['\n'] + page;
            let next = page.len() as int + 1;
            &&& match text::search::first_at(page, BUILD_PREFIX@, from) {
                Some(i) => {
                    &&& text::search::first_at(twice, BUILD_PREFIX@, from) == Some(i)
                    &&& url_at(twice, i) == url_at(page, i)
                    &&& text::search::first_at(twice, BUILD_PREFIX@, next + from) == Some(next + i)
                    &&& url_at(twice, next + i) == url_at(page, i)
                },
                None => {
                    &&& text::search::first_at(twice, BUILD_PREFIX@, from)
                        == text::search::first_at(twice, BUILD_PREFIX@, next)
                    &&& text::search::first_at(twice, BUILD_PREFIX@, next + from) is None
                },
            }
        }),
{
    pages_are_apart(page, page, from);
    second_page_is_itself(page, page, from);
}

/// What the first copy of a page names comes first.
proof fn first_copy(page: Seq<char>, from: int, known: Seq<Seq<char>>)
    requires
        0 <= from <= page.len(),
    ensures
        bundles(page + seq!['\n'] + page, from, known) == bundles(
            page + seq!['\n'] + page,
            page.len() as int + 1,
            bundles(page, from, known),
        ),
    decreases page.len() - from,
{
    reveal_strlit("https://musescore.com/static/public/build/");
    let twice = page + seq!['\n'] + page;
    copies_are_apart(page, from);
    text::search::first_at_is_first(page, BUILD_PREFIX@, from);
    match text::search::first_at(page, BUILD_PREFIX@, from) {
        Some(i) => {
            let url = url_at(page, i);
            let more = if is_bundle(url) && !known.contains(url) {
                known.push(url)
            } else {
                known
            };
            first_copy(page, i + BUILD_PREFIX@.len(), more);
        },
        None => {
            text::search::first_at_is_first(twice, BUILD_PREFIX@, page.len() as int + 1);
        },
    }
}

/// The second copy of a page names what the page names.
proof fn second_copy(page: Seq<char>, from: int, known: Seq<Seq<char>>)
    requires
        0 <= from <= page.len(),
    ensures
        bundles(page + seq!['\n'] + page, page.len() + 1 + from, known) == bundles(
            page,
            from,
            known,
        ),
    decreases page.len() - from,
{
    reveal_strlit("https://musescore.com/static/public/build/");
    copies_are_apart(page, from);
    text::search::first_at_is_first(page, BUILD_PREFIX@, from);
    match text::search::first_at(page, BUILD_PREFIX@, from) {
        Some(i) => {
            let url = url_at(page, i);
            let more = if is_bundle(url) && !known.contains(url) {
                known.push(url)
            } else {
                known
            };
            second_copy(page, i + BUILD_PREFIX@.len(), more);
        },
        None => {},
    }
}

/// A page followed by itself on the next line names the scripts that the page
/// names.
pub proof fn bundles_of_a_repeated_page(page: Seq<char>)
    ensures
        bundles(page + seq!['\n'] + page, 0, Seq::empty()) == bundles(page, 0, Seq::empty()),
{
    let once = bundles(page, 0, Seq::empty());
    first_copy(page, 0, Seq::empty());
    second_copy(page, 0, once);
    bundles_add_nothing(page, 0, Seq::empty(), once);
}

/// A script is a bundle exactly where it is one of MuseScore's own, of a dated
/// build.
pub proof fn bundles_are_dated_scripts(app: Seq<char>, date: Seq<char>)
    ensures
        is_bundle(BUILD_PREFIX@ + "musescore"@ + app + "/20"@ + date + ".js"@),
        forall|url: Seq<char>| #[trigger]
            is_bundle(url) ==> BUILD_PREFIX@.is_prefix_of(url) && ".js"@.is_suffix_of(url)
                && text::search::contains(url, "/20"@) && text::search::contains(
                url,
                "musescore"@,
            ),
{
    let rest = "musescore"@ + app + "/20"@ + date + ".js"@;
    let url = BUILD_PREFIX@ + "musescore"@ + app + "/20"@ + date + ".js"@;
    assert(url =~= BUILD_PREFIX@ + rest);
    text::search::affixes_come_off(BUILD_PREFIX@, rest);
    let tail = app + "/20"@ + date + ".js"@;
    assert(rest =~= "musescore"@ + tail);
    text::search::affixes_come_off("musescore"@, tail);
    let k = ("musescore"@ + app).len() as int;
    assert(rest.subrange(k, k + "/20"@.len()) =~= "/20"@);
    assert(text::search::occurs_at(rest, "/20"@, k));
    text::search::affixes_come_off(".js"@, BUILD_PREFIX@ + "musescore"@ + app + "/20"@ + date);
    assert forall|u: Seq<char>| #[trigger] is_bundle(u) implies BUILD_PREFIX@.is_prefix_of(u)
        && ".js"@.is_suffix_of(u) && text::search::contains(u, "/20"@) && text::search::contains(
        u,
        "musescore"@,
    ) by {
        let r = text::search::without_prefix(u, BUILD_PREFIX@)->0;
        let n = BUILD_PREFIX@.len() as int;
        let j = choose|j: int| text::search::occurs_at(r, "/20"@, j);
        assert(u.subrange(n + j, n + j + "/20"@.len()) =~= r.subrange(j, j + "/20"@.len()));
        assert(text::search::occurs_at(u, "/20"@, n + j));
        assert(u.subrange(n, n + "musescore"@.len()) =~= "musescore"@);
        assert(text::search::occurs_at(u, "musescore"@, n));
    }
}

fn not_digit(c: char) -> (b: bool)
    ensures
        b == !text::is_digit(c),
{
    !text::digit(c)
}

fn not_hex_digit(c: char) -> (b: bool)
    ensures
        b == !text::is_hex_digit(c),
{
    !text::hex_digit(c)
}

fn double_quote(c: char) -> (b: bool)
    ensures
        b == (c == '"'),
{
    c == '"'
}

/// The digits of a page from position `i` on.
pub open spec fn digits_at(page: Seq<char>, i: int) -> Seq<char> {
    page.subrange(i, text::split::first_where(page, |c: char| !text::is_digit(c), i))
}

/// The first positive number that stands directly behind `needle`, from
/// position `from` on. Numbers past `usize` are passed over.
pub open spec fn number_behind(page: Seq<char>, needle: Seq<char>, from: int) -> Option<nat>
    decreases page.len() - from,
{
    match text::search::first_at(page, needle, from) {
        Some(i) => if from <= i && i + needle.len() <= page.len() && needle.len() > 0 {
            let at = i + needle.len();
            match text::number::parsed_unsigned(digits_at(page, at), usize::MAX as nat) {
                Some(n) => if n > 0 {
                    Some(n)
                } else {
                    number_behind(page, needle, at)
                },
                None => number_behind(page, needle, at),
            }
        } else {
            None
        },
        None => None,
    }
}

fn find_number_behind(page: &str, needle: &str) -> (r: Option<usize>)
    requires
        needle@.len() > 0,
    ensures
        number_behind(page@, needle@, 0) == (match r {
            Some(n) => Some(n as nat),
            None => None,
        }),
{
    let chars = text::chars_of(page);
    let key = text::chars_of(needle);
    let mut start: usize = 0;
    loop
        invariant
            chars@ == page@,
            key@ == needle@,
            needle@.len() > 0,
            start <= chars@.len(),
            number_behind(page@, needle@, 0) == number_behind(page@, needle@, start as int),
        decreases chars@.len() - start,
    {
        match text::search::find(&chars, &key, start) {
            Some(i) => {
                let at = i + key.len();
                let end = text::split::find_where(
                    &chars,
                    not_digit,
                    at,
                    Ghost(|c: char| !text::is_digit(c)),
                );
                let digits = text::slice_of(&chars, at, end);
                if let Some(n) = text::number::parse_unsigned(digits.as_str(), usize::MAX as u64) {
                    if n > 0 {
                        return Some(n as usize);
                    }
                }
                start = at;
            },
            None => {
                return None;
            },
        }
    }
}

/// The page count that stands in a page as `pages":<n>`, or with the quote
/// written as an entity.
pub open spec fn pages_in(page: Seq<char>) -> Option<nat> {
    match number_behind(page, "pages\":"@, 0) {
        Some(n) => Some(n),
        None => number_behind(page, "pages&quot;:"@, 0),
    }
}

pub fn find_pages_count_regex(page: &str) -> (r: Option<usize>)
    ensures
        pages_in(page@) == (match r {
            Some(n) => Some(n as nat),
            None => None,
        }),
{
    proof {
        reveal_strlit("pages\":");
        reveal_strlit("pages&quot;:");
    }
    match find_number_behind(page, "pages\":") {
        Some(n) => Some(n),
        None => find_number_behind(page, "pages&quot;:"),
    }
}

/// The first of a list of attribute values that is there.
pub open spec fn first_present(attrs: Seq<Option<Seq<char>>>) -> Option<Seq<char>>
    decreases attrs.len(),
{
    if attrs.len() == 0 {
        None
    } else if attrs[0] is Some {
        attrs[0]
    } else {
        first_present(attrs.drop_first())
    }
}

fn take_first_present(attrs: &Vec<Option<String>>) -> (r: Option<String>)
    ensures
        text::view_opt(r) == first_present(html::attr_views(attrs@)),
{
    let ghost all = html::attr_views(attrs@);
    assert(all.skip(0) =~= all);
    for i in 0..attrs.len()
        invariant
            all == html::attr_views(attrs@),
            first_present(all) == first_present(all.skip(i as int)),
    {
        assert(all.skip(i as int)[0] == text::view_opt(attrs@[i as int]));
        assert(all.skip(i as int).drop_first() =~= all.skip(i + 1));
        if let Some(a) = &attrs[i] {
            return Some(text::owned(a.as_str()));
        }
    }
    None
}

/// The image of a score's first page, from what a page preloads and the page
/// images that it shows: the first preloaded image, or else the first page
/// image, without the size tag that starts at `@`.
pub open spec fn first_page(
    preloads: Option<Seq<Option<Seq<char>>>>,
    images: Option<Seq<Option<Seq<char>>>>,
) -> Option<Seq<char>> {
    let preloaded = match preloads {
        Some(list) => first_present(list),
        None => None,
    };
    let shown = match images {
        Some(list) => first_present(list),
        None => None,
    };
    let raw = if preloaded is Some {
        preloaded
    } else {
        shown
    };
    match raw {
        Some(url) => if url.len() > 0 {
            Some(text::split::before_first(url, |c: char| c == '@'))
        } else {
            None
        },
        None => None,
    }
}

fn at_sign(c: char) -> (b: bool)
    ensures
        b == (c == '@'),
{
    c == '@'
}

/// The image of a score's first page, from the attributes of a page's
/// preloaded and shown images.
pub fn first_page_image(
    preloads: &Option<Vec<Option<String>>>,
    images: &Option<Vec<Option<String>>>,
) -> (r: Option<String>)
    ensures
        text::view_opt(r) == first_page(
            match *preloads {
                Some(list) => Some(html::attr_views(list@)),
                None => None,
            },
            match *images {
                Some(list) => Some(html::attr_views(list@)),
                None => None,
            },
        ),
{
    let preloaded = match preloads {
        Some(list) => take_first_present(list),
        None => None,
    };
    let raw = match preloaded {
        Some(url) => Some(url),
        None => match images {
            Some(list) => take_first_present(list),
            None => None,
        },
    };
    match raw {
        Some(url) => if text::is_empty(url.as_str()) {
            None
        } else {
            Some(text::split::head(url.as_str(), at_sign, Ghost(|c: char| c == '@')))
        },
        None => None,
    }
}

/// The image of a score's first page, which the page names without a token.
pub fn extract_first_page_url(page: &str) -> (r: Option<String>)
    ensures
        text::view_opt(r) == first_page(
            html::attrs_of(page@, "link[as=\"image\"]"@, "href"@),
            html::attrs_of(page@, "img[src*=\"score_0\"]"@, "src"@),
        ),
{
    let preloads = html::select_attrs(page, "link[as=\"image\"]", "href");
    let images = html::select_attrs(page, "img[src*=\"score_0\"]", "src");
    first_page_image(&preloads, &images)
}

/// `url`, up to a query or size tag, names an SVG file.
pub open spec fn is_svg(url: Seq<char>) -> bool {
    ".svg"@.is_suffix_of(text::split::before_first(url, |c: char| c == '?' || c == '@'))
}

fn query_or_tag(c: char) -> (b: bool)
    ensures
        b == (c == '?' || c == '@'),
{
    c == '?' || c == '@'
}

pub fn is_svg_asset(url: &str) -> (b: bool)
    ensures
        b == is_svg(url@),
{
    let base = text::split::head(url, query_or_tag, Ghost(|c: char| c == '?' || c == '@'));
    text::search::ends_with(base.as_str(), ".svg")
}

/// What stands behind a prefix and the white space after it.
pub open spec fn behind(s: Seq<char>, p: Seq<char>) -> Option<Seq<char>> {
    match text::search::without_prefix(s, p) {
        Some(rest) => Some(text::trim::trimmed_start(rest)),
        None => None,
    }
}

/// `s` goes on with `.substr(0, 4)`, white space before each part left aside.
pub open spec fn takes_four(s: Seq<char>) -> bool {
    match behind(text::trim::trimmed_start(s), ".substr("@) {
        Some(args) => match behind(args, "0,"@) {
            Some(len) => match behind(len, "4"@) {
                Some(end) => ")"@.is_prefix_of(end),
                None => false,
            },
            None => false,
        },
        None => false,
    }
}

pub fn substr_zero_four_follows(after: &str) -> (b: bool)
    ensures
        b == takes_four(after@),
{
    let trimmed = text::trim::trim_start(after);
    match text::search::strip_prefix(trimmed.as_str(), ".substr(") {
        Some(args) => {
            let args = text::trim::trim_start(args.as_str());
            match text::search::strip_prefix(args.as_str(), "0,") {
                Some(len) => {
                    let len = text::trim::trim_start(len.as_str());
                    match text::search::strip_prefix(len.as_str(), "4") {
                        Some(end) => {
                            let end = text::trim::trim_start(end.as_str());
                            text::search::starts_with(end.as_str(), ")")
                        },
                        None => false,
                    }
                },
                None => false,
            }
        },
        None => false,
    }
}

/// The last double quote of `s` at or behind `lo` and before `hi`.
pub open spec fn last_quote(s: Seq<char>, lo: int, hi: int) -> Option<int>
    decreases hi - lo,
{
    if hi <= lo {
        None
    } else if s[hi - 1] == '"' {
        Some(hi - 1)
    } else {
        last_quote(s, lo, hi - 1)
    }
}

/// The salt whose closing quote and bracket stand at `close`: the non-empty
/// text since the last quote, of no more than [`MAX_SALT`] characters, where
/// the first four characters of the call's result are taken.
pub open spec fn salt_at(s: Seq<char>, close: int) -> Option<Seq<char>> {
    let lo = if close <= MAX_SALT {
        0
    } else {
        close - MAX_SALT - 1
    };
    match last_quote(s, lo, close) {
        Some(open) => if open + 1 < close && takes_four(s.skip(close + 2)) {
            Some(s.subrange(open + 1, close))
        } else {
            None
        },
        None => None,
    }
}

/// The first salt of a script from position `from` on.
pub open spec fn salt_from(s: Seq<char>, from: int) -> Option<Seq<char>>
    decreases s.len() - from,
{
    match text::search::first_at(s, "\")"@, from) {
        Some(i) => if from <= i && i + 2 <= s.len() {
            match salt_at(s, i) {
                Some(salt) => Some(salt),
                None => salt_from(s, i + 2),
            }
        } else {
            None
        },
        None => None,
    }
}

fn find_last_quote(s: &[char], lo: usize, hi: usize) -> (r: Option<usize>)
    requires
        lo <= hi <= s@.len(),
    ensures
        last_quote(s@, lo as int, hi as int) == (match r {
            Some(i) => Some(i as int),
            None => None,
        }),
        r matches Some(i) ==> lo <= i < hi,
{
    let mut i: usize = hi;
    while i > lo
        invariant
            lo <= i <= hi <= s@.len(),
            last_quote(s@, lo as int, hi as int) == last_quote(s@, lo as int, i as int),
        decreases i,
    {
        if s[i - 1] == '"' {
            return Some(i - 1);
        }
        i = i - 1;
    }
    None
}

/// The salt that a script feeds into the page tokens: the string literal
/// before `).substr(0, 4)`.
pub fn find_random_token(s: &str) -> (r: Option<String>)
    ensures
        text::view_opt(r) == salt_from(s@, 0),
{
    proof {
        reveal_strlit("\")");
    }
    let chars = text::chars_of(s);
    let needle = text::chars_of("\")");
    let mut start: usize = 0;
    loop
        invariant
            chars@ == s@,
            needle@ == "\")"@,
            needle@.len() == 2,
            start <= chars@.len(),
            salt_from(s@, 0) == salt_from(s@, start as int),
        decreases chars@.len() - start,
    {
        match text::search::find(&chars, &needle, start) {
            Some(close) => {
                let lo: usize = if close <= MAX_SALT {
                    0
                } else {
                    close - MAX_SALT - 1
                };
                if let Some(open) = find_last_quote(&chars, lo, close) {
                    let after = text::slice_of(&chars, close + 2, chars.len());
                    assert(after@ =~= s@.skip(close + 2));
                    if open + 1 < close && substr_zero_four_follows(after.as_str()) {
                        return Some(text::slice_of(&chars, open + 1, close));
                    }
                }
                start = close + 2;
            },
            None => {
                return None;
            },
        }
    }
}

/// Where the hexadecimal digits end that start at position `i`.
pub open spec fn hex_end(page: Seq<char>, i: int) -> int {
    text::split::first_where(page, |c: char| !text::is_hex_digit(c), i)
}

/// The `data-` at position `i` starts an attribute with a long hexadecimal
/// name and a quoted value.
pub open spec fn is_data_attr(page: Seq<char>, i: int) -> bool {
    hex_end(page, i + 5) - (i + 5) >= HASH_DIGITS && text::search::occurs_at(
        page,
        "=\""@,
        hex_end(page, i + 5),
    )
}

/// The first attribute with a long hexadecimal name, from `from` on.
pub open spec fn data_attr(page: Seq<char>, from: int) -> Option<int>
    decreases page.len() - from,
{
    match text::search::first_at(page, "data-"@, from) {
        Some(i) => if from <= i && i + 5 <= page.len() {
            if is_data_attr(page, i) {
                Some(i)
            } else {
                data_attr(page, i + 5)
            }
        } else {
            None
        },
        None => None,
    }
}

/// The data of a page: the value of its first attribute with a long
/// hexadecimal name, entities decoded. None where the value is not closed.
pub open spec fn hydration(page: Seq<char>) -> Option<Seq<char>> {
    match data_attr(page, 0) {
        Some(i) => {
            let from = hex_end(page, i + 5) + 2;
            let close = text::split::first_where(page, |c: char| c == '"', from);
            if close < page.len() {
                Some(html::unescaped(page.subrange(from, close)))
            } else {
                None
            }
        },
        None => None,
    }
}

/// The first attribute with a long hexadecimal name: where it starts, and
/// where the digits of its name end.
fn find_data_attr(chars: &[char]) -> (r: Option<(usize, usize)>)
    ensures
        data_attr(chars@, 0) == (match r {
            Some((i, _)) => Some(i as int),
            None => None,
        }),
        r matches Some((i, end)) ==> end == hex_end(chars@, i + 5) && end + 2 <= chars@.len(),
{
    proof {
        reveal_strlit("data-");
        reveal_strlit("=\"");
    }
    let needle = text::chars_of("data-");
    let open = text::chars_of("=\"");
    let mut start: usize = 0;
    loop
        invariant
            needle@ == "data-"@,
            needle@.len() == 5,
            open@ == "=\""@,
            open@.len() == 2,
            start <= chars@.len(),
            data_attr(chars@, 0) == data_attr(chars@, start as int),
        decreases chars@.len() - start,
    {
        match text::search::find(chars, &needle, start) {
            Some(i) => {
                let end = text::split::find_where(
                    chars,
                    not_hex_digit,
                    i + 5,
                    Ghost(|c: char| !text::is_hex_digit(c)),
                );
                if end - (i + 5) >= HASH_DIGITS && text::search::at(chars, &open, end) {
                    return Some((i, end));
                }
                start = i + 5;
            },
            None => {
                return None;
            },
        }
    }
}

/// The data of a page.
pub fn find_hydration_json(page: &str) -> (r: Option<String>)
    ensures
        text::view_opt(r) == hydration(page@),
{
    let chars = text::chars_of(page);
    match find_data_attr(&chars) {
        Some((_, end)) => {
            let from = end + 2;
            let close = text::split::find_where(
                &chars,
                double_quote,
                from,
                Ghost(|c: char| c == '"'),
            );
            if close < chars.len() {
                let raw = text::slice_of(&chars, from, close);
                Some(html_unescape(raw.as_str()))
            } else {
                None
            }
        },
        None => None,
    }
}

/// Somewhere in the page a `data-` starts an attribute with a long hexadecimal
/// name and a quoted value.
pub open spec fn has_data_attr(page: Seq<char>) -> bool {
    exists|i: int| #[trigger] text::search::occurs_at(page, "data-"@, i) && is_data_attr(page, i)
}

/// The scan finds such an attribute exactly where the page has one behind the
/// position that it starts from.
pub proof fn data_attrs_are_found(page: Seq<char>, from: int)
    requires
        0 <= from,
    ensures
        match data_attr(page, from) {
            Some(i) => from <= i && text::search::occurs_at(page, "data-"@, i) && is_data_attr(
                page,
                i,
            ),
            None => forall|i: int|
                from <= i && #[trigger] text::search::occurs_at(page, "data-"@, i)
                    ==> !is_data_attr(page, i),
        },
    decreases page.len() - from,
{
    reveal_strlit("data-");
    text::search::first_at_is_first(page, "data-"@, from);
    if let Some(k) = text::search::first_at(page, "data-"@, from) {
        if !is_data_attr(page, k) {
            data_attrs_are_found(page, k + 5);
            assert forall|i: int|
                k < i < k + 5 implies !#[trigger] text::search::occurs_at(page, "data-"@, i) by {
                if text::search::occurs_at(page, "data-"@, i) {
                    assert(page.subrange(i, i + 5)[0] == page[i]);
                    assert(page.subrange(k, k + 5)[i - k] == page[i]);
                }
            }
        }
    }
}

/// Whether a page has an attribute with a long hexadecimal name.
pub fn scan_for_data_hash_attr(page: &str) -> (b: bool)
    ensures
        b == has_data_attr(page@),
        b == (data_attr(page@, 0) is Some),
{
    proof {
        data_attrs_are_found(page@, 0);
    }
    let chars = text::chars_of(page);
    match find_data_attr(&chars) {
        Some(_) => true,
        None => false,
    }
}

/// A page without such an attribute has no data.
pub proof fn no_attr_no_data(page: Seq<char>)
    ensures
        data_attr(page, 0) is None ==> hydration(page) is None,
{
}

/// `s` with its HTML entities decoded.
pub fn html_unescape(s: &str) -> (out: String)
    ensures
        out@ == html::unescaped(s@),
{
    html::decode_entities(s)
}

/// A character that ends the id in the address of a score.
pub open spec fn ends_score_id(c: char) -> bool {
    c == '/' || c == '?' || c == '#'
}

fn score_id_end(c: char) -> (b: bool)
    ensures
        b == ends_score_id(c),
{
    c == '/' || c == '?' || c == '#'
}

/// The score id in an address: the number behind the first `/scores/`.
pub open spec fn score_id(url: Seq<char>) -> Option<nat> {
    match text::search::first_at(url, "/scores/"@, 0) {
        Some(i) => text::number::parsed_unsigned(
            text::split::before_first(
                url.skip(i + "/scores/"@.len()),
                |c: char| ends_score_id(c),
            ),
            u64::MAX as nat,
        ),
        None => None,
    }
}

pub fn parse_score_id_from_url(url: &str) -> (r: Option<u64>)
    ensures
        score_id(url@) == (match r {
            Some(n) => Some(n as nat),
            None => None,
        }),
{
    let chars = text::chars_of(url);
    let needle = text::chars_of("/scores/");
    match text::search::find(&chars, &needle, 0) {
        Some(i) => {
            let rest = text::slice_of(&chars, i + needle.len(), chars.len());
            assert(rest@ =~= url@.skip(i + "/scores/"@.len()));
            let id = text::split::head(
                rest.as_str(),
                score_id_end,
                Ghost(|c: char| ends_score_id(c)),
            );
            text::number::parse_unsigned(id.as_str(), u64::MAX)
        },
        None => None,
    }
}

/// A title without the markers around the words that a query matched.
pub open spec fn without_markers(s: Seq<char>) -> Seq<char> {
    text::search::replaced(text::search::replaced(s, "[b]"@, ""@), "[/b]"@, ""@)
}

pub fn strip_highlight_markers(s: &str) -> (out: String)
    ensures
        out@ == without_markers(s@),
{
    proof {
        reveal_strlit("[b]");
        reveal_strlit("[/b]");
    }
    let opened = text::search::replace(s, "[b]", "");
    text::search::replace(opened.as_str(), "[/b]", "")
}

/// How much of the markup around a link is shown, in characters.
pub const MARKUP_SHOWN: usize = 1200;

/// The links to scores that a page has.
pub const SCORE_LINK: &'static str = "a[href*=\"/scores/\"]";

/// What is shown of a link, given the markup of the element around it, where
/// there is one, and its own.
pub open spec fn shown_markup(around: Option<Seq<char>>, own: Seq<char>) -> Seq<char> {
    text::first_chars(
        match around {
            Some(s) => s,
            None => own,
        },
        MARKUP_SHOWN as nat,
    )
}

pub fn card_markup(markup: &html::Markup) -> (out: String)
    ensures
        out@ == shown_markup(markup@.0, markup@.1),
{
    match &markup.around {
        Some(s) => truncate_for_log(s.as_str(), MARKUP_SHOWN),
        None => truncate_for_log(markup.own.as_str(), MARKUP_SHOWN),
    }
}

/// How many links to scores a page has.
pub open spec fn score_links(page: Seq<char>) -> nat {
    match html::attrs_of(page, SCORE_LINK@, "href"@) {
        Some(list) => list.len(),
        None => 0,
    }
}

/// What is shown of the first link to a score that a page has; nothing where
/// it has none.
pub open spec fn first_card(page: Seq<char>) -> Seq<char> {
    match html::first_markup(page, SCORE_LINK@) {
        Some((around, own)) => shown_markup(around, own),
        None => Seq::empty(),
    }
}

/// How many links to scores a page has, and what is shown of the first.
pub fn diagnose_score_links(page: &str) -> (r: (usize, String))
    ensures
        r.0 == score_links(page@),
        r.1@ == first_card(page@),
        r.0 == 0 ==> r.1@ == Seq::<char>::empty(),
{
    let count: usize = match html::select_attrs(page, SCORE_LINK, "href") {
        Some(list) => list.len(),
        None => 0,
    };
    match html::select_first_markup(page, SCORE_LINK) {
        Some(markup) => (count, card_markup(&markup)),
        None => (count, String::new()),
    }
}

// ----- What is read off a page -----

/// A page is a challenge exactly where it holds one of the two phrases of
/// Cloudflare's pages, wherever they stand.
pub proof fn challenges_are_told_by_their_phrases(a: Seq<char>, b: Seq<char>)
    ensures
        is_challenge(a + "Just a moment"@ + b),
        is_challenge(a + "Attention Required"@ + b),
        forall|page: Seq<char>| #[trigger]
            is_challenge(page) ==> (exists|i: int| #[trigger]
                text::search::occurs_at(page, "Just a moment"@, i)) || (exists|i: int| #[trigger]
                text::search::occurs_at(page, "Attention Required"@, i)),
{
    let n = a.len() as int;
    let p = "Just a moment"@;
    let q = "Attention Required"@;
    assert((a + p + b).subrange(n, n + p.len()) =~= p);
    assert(text::search::occurs_at(a + p + b, p, n));
    assert((a + q + b).subrange(n, n + q.len()) =~= q);
    assert(text::search::occurs_at(a + q + b, q, n));
}

/// `list[i]` is there, and nothing before it is.
pub open spec fn is_first_present(list: Seq<Option<Seq<char>>>, i: int) -> bool {
    &&& 0 <= i < list.len()
    &&& list[i] is Some
    &&& forall|j: int| 0 <= j < i ==> (#[trigger] list[j]) is None
}

/// The first value of a list that is there is the one that is taken.
proof fn first_present_is_first(list: Seq<Option<Seq<char>>>, i: int)
    ensures
        is_first_present(list, i) ==> first_present(list) == list[i],
        (forall|j: int| 0 <= j < list.len() ==> (#[trigger] list[j]) is None) ==> first_present(
            list,
        ) is None,
    decreases list.len(),
{
    if list.len() > 0 {
        let rest = list.drop_first();
        first_present_is_first(rest, i - 1);
        if is_first_present(list, i) && i > 0 {
            assert(list[0] is None);
            assert(rest[i - 1] == list[i]);
            assert forall|j: int| 0 <= j < i - 1 implies (#[trigger] rest[j]) is None by {
                assert(rest[j] == list[j + 1]);
            }
        }
        if forall|j: int| 0 <= j < list.len() ==> (#[trigger] list[j]) is None {
            assert(list[0] is None);
            assert forall|j: int| 0 <= j < rest.len() implies (#[trigger] rest[j]) is None by {
                assert(rest[j] == list[j + 1]);
            }
        }
    }
}

/// The image of the first page is the first that the page preloads; only where
/// it preloads none is it the first page image that it shows. What stands from
/// the first `@` on is no part of the address. A page with neither has none.
pub proof fn preloads_come_before_images(
    preloads: Option<Seq<Option<Seq<char>>>>,
    images: Option<Seq<Option<Seq<char>>>>,
    i: int,
    url: Seq<char>,
    tag: Seq<char>,
)
    requires
        url.len() > 0,
        forall|k: int| 0 <= k < url.len() ==> (#[trigger] url[k]) != '@',
    ensures
        preloads is Some && is_first_present(preloads->0, i) && ((preloads->0)[i] == Some(url) || (
        preloads->0)[i] == Some(url + seq!['@'] + tag)) ==> first_page(preloads, images) == Some(
            url,
        ),
        (preloads is None || forall|j: int|
            0 <= j < (preloads->0).len() ==> (#[trigger] (preloads->0)[j]) is None) && images is Some
            && is_first_present(images->0, i) && ((images->0)[i] == Some(url) || (images->0)[i]
            == Some(url + seq!['@'] + tag)) ==> first_page(preloads, images) == Some(url),
        (preloads is None || (preloads->0).len() == 0) && (images is None || (images->0).len() == 0)
            ==> first_page(preloads, images) is None,
{
    let f = |c: char| c == '@';
    text::split::ends_are_cut_at_separators(url, '@', tag, f);
    if preloads is Some {
        first_present_is_first(preloads->0, i);
    }
    if images is Some {
        first_present_is_first(images->0, i);
    }
}

/// An address is that of an SVG image exactly where its path ends so: what
/// stands behind the first `?` or `@` does not count.
pub proof fn svg_is_told_by_the_path(path: Seq<char>, mark: char, rest: Seq<char>)
    requires
        mark == '?' || mark == '@',
        forall|k: int| 0 <= k < path.len() ==> (#[trigger] path[k]) != '?' && path[k] != '@',
    ensures
        is_svg(path) == ".svg"@.is_suffix_of(path),
        is_svg(path + seq![mark] + rest) == ".svg"@.is_suffix_of(path),
{
    let f = |c: char| c == '?' || c == '@';
    text::split::ends_are_cut_at_separators(path, mark, rest, f);
}

/// The number of a score stands in its address behind the first `/scores/`,
/// up to the end, a slash, a query or a fragment. An address without that has
/// none.
pub proof fn score_ids_stand_behind_scores(head: Seq<char>, n: u64, rest: Seq<char>)
    requires
        forall|i: int|
            0 <= i < head.len() ==> !#[trigger] text::search::occurs_at(
                head + "/scores/"@,
                "/scores/"@,
                i,
            ),
        rest.len() > 0 ==> rest[0] == '/' || rest[0] == '?' || rest[0] == '#',
    ensures
        score_id(head + "/scores/"@ + text::number::decimal(n as nat) + rest) == Some(n as nat),
        forall|url: Seq<char>|
            !(#[trigger] text::search::contains(url, "/scores/"@)) ==> score_id(url) is None,
{
    reveal_strlit("/scores/");
    let p = "/scores/"@;
    let digits = text::number::decimal(n as nat);
    let url = head + p + digits + rest;
    let k = head.len() as int;
    assert(url.subrange(k, k + p.len()) =~= p);
    assert forall|i: int| 0 <= i < k implies !text::search::occurs_at(url, p, i) by {
        if text::search::occurs_at(url, p, i) {
            assert((head + p).subrange(i, i + p.len()) =~= url.subrange(i, i + p.len()));
            assert(text::search::occurs_at(head + p, p, i));
        }
    }
    text::search::first_at_found(url, p, 0, k);
    let f = |c: char| ends_score_id(c);
    let tail = digits + rest;
    assert(url.skip(k + p.len()) =~= tail);
    text::number::decimal_is_digits(n as nat);
    assert forall|i: int| 0 <= i < digits.len() implies !f(#[trigger] tail[i]) by {
        assert(tail[i] == digits[i]);
        assert(text::is_digit(digits[i]));
    }
    if rest.len() > 0 {
        assert(tail[digits.len() as int] == rest[0]);
    }
    text::split::first_where_found(tail, f, 0, digits.len() as int);
    assert(tail.take(digits.len() as int) =~= digits);
    text::number::decimal_round_trip(n as nat, u64::MAX as nat);
    assert forall|u: Seq<char>|
        !(#[trigger] text::search::contains(u, p)) implies score_id(u) is None by {
        text::search::first_at_is_first(u, p, 0);
    }
}

/// Only the markers around matched words are taken out of a title: a title
/// without a bracket stays as it is, and a marked word keeps its letters.
pub proof fn titles_lose_only_markers(a: Seq<char>, b: Seq<char>, c: Seq<char>)
    requires
        !a.contains('['),
        !b.contains('['),
        !c.contains('['),
    ensures
        without_markers(a) == a,
        without_markers(a + "[b]"@ + b + "[/b]"@ + c) == a + b + c,
{
    reveal_strlit("[b]");
    reveal_strlit("[/b]");
    reveal_strlit("");
    let on = "[b]"@;
    let off = "[/b]"@;
    let e = Seq::<char>::empty();
    text::search::nothing_starts_without_its_first(a, on, e);
    text::search::nothing_starts_without_its_first(a, off, e);
    text::search::replacing_what_is_not_there(a, on, ""@);
    text::search::replacing_what_is_not_there(a, off, ""@);
    let rest = b + off + c;
    assert(a + on + b + off + c =~= a + on + rest);
    text::search::nothing_starts_without_its_first(a, on, on + rest);
    assert(a + on + rest =~= a + (on + rest));
    text::search::replacing_goes_on_behind(a, on, rest, ""@);
    assert(!text::search::contains(rest, on)) by {
        assert forall|i: int| !text::search::occurs_at(rest, on, i) by {
            if text::search::occurs_at(rest, on, i) {
                let part = rest.subrange(i, i + 3);
                assert(part[0] == rest[i] && part[1] == rest[i + 1]);
                if i < b.len() {
                    assert(b.contains(b[i]));
                } else if i < b.len() + 4 {
                    assert(rest[i] == off[i - b.len()]);
                    assert(i == b.len());
                    assert(rest[i + 1] == off[1]);
                } else {
                    assert(c.contains(c[i - b.len() - 4]));
                }
            }
        }
    }
    text::search::replacing_what_is_not_there(rest, on, ""@);
    let once = a + ""@ + rest;
    assert(once =~= (a + b) + off + c);
    assert(!(a + b).contains('[')) by {
        assert forall|i: int| 0 <= i < (a + b).len() implies (a + b)[i] != '[' by {
            if i < a.len() {
                assert(a.contains(a[i]));
            } else {
                assert(b.contains(b[i - a.len()]));
            }
        }
    }
    text::search::nothing_starts_without_its_first(a + b, off, off + c);
    assert((a + b) + off + c =~= (a + b) + (off + c));
    text::search::replacing_goes_on_behind(a + b, off, c, ""@);
    text::search::nothing_starts_without_its_first(c, off, e);
    text::search::replacing_what_is_not_there(c, off, ""@);
    assert((a + b) + ""@ + c =~= a + b + c);
}

/// The page count in the text of a page is the first positive number that
/// stands directly behind a mention of its name. A mention without one, or
/// with a zero, is passed over. The name with a plain quote comes before the
/// one with an entity.
pub proof fn counts_stand_behind_their_name(
    head: Seq<char>,
    needle: Seq<char>,
    n: nat,
    rest: Seq<char>,
)
    requires
        needle.len() > 0,
        0 < n <= usize::MAX,
        forall|i: int|
            0 <= i < head.len() ==> !#[trigger] text::search::occurs_at(
                head + needle + text::number::decimal(n) + rest,
                needle,
                i,
            ),
        rest.len() > 0 ==> !text::is_digit(rest[0]),
    ensures
        number_behind(head + needle + text::number::decimal(n) + rest, needle, 0) == Some(n),
        forall|page: Seq<char>|
            !(#[trigger] text::search::contains(page, needle)) ==> number_behind(page, needle, 0)
                is None,
        forall|page: Seq<char>|
            number_behind(page, "pages\":"@, 0) is Some ==> #[trigger] pages_in(page)
                == number_behind(page, "pages\":"@, 0),
        forall|page: Seq<char>|
            number_behind(page, "pages\":"@, 0) is None ==> #[trigger] pages_in(page)
                == number_behind(page, "pages&quot;:"@, 0),
{
    let digits = text::number::decimal(n);
    let page = head + needle + digits + rest;
    let k = head.len() as int;
    assert(page.subrange(k, k + needle.len()) =~= needle);
    text::search::first_at_found(page, needle, 0, k);
    let at = k + needle.len();
    let f = |c: char| !text::is_digit(c);
    text::number::decimal_is_digits(n);
    assert forall|j: int| at <= j < at + digits.len() implies !f(#[trigger] page[j]) by {
        assert(page[j] == digits[j - at]);
        assert(text::is_digit(digits[j - at]));
    }
    if rest.len() > 0 {
        assert(page[at + digits.len()] == rest[0]);
    }
    text::split::first_where_found(page, f, at, at + digits.len());
    assert(digits_at(page, at) =~= digits);
    text::number::decimal_round_trip(n, usize::MAX as nat);
    assert forall|q: Seq<char>|
        !(#[trigger] text::search::contains(q, needle)) implies number_behind(q, needle, 0) is None by {
        text::search::first_at_is_first(q, needle, 0);
    }
}

/// A mention of the name without a positive number behind it is passed over.
pub proof fn empty_counts_are_passed_over(page: Seq<char>, needle: Seq<char>, from: int)
    requires
        needle.len() > 0,
        0 <= from,
    ensures
        match number_behind(page, needle, from) {
            Some(n) => n > 0 && exists|i: int|
                from <= i && #[trigger] text::search::occurs_at(page, needle, i)
                    && text::number::parsed_unsigned(
                    digits_at(page, i + needle.len()),
                    usize::MAX as nat,
                ) == Some(n),
            None => true,
        },
    decreases page.len() - from,
{
    text::search::first_at_is_first(page, needle, from);
    if let Some(i) = text::search::first_at(page, needle, from) {
        empty_counts_are_passed_over(page, needle, i + needle.len());
        if number_behind(page, needle, i + needle.len()) is Some {
            let n = number_behind(page, needle, i + needle.len())->0;
            if number_behind(page, needle, from) == Some(n) {
                let k = choose|k: int|
                    i + needle.len() <= k && #[trigger] text::search::occurs_at(page, needle, k)
                        && text::number::parsed_unsigned(
                        digits_at(page, k + needle.len()),
                        usize::MAX as nat,
                    ) == Some(n);
            }
        }
    }
}

/// The salt of a script is the string literal whose digest's first four
/// characters are taken: the first such literal, of up to fifty characters. A
/// script without a call of that shape has none.
pub proof fn salts_are_literals_cut_to_four(head: Seq<char>, salt: Seq<char>, rest: Seq<char>)
    requires
        0 < salt.len() <= 50,
        !salt.contains('"'),
        forall|i: int|
            0 <= i < head.len() + 1 + salt.len() ==> !#[trigger] text::search::occurs_at(
                head + seq!['"'] + salt + "\")"@,
                "\")"@,
                i,
            ),
    ensures
        salt_from(head + seq!['"'] + salt + "\")"@ + ".substr(0,4)"@ + rest, 0) == Some(salt),
        salt_from(head + seq!['"'] + salt + "\")"@ + ".substr(0, 4)"@ + rest, 0) == Some(salt),
{
    reveal_strlit(".substr(0,4)");
    reveal_strlit(".substr(0, 4)");
    four_are_taken(rest);
    salt_before_a_cut(head, salt, ".substr(0,4)"@ + rest);
    salt_before_a_cut(head, salt, ".substr(0, 4)"@ + rest);
    assert(head + seq!['"'] + salt + "\")"@ + ".substr(0,4)"@ + rest =~= head + seq!['"'] + salt
        + "\")"@ + (".substr(0,4)"@ + rest));
    assert(head + seq!['"'] + salt + "\")"@ + ".substr(0, 4)"@ + rest =~= head + seq!['"'] + salt
        + "\")"@ + (".substr(0, 4)"@ + rest));
}

proof fn salt_before_a_cut(head: Seq<char>, salt: Seq<char>, tail: Seq<char>)
    requires
        0 < salt.len() <= 50,
        !salt.contains('"'),
        forall|i: int|
            0 <= i < head.len() + 1 + salt.len() ==> !#[trigger] text::search::occurs_at(
                head + seq!['"'] + salt + "\")"@,
                "\")"@,
                i,
            ),
        takes_four(tail),
    ensures
        salt_from(head + seq!['"'] + salt + "\")"@ + tail, 0) == Some(salt),
{
    reveal_strlit("\")");
    let p = "\")"@;
    let front = head + seq!['"'] + salt + p;
    let s = front + tail;
    let open = head.len() as int;
    let close = open + 1 + salt.len();
    assert(s.subrange(close, close + 2) =~= p);
    assert forall|i: int| 0 <= i < close implies !text::search::occurs_at(s, p, i) by {
        if text::search::occurs_at(s, p, i) {
            assert(front.subrange(i, i + 2) =~= s.subrange(i, i + 2));
            assert(text::search::occurs_at(front, p, i));
        }
    }
    text::search::first_at_found(s, p, 0, close);
    let lo = if close <= MAX_SALT {
        0
    } else {
        close - MAX_SALT - 1
    };
    assert forall|j: int| open < j < close implies (#[trigger] s[j]) != '"' by {
        assert(s[j] == salt[j - open - 1]);
        assert(salt.contains(salt[j - open - 1]));
    }
    assert(s[open] == '"');
    last_quote_is_last(s, lo, close, open);
    assert(s.skip(close + 2) =~= tail);
    assert(s.subrange(open + 1, close) =~= salt);
}

/// The last quote is the one with none behind it.
proof fn last_quote_is_last(s: Seq<char>, lo: int, hi: int, i: int)
    requires
        lo <= i < hi,
        s[i] == '"',
        forall|j: int| i < j < hi ==> (#[trigger] s[j]) != '"',
    ensures
        last_quote(s, lo, hi) == Some(i),
    decreases hi - i,
{
    if i + 1 < hi {
        assert(s[hi - 1] != '"');
        last_quote_is_last(s, lo, hi - 1, i);
    }
}

/// What follows takes the first four characters, with or without a space.
proof fn four_are_taken(rest: Seq<char>)
    ensures
        takes_four(".substr(0,4)"@ + rest),
        takes_four(".substr(0, 4)"@ + rest),
{
    reveal_strlit(".substr(0,4)");
    reveal_strlit(".substr(0, 4)");
    reveal_strlit(".substr(");
    reveal_strlit("0,");
    reveal_strlit("4");
    reveal_strlit(")");
    let end = ")"@ + rest;
    let four = "4"@ + end;
    let tight = "0,"@ + four;
    let loose = "0,"@ + (seq![' '] + four);
    assert(".substr(0,4)"@ + rest =~= ".substr("@ + tight);
    assert(".substr(0, 4)"@ + rest =~= ".substr("@ + loose);
    text::search::affixes_come_off(".substr("@, tight);
    text::search::affixes_come_off(".substr("@, loose);
    text::search::affixes_come_off("0,"@, four);
    text::search::affixes_come_off("0,"@, seq![' '] + four);
    text::search::affixes_come_off("4"@, end);
    text::search::affixes_come_off(")"@, rest);
    starts_plain(".substr("@ + tight);
    starts_plain(".substr("@ + loose);
    starts_plain(tight);
    starts_plain(loose);
    starts_plain(four);
    starts_plain(end);
    let spaced = seq![' '] + four;
    assert(spaced.drop_first() =~= four);
    assert(spaced[0] == ' ');
    assert(text::trim::trimmed_start(spaced) == text::trim::trimmed_start(four));
}

proof fn starts_plain(s: Seq<char>)
    requires
        s.len() > 0,
        s[0] == '.' || s[0] == '0' || s[0] == '4' || s[0] == ')',
    ensures
        text::trim::trimmed_start(s) == s,
{
}

/// The data of a page is the value, up to its closing quote, of the first
/// attribute whose name is `data-` and at least sixty hexadecimal digits.
pub proof fn data_is_the_value_of_its_attribute(
    head: Seq<char>,
    name: Seq<char>,
    value: Seq<char>,
    rest: Seq<char>,
)
    requires
        name.len() >= 60,
        forall|i: int| 0 <= i < name.len() ==> text::is_hex_digit(#[trigger] name[i]),
        !value.contains('"'),
        forall|i: int|
            0 <= i < head.len() ==> !#[trigger] text::search::occurs_at(
                head + "data-"@ + name + "=\""@ + value + seq!['"'] + rest,
                "data-"@,
                i,
            ),
    ensures
        hydration(head + "data-"@ + name + "=\""@ + value + seq!['"'] + rest) == Some(
            html::unescaped(value),
        ),
        hydration(head + "data-"@ + name + "=\""@ + value + seq!['"'] + rest) is Some
            ==> has_data_attr(head + "data-"@ + name + "=\""@ + value + seq!['"'] + rest),
{
    reveal_strlit("data-");
    reveal_strlit("=\"");
    let page = head + "data-"@ + name + "=\""@ + value + seq!['"'] + rest;
    let k = head.len() as int;
    assert(page.subrange(k, k + 5) =~= "data-"@);
    text::search::first_at_found(page, "data-"@, 0, k);
    let f = |c: char| !text::is_hex_digit(c);
    let end = k + 5 + name.len();
    assert forall|j: int| k + 5 <= j < end implies !f(#[trigger] page[j]) by {
        assert(page[j] == name[j - k - 5]);
    }
    assert(page[end] == '=');
    text::split::first_where_found(page, f, k + 5, end);
    assert(page.subrange(end, end + 2) =~= "=\""@);
    assert(is_data_attr(page, k));
    let q = |c: char| c == '"';
    let from = end + 2;
    let close = from + value.len();
    assert forall|j: int| from <= j < close implies !q(#[trigger] page[j]) by {
        assert(page[j] == value[j - from]);
        assert(value.contains(value[j - from]));
    }
    assert(page[close] == '"');
    text::split::first_where_found(page, q, from, close);
    assert(page.subrange(from, close) =~= value);
    assert(text::search::occurs_at(page, "data-"@, k));
}

/// A link is shown by the markup around it, and only one that stands alone by
/// its own; never more than the first twelve hundred characters of it.
pub proof fn links_are_shown_in_their_surroundings(around: Seq<char>, own: Seq<char>)
    ensures
        around.len() <= 1200 ==> shown_markup(Some(around), own) == around,
        own.len() <= 1200 ==> shown_markup(None, own) == own,
        around.len() > 1200 ==> shown_markup(Some(around), own) == around.take(1200),
        own.len() > 1200 ==> shown_markup(None, own) == own.take(1200),
{
}

/// The links that are counted are those whose address leads to a score, and
/// the first of them is the one that is shown.
pub proof fn links_to_scores_are_counted(
    page: Seq<char>,
    links: Seq<Option<Seq<char>>>,
    around: Option<Seq<char>>,
    own: Seq<char>,
)
    ensures
        html::attrs_of(page, "a[href*=\"/scores/\"]"@, "href"@) == Some(links) ==> score_links(page)
            == links.len(),
        html::first_markup(page, "a[href*=\"/scores/\"]"@) == Some((around, own)) ==> first_card(
            page,
        ) == shown_markup(around, own),
        html::first_markup(page, "a[href*=\"/scores/\"]"@) is None ==> first_card(page).len() == 0,
{
}

/// A call whose result is not cut to four is passed over, and so is one whose
/// argument is longer than a salt can be: the search goes on behind it.
pub proof fn other_calls_are_passed_over(s: Seq<char>, from: int, i: int)
    requires
        0 <= from <= i,
        i + 2 <= s.len(),
        s[i] == '"' && s[i + 1] == ')',
        forall|j: int| from <= j < i ==> !(s[j] == '"' && #[trigger] s[j + 1] == ')'),
        !takes_four(s.skip(i + 2)) || (i > 50 && forall|j: int| i - 51 <= j < i ==> (#[trigger] s[j]) != '"')
            || (i > 0 && s[i - 1] == '"'),
    ensures
        salt_from(s, from) == salt_from(s, i + 2),
{
    reveal_strlit("\")");
    let p = "\")"@;
    assert(s.subrange(i, i + 2) =~= p);
    assert forall|j: int| from <= j < i implies !text::search::occurs_at(s, p, j) by {
        if text::search::occurs_at(s, p, j) {
            assert(s.subrange(j, j + 2)[0] == s[j]);
            assert(s.subrange(j, j + 2)[1] == s[j + 1]);
        }
    }
    text::search::first_at_found(s, p, from, i);
    let lo = if i <= MAX_SALT {
        0
    } else {
        i - MAX_SALT - 1
    };
    if i > 0 && s[i - 1] == '"' {
        last_quote_is_last(s, lo, i, i - 1);
    } else if i > 50 && forall|j: int| i - 51 <= j < i ==> (#[trigger] s[j]) != '"' {
        no_quote_no_start(s, lo, i);
    }
}

proof fn no_quote_no_start(s: Seq<char>, lo: int, hi: int)
    requires
        forall|j: int| lo <= j < hi ==> (#[trigger] s[j]) != '"',
    ensures
        last_quote(s, lo, hi) is None,
    decreases hi - lo,
{
    if lo < hi {
        assert(s[hi - 1] != '"');
        no_quote_no_start(s, lo, hi - 1);
    }
}

/// The attribute that counts is the first of its kind: no `data-` before it
/// starts one.
pub proof fn the_first_data_attribute_counts(page: Seq<char>, from: int, j: int)
    requires
        0 <= from <= j,
        text::search::occurs_at(page, "data-"@, j),
        is_data_attr(page, j),
    ensures
        data_attr(page, from) matches Some(i) && i <= j,
    decreases page.len() - from,
{
    reveal_strlit("data-");
    text::search::first_at_is_first(page, "data-"@, from);
    let k = text::search::first_at(page, "data-"@, from)->0;
    assert(k <= j);
    if !is_data_attr(page, k) {
        if j < k + 5 {
            assert(page.subrange(j, j + 5)[0] == page[j]);
            assert(page.subrange(k, k + 5)[j - k] == page[j]);
        }
        the_first_data_attribute_counts(page, k + 5, j);
    }
}

/// Behind a mention without a positive number the search for the count goes
/// on.
pub proof fn counts_are_looked_for_further(
    head: Seq<char>,
    needle: Seq<char>,
    rest: Seq<char>,
)
    requires
        needle.len() > 0,
        forall|i: int|
            0 <= i < head.len() ==> !#[trigger] text::search::occurs_at(
                head + needle + rest,
                needle,
                i,
            ),
    ensures
        rest.len() == 0 || !text::is_digit(rest[0]) ==> number_behind(
            head + needle + rest,
            needle,
            0,
        ) == number_behind(head + needle + rest, needle, (head.len() + needle.len()) as int),
        rest.len() > 0 && rest[0] == '0' && (rest.len() == 1 || !text::is_digit(rest[1]))
            ==> number_behind(head + needle + rest, needle, 0) == number_behind(
            head + needle + rest,
            needle,
            (head.len() + needle.len()) as int,
        ),
{
    let page = head + needle + rest;
    let k = head.len() as int;
    let at = k + needle.len();
    assert(page.subrange(k, k + needle.len()) =~= needle);
    text::search::first_at_found(page, needle, 0, k);
    let f = |c: char| !text::is_digit(c);
    if rest.len() > 0 {
        assert(page[at] == rest[0]);
    }
    if rest.len() == 0 || !text::is_digit(rest[0]) {
        text::split::first_where_found(page, f, at, at);
        assert(digits_at(page, at) =~= Seq::<char>::empty());
        text::number::numbers_are_digits_within_a_bound(page, 0, usize::MAX as nat);
    } else if rest[0] == '0' && (rest.len() == 1 || !text::is_digit(rest[1])) {
        if rest.len() > 1 {
            assert(page[at + 1] == rest[1]);
        }
        text::split::first_where_found(page, f, at, at + 1);
        assert(digits_at(page, at) =~= text::number::decimal(0));
        text::number::decimal_round_trip(0, usize::MAX as nat);
    }
}

/// The whole part of an address behind `/scores/` must be a number: digits
/// with anything else among them name no score.
pub proof fn score_ids_are_whole_parts(head: Seq<char>, part: Seq<char>, rest: Seq<char>)
    requires
        forall|i: int|
            0 <= i < head.len() ==> !#[trigger] text::search::occurs_at(
                head + "/scores/"@ + part + rest,
                "/scores/"@,
                i,
            ),
        !part.contains('/'),
        !part.contains('?'),
        !part.contains('#'),
        rest.len() > 0 ==> rest[0] == '/' || rest[0] == '?' || rest[0] == '#',
    ensures
        score_id(head + "/scores/"@ + part + rest) == text::number::parsed_unsigned(
            part,
            u64::MAX as nat,
        ),
{
    reveal_strlit("/scores/");
    let p = "/scores/"@;
    let url = head + p + part + rest;
    let k = head.len() as int;
    assert(url.subrange(k, k + p.len()) =~= p);
    text::search::first_at_found(url, p, 0, k);
    let f = |c: char| ends_score_id(c);
    let tail = part + rest;
    assert(url.skip(k + p.len()) =~= tail);
    assert forall|i: int| 0 <= i < part.len() implies !f(#[trigger] tail[i]) by {
        assert(tail[i] == part[i]);
        assert(part.contains(part[i]));
    }
    if rest.len() > 0 {
        assert(tail[part.len() as int] == rest[0]);
    }
    text::split::first_where_found(tail, f, 0, part.len() as int);
    assert(tail.take(part.len() as int) =~= part);
}

/// A cut that does not start at the first character, or does not take four,
/// does not count.
pub proof fn other_cuts_do_not_count(c: char, rest: Seq<char>)
    requires
        !text::is_white_space(c),
    ensures
        c != '4' ==> !takes_four(".substr(0,"@ + seq![c] + rest),
        c != '0' ==> !takes_four(".substr("@ + seq![c] + rest),
        c != '.' ==> !takes_four(seq![c] + rest),
{
    reveal_strlit(".substr(0,");
    reveal_strlit(".substr(");
    reveal_strlit("0,");
    reveal_strlit("4");
    let s = seq![c] + rest;
    let pair = "0,"@ + s;
    assert(".substr(0,"@ + seq![c] + rest =~= ".substr("@ + pair);
    assert(".substr("@ + seq![c] + rest =~= ".substr("@ + s);
    assert(s[0] == c);
    assert(text::trim::trimmed_start(s) == s);
    starts_plain(".substr("@ + pair);
    starts_plain(".substr("@ + s);
    starts_plain(pair);
    text::search::affixes_come_off(".substr("@, pair);
    text::search::affixes_come_off(".substr("@, s);
    text::search::affixes_come_off("0,"@, s);
    if text::search::without_prefix(s, "4"@) is Some {
        text::search::affixes_come_off("4"@, rest);
        assert(s[0] == ("4"@ + text::search::without_prefix(s, "4"@)->0)[0]);
    }
    if text::search::without_prefix(s, "0,"@) is Some {
        assert(s[0] == ("0,"@ + text::search::without_prefix(s, "0,"@)->0)[0]);
    }
    if text::search::without_prefix(s, ".substr("@) is Some {
        assert(s[0] == (".substr("@ + text::search::without_prefix(s, ".substr("@)->0)[0]);
    }
}

/// An empty address of the first image is none, and no other image stands in
/// for it.
pub proof fn empty_addresses_are_none(
    preloads: Seq<Option<Seq<char>>>,
    images: Option<Seq<Option<Seq<char>>>>,
    i: int,
)
    requires
        is_first_present(preloads, i),
        preloads[i] == Some(Seq::<char>::empty()),
    ensures
        first_page(Some(preloads), images) is None,
{
    first_present_is_first(preloads, i);
}

} // verus!
