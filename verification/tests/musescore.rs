use sheet_music_browsarr::html::{Image, Link, Markup};
use sheet_music_browsarr::json;
use sheet_music_browsarr::sources::flaresolverr::{FsError, FsSolution};
use sheet_music_browsarr::sources::musescore::fetch::{
    check_warm, failure_message, judge_direct, step, FetchAction, FetchEvent, FetchFailure,
    FetchState,
};
use sheet_music_browsarr::sources::musescore::page::{
    card_markup, diagnose_score_links, extract_bundle_urls, extract_first_page_url,
    find_hydration_json, find_pages_count_regex, find_random_token, html_unescape, is_bundle_candidate, is_svg_asset,
    looks_like_cf_challenge, parse_score_id_from_url, scan_for_data_hash_attr,
    strip_highlight_markers, substr_zero_four_follows, truncate_for_log,
};
use sheet_music_browsarr::sources::musescore::score::{
    extract_instrumentations, extract_pages_count, extract_score_meta, extract_search_scores,
    extract_search_scores_from_dom, find_pages_count, read_linked_scores, read_score, score_result,
};
use sheet_music_browsarr::sources::musescore::session::{pool_size, Acquire, SessionPool};
use sheet_music_browsarr::sources::musescore::{default_headers, nav_headers, Musescore, WARM_URL};
use sheet_music_browsarr::sources::{BadgeKind, Instrument, SearchFilters};

#[test]
fn bundle_urls_collects_all_candidates() {
    // Two app bundles (numeric-head and named) plus a decoy under a
    // non-musescore build path.
    let html = r#"
        <link rel="preload" as="script" href="https://musescore.com/static/public/build/musescore_es6/202605/2946.39bf11a4f5f177d8d4f4d5c31f8d973e.js">
        <link rel="preload" as="script" href="https://musescore.com/static/public/build/musescore_es6/202605/ms.8161d273ff40c7bcaf29ff0743fbc076.js">
        <link rel="preload" as="script" href="https://musescore.com/static/public/build/vendor/deadbeef.js">
    "#;
    let urls = extract_bundle_urls(html);
    assert_eq!(urls.len(), 2, "got {urls:?}");
    assert!(urls[0].ends_with("2946.39bf11a4f5f177d8d4f4d5c31f8d973e.js"));
    assert!(urls[1].ends_with("ms.8161d273ff40c7bcaf29ff0743fbc076.js"));

    assert!(is_bundle_candidate(
        "https://musescore.com/static/public/build/musescore_es6/202605/ms.abc.js"
    ));
    assert!(!is_bundle_candidate(
        "https://musescore.com/static/public/build/vendor/deadbeef.js"
    ));
    // Not a .js
    assert!(!is_bundle_candidate(
        "https://musescore.com/static/public/build/musescore_es6/202605/app.css"
    ));
}

#[test]
fn svg_asset_detection() {
    assert!(is_svg_asset("https://musescore.com/static/.../score_0.svg"));
    assert!(is_svg_asset("https://example.com/score_0.svg@0"));
    assert!(!is_svg_asset("https://musescore.com/static/.../score_0.png@0"));
    assert!(!is_svg_asset("https://example.com/score_0.png?foo=bar"));
}

#[test]
fn first_page_url_from_preload_link() {
    // Preferred: the preload <link as="image">, with the @<size> tag
    // stripped so page 0 matches the jmuse pages' resolution.
    let html = r#"<link rel="preload" href="https://musescore.com/static/x/score_0.png@0" as="image">"#;
    assert_eq!(
        extract_first_page_url(html).as_deref(),
        Some("https://musescore.com/static/x/score_0.png")
    );
    // Fallback: first <img src*="score_0"> when no preload link exists.
    // SVG has no @-tag, so it passes through unchanged.
    let html2 = r#"<div><img src="https://cdn/score_0.svg" alt="p1"></div>"#;
    assert_eq!(extract_first_page_url(html2).as_deref(), Some("https://cdn/score_0.svg"));
    // Neither present.
    assert_eq!(extract_first_page_url("<html></html>"), None);
}

#[test]
fn pages_count_regex_fallback() {
    // Escaped-JSON form inside a data attribute.
    assert_eq!(find_pages_count_regex(r#"...&quot;pages&quot;:12,..."#), Some(12));
    // Plain-JSON form.
    assert_eq!(find_pages_count_regex(r#"{"pages":3,"foo":1}"#), Some(3));
    // Absent.
    assert_eq!(find_pages_count_regex("nothing here"), None);
}

#[test]
fn strip_markers() {
    assert_eq!(strip_highlight_markers("[b]Fur[/b] [b]Elise[/b]"), "Fur Elise");
}

#[test]
fn cf_challenge_detection() {
    // Interactive JS challenge.
    assert!(looks_like_cf_challenge(
        "<title>Just a moment...</title><body>checking your browser</body>"
    ));
    // Hard block page.
    assert!(looks_like_cf_challenge("<h1>Attention Required! | Cloudflare</h1>"));
    // A real search page (has score links, no challenge markers) must
    // NOT be mistaken for a challenge.
    assert!(!looks_like_cf_challenge(
        "<div class=\"score\"><a href=\"/score/12345\">Für Elise</a></div>"
    ));
}

#[test]
fn repeated_bundles_are_listed_once() {
    let url = "https://musescore.com/static/public/build/musescore/202605/ms.abc.js";
    let page = format!("<script src=\"{url}\"></script> '{url}' {url}");
    assert_eq!(extract_bundle_urls(&page), vec![url.to_string()]);
    assert!(extract_bundle_urls("").is_empty());
    let other = "https://musescore.com/static/public/build/musescore_es6/202606/x.js";
    let page = format!("{page}\"{other}");
    assert_eq!(extract_bundle_urls(&page), vec![url.to_string(), other.to_string()]);
    assert_eq!(extract_bundle_urls(&format!("{page}\n{page}")), extract_bundle_urls(&page));
}

#[test]
fn quotes_are_cut_by_characters() {
    assert_eq!(truncate_for_log("éàü", 2), "éà");
    assert_eq!(truncate_for_log("ab", 5), "ab");
}

#[test]
fn salts() {
    let script = r#"var a="x";t=md5(id+type+index+"9654,4e").substr(0,4);"#;
    assert_eq!(find_random_token(script).as_deref(), Some("9654,4e"));
    assert_eq!(find_random_token(r#"f("x") .substr( 0, 4 )"#).as_deref(), Some("x"));
    assert_eq!(find_random_token(r#"f("").substr(0,4)"#), None);
    assert_eq!(find_random_token(r#"f("x").substr(0,5)"#), None);
    let of = |n: usize| find_random_token(&format!("f(\"{}\").substr(0, 4)", "é".repeat(n)));
    assert_eq!(of(50), Some("é".repeat(50)));
    assert_eq!(of(51), None);
    assert_eq!(find_random_token(r#"f("x").substr(0, 40)"#), None);
    assert_eq!(
        find_random_token(r#"g("no").slice(1);f("yes").substr(0,4)"#).as_deref(),
        Some("yes")
    );
    assert!(substr_zero_four_follows(" .substr(0,4)"));
    assert!(!substr_zero_four_follows(".substring(0,4)"));
}

fn data_page(json: &str) -> String {
    let hash = "0123456789abcdef".repeat(4);
    format!("<div data-x=\"1\" data-{hash}=\"{}\"></div>", json.replace('"', "&quot;"))
}

#[test]
fn page_data() {
    let page = data_page(r#"{"a":1}"#);
    assert!(scan_for_data_hash_attr(&page));
    assert_eq!(find_hydration_json(&page).as_deref(), Some(r#"{"a":1}"#));
    assert!(!scan_for_data_hash_attr("<div data-abc=\"1\">"));
    let name = "0f".repeat(30);
    assert!(scan_for_data_hash_attr(&format!("data-data-{name}=\"")));
    assert!(!scan_for_data_hash_attr(&format!("data-{name}='")));
    assert!(!scan_for_data_hash_attr(&format!("data-{}=\"", &name[1..])));
    assert_eq!(find_hydration_json("<div data-abc=\"1\">"), None);
    let open = page.trim_end_matches("\"></div>").to_string();
    assert!(scan_for_data_hash_attr(&open));
    assert_eq!(find_hydration_json(&open), None);
}

#[test]
fn entities_are_decoded() {
    assert_eq!(html_unescape("F&uuml;r &#39;E&#x6c;ise&#39; &amp;amp;"), "Für 'Elise' &amp;");
}

#[test]
fn score_ids() {
    assert_eq!(parse_score_id_from_url("https://musescore.com/user/1/scores/42?x"), Some(42));
    assert_eq!(parse_score_id_from_url("/scores/+7#top"), Some(7));
    assert_eq!(parse_score_id_from_url("/scores/abc"), None);
    assert_eq!(parse_score_id_from_url("/score/42"), None);
    assert_eq!(parse_score_id_from_url("/scores/18446744073709551616"), None);
}

const SCORES: &str = r#"{"store":{"page":{"data":{"scores":[
 {"id":7,"title":"[b]F&uuml;r[/b] Elise","composer_name":"Beethoven","href":"https://musescore.com/x/scores/7",
  "thumbnails":{"small":"s.png","large":"l.png"},"pages_count":3,"parts_count":2,
  "instrumentations":[{"name":" Piano "},"Flute",{"title":"Oboe"}],"complexity":2,"is_public_domain":1,"is_official":false},
 {"id":8,"title":"Air","composer_name":"","pages_count":1,"parts_count":1,"complexity":9,"thumbnail_url":"t.png","is_public_domain":0}
]}}}}"#;

#[test]
fn scores_in_page_data() {
    let page = data_page(&SCORES.replace("&uuml;", "&amp;uuml;"));
    let scores = extract_search_scores(&page).expect("two scores");
    assert_eq!(scores.len(), 2);
    let a = score_result(&scores[0]);
    assert_eq!((a.source.as_str(), a.id.as_str(), a.title.as_str()), ("musescore", "7", "Für Elise"));
    assert_eq!(a.description.as_deref(), Some("Beethoven"));
    assert_eq!(a.external_url, "https://musescore.com/x/scores/7");
    assert_eq!(a.thumbnail_url.as_deref(), Some("l.png"));
    let badges: Vec<(&str, BadgeKind)> =
        a.metadata.iter().map(|b| (b.label.as_str(), b.kind)).collect();
    assert_eq!(
        badges,
        vec![
            ("3 pages", BadgeKind::Pages),
            ("2 parts", BadgeKind::Generic),
            ("Piano", BadgeKind::Instrument),
            ("Flute", BadgeKind::Instrument),
            ("Intermediate", BadgeKind::Difficulty)
        ]
    );
    assert_eq!((a.complexity, a.is_public_domain, a.is_official), (Some(2), Some(true), Some(false)));
    let b = score_result(&scores[1]);
    assert_eq!(b.external_url, "https://musescore.com/score/8");
    assert_eq!(b.description, None);
    assert_eq!(b.thumbnail_url.as_deref(), Some("t.png"));
    assert_eq!(b.metadata.len(), 1);
    assert_eq!(b.metadata[0].label, "1 page");
    assert_eq!((b.complexity, b.is_public_domain, b.is_official), (None, Some(false), None));
}

#[test]
fn one_bad_score_spoils_the_list() {
    let page = data_page(r#"{"scores":[{"id":1,"title":"a"},{"id":2}]}"#);
    assert!(extract_search_scores(&page).is_none());
    assert!(extract_search_scores("<p>").is_none());
    assert!(read_score(&json::parse(r#"{"id":"1","title":"a"}"#).unwrap()).is_none());
}

#[test]
fn page_counts() {
    let v = json::parse(r#"[{"pages_count":9},{"x":{"id":1,"title":"t","pages_count":4}}]"#).unwrap();
    assert_eq!(find_pages_count(&v), Some(4));
    let page = data_page(r#"{"id":1,"title":"t","pages_count":4}"#);
    assert_eq!(extract_score_meta(&page).unwrap().pages_count, Some(4));
    assert_eq!(extract_pages_count(&page), Some(4));
    assert_eq!(extract_pages_count(r#"<p>"pages":5</p>"#), Some(5));
    assert!(extract_score_meta("<p>").is_none());
    assert_eq!(extract_pages_count("<p>"), None);
}

#[test]
fn instruments_are_few() {
    let v = json::parse(r#"[" ",{"name":"a"},3,"b","c"]"#).unwrap();
    assert_eq!(extract_instrumentations(Some(&v)), vec!["a", "b"]);
    assert!(extract_instrumentations(None).is_empty());
}

const LINKS: &str = r#"<div class="card"><a href="/user/1/scores/5"><img alt=" Canon &amp;amp; Gigue " src="c.png"></a></div>
<a href="/user/1/scores/5">again</a><a href="/user/1/scores/6"> <b>Air</b> </a>
<a href="/user/1/scores/9"><img alt="" src=""></a><a href="/other">x</a>"#;

#[test]
fn scores_as_links() {
    let scores = extract_search_scores_from_dom(LINKS).expect("links");
    let got: Vec<(u64, &str, Option<&str>)> = scores
        .iter()
        .map(|s| (s.id, s.title.as_str(), s.thumbnail_url.as_deref()))
        .collect();
    assert_eq!(got, vec![(5, "Canon & Gigue", Some("c.png")), (6, "Air", None)]);
    assert!(extract_search_scores_from_dom("<p>").is_none());
    let m = Musescore::new(None, None);
    assert_eq!(m.search(LINKS, 1).len(), 1);
    assert!(m.search("<p>", 5).is_empty());
}

#[test]
fn links_are_read_once() {
    let link = |href: &str, alt: &str| Link {
        href: Some(href.to_string()),
        image: Some(Image { alt: Some(alt.to_string()), src: None }),
        text: "text".to_string(),
    };
    let links = vec![link("/scores/1", "a"), link("/scores/1", "b"), link("/x", "c"), link("/scores/2", " ")];
    let scores = read_linked_scores(&links).unwrap();
    let got: Vec<(u64, &str)> = scores.iter().map(|s| (s.id, s.title.as_str())).collect();
    assert_eq!(got, vec![(1, "a"), (2, "text")]);
}

#[test]
fn links_are_diagnosed() {
    let (n, markup) = diagnose_score_links(LINKS);
    assert_eq!(n, 4);
    assert!(markup.contains("Canon"), "{markup}");
    assert_eq!(diagnose_score_links("<p>"), (0, String::new()));
}

#[test]
fn the_markup_around_a_link_is_shown() {
    let (n, shown) = diagnose_score_links("<ul><li>no</li><li><a href=\"/scores/1\">x</a></li></ul>");
    assert_eq!((n, shown.as_str()), (1, "<li><a href=\"/scores/1\">x</a></li>"));
    let card = r#"<li class="c" id="i" data-x="1" title="t"><a rel="r" href="/scores/2" class="d">y</a></li>"#;
    for _ in 0..5 {
        assert_eq!(diagnose_score_links(&format!("<ul>{card}</ul>")), (1, card.to_string()));
    }
    let markup = |around: Option<&str>, own: &str| Markup {
        around: around.map(String::from),
        own: own.to_string(),
    };
    assert_eq!(card_markup(&markup(Some("<b>around</b>"), "own")), "<b>around</b>");
    assert_eq!(card_markup(&markup(None, "<i>own</i>")), "<i>own</i>");
    assert_eq!(card_markup(&markup(None, &"ü".repeat(1300))), "ü".repeat(1200));
}

#[test]
fn searches_are_addressed() {
    let m = Musescore::new(None, None);
    let mut f = SearchFilters::default();
    assert_eq!(
        m.search_url("für elise/1~", &f),
        "https://musescore.com/sheetmusic?text=f%C3%BCr%20elise%2F1~"
    );
    f.instrument = Some(Instrument::Piano);
    assert_eq!(m.search_url("a", &f), "https://musescore.com/sheetmusic?text=a&instrument=piano");
}

#[test]
fn warmth_follows_activity() {
    let mut m = Musescore::new(Some("http://fs"), None);
    m.mark_activity(1_000);
    assert_eq!(m.seconds_since_activity(1_500), 500);
    assert!(m.keep_warm(2_800));
    assert!(!m.keep_warm(2_801));
    let mut none = Musescore::new(Some(""), None);
    none.mark_activity(1_000);
    assert!(none.flaresolverr_url.is_none());
    assert!(!none.keep_warm(1_000));
    m.mark_activity(i64::MIN);
    assert_eq!(m.seconds_since_activity(1), i64::MAX);
}

#[test]
fn pools() {
    assert_eq!(pool_size(None), 3);
    assert_eq!(pool_size(Some("x")), 3);
    assert_eq!(pool_size(Some("0")), 1);
    assert_eq!(pool_size(Some("5")), 5);
    assert_eq!(Musescore::new(Some("u"), Some("2")).sessions.len(), 2);
    assert_eq!(Musescore::new(None, Some("2")).sessions.len(), 0);
}

#[test]
fn sessions_take_turns() {
    let mut p = SessionPool::new(2);
    match p.acquire_session() {
        Acquire::Create { slot, name } => {
            assert_eq!((slot, name.as_str()), (0, "musescore-0"));
            assert_eq!(p.created(slot, true).as_deref(), Some("musescore-0"));
        }
        other => panic!("{other:?}"),
    }
    match p.acquire_session() {
        Acquire::Create { slot, .. } => assert_eq!(p.created(slot, false), None),
        other => panic!("{other:?}"),
    }
    assert!(matches!(p.acquire_session(), Acquire::Ready(s) if s == "musescore-0"));
    assert!(matches!(p.acquire_session(), Acquire::Create { slot: 1, .. }));
    p.invalidate_session("musescore-9");
    assert!(matches!(p.acquire_session(), Acquire::Ready(_)));
    p.invalidate_session("musescore-0");
    p.acquire_session();
    assert!(matches!(p.acquire_session(), Acquire::Create { slot: 0, .. }));
    p.created(1, true);
    assert_eq!((p.held(0), p.held(1), p.held(2)), (None, Some("musescore-1"), None));
    assert_eq!(p.take(1).as_deref(), Some("musescore-1"));
    assert_eq!(p.take(1), None);
    assert!(matches!(SessionPool::new(0).acquire_session(), Acquire::NoPool));
    assert_eq!(SessionPool::name_of(12), "musescore-12");
}

fn solution(status: u16) -> FsSolution {
    FsSolution {
        url: String::new(),
        status,
        response: "page".to_string(),
        user_agent: "ua".to_string(),
        cookies: Vec::new(),
    }
}

#[test]
fn direct_answers() {
    assert_eq!(judge_direct(true, "200 OK", "page".to_string()).as_deref(), Ok("page"));
    assert_eq!(
        judge_direct(false, "403 Forbidden", "x".repeat(300)),
        Err(format!("HTTP 403 Forbidden: {}", "x".repeat(160)))
    );
    assert_eq!(
        judge_direct(true, "200 OK", "Just a moment...".to_string()),
        Err("Cloudflare challenge interstitial".to_string())
    );
}

#[test]
fn direct_pages_need_no_solver() {
    let (s, a) = step(FetchState::Direct, FetchEvent::Direct(Ok("p".to_string())), true);
    assert_eq!(s, FetchState::Over);
    assert!(matches!(a, FetchAction::Page(p) if p == "p"));
    let (_, a) = step(FetchState::Direct, FetchEvent::Direct(Err("why".to_string())), false);
    match a {
        FetchAction::Fail(f) => assert_eq!(
            failure_message("search", "URL", &f),
            "musescore search: direct fetch did not return the page (why); no FlareSolverr configured — set FLARESOLVERR_URL or route egress through an unchallenged proxy (URL)"
        ),
        other => panic!("{other:?}"),
    }
}

#[test]
fn a_missing_session_is_replaced_once() {
    let missing = || FetchEvent::Solved(Err(FsError::SessionMissing { session: "s".to_string() }));
    let (s, a) = step(FetchState::Direct, FetchEvent::Direct(Err(String::new())), true);
    assert!(matches!(a, FetchAction::TakeTurn));
    let (s, a) = step(s, FetchEvent::Direct(Err(String::new())), true);
    assert!(matches!(a, FetchAction::AcquireSession));
    let (s, a) = step(s, FetchEvent::Session(Some("s".to_string())), true);
    assert!(matches!(a, FetchAction::Solve { session: Some(_) }));
    let (s, a) = step(s, missing(), true);
    assert!(matches!(a, FetchAction::Replace { gone } if gone == "s"));
    let (s, _) = step(s, FetchEvent::Session(None), true);
    let (s, a) = step(s, missing(), true);
    assert_eq!(s, FetchState::Over);
    match a {
        FetchAction::Fail(f) => assert_eq!(
            failure_message("search", "URL", &f),
            "flaresolverr search URL: flaresolverr session missing: s"
        ),
        other => panic!("{other:?}"),
    }
}

#[test]
fn solved_pages_are_kept_below_four_hundred() {
    let solve = FetchState::Solve { retried: false };
    let (_, a) = step(solve, FetchEvent::Solved(Ok(solution(399))), true);
    assert!(matches!(a, FetchAction::Keep(_)));
    let (_, a) = step(solve, FetchEvent::Solved(Ok(solution(400))), true);
    match a {
        FetchAction::Fail(f) => {
            assert_eq!(failure_message("x", "u", &f), "flaresolverr x HTTP 400: page")
        }
        other => panic!("{other:?}"),
    }
    let (_, a) = step(solve, FetchEvent::Session(None), true);
    assert!(matches!(a, FetchAction::Fail(FetchFailure::OutOfOrder)));
    assert_eq!(
        failure_message("x", "u", &FetchFailure::OutOfOrder),
        "musescore x: event out of order"
    );
}

#[test]
fn warm_ups() {
    assert_eq!(check_warm(200), Ok(()));
    assert_eq!(check_warm(503), Err("flaresolverr warm-up HTTP 503".to_string()));
    assert_eq!(WARM_URL, "https://musescore.com/sheetmusic");
}

#[test]
fn headers() {
    assert!(default_headers().contains(&("accept-language", "en-US,en;q=0.9")));
    assert!(nav_headers().contains(&("sec-fetch-mode", "navigate")));
}
