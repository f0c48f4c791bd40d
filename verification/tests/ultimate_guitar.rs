use base64::Engine;
use sheet_music_browsarr::json::{self, Json};
use sheet_music_browsarr::sources::flaresolverr::{FsError, FsSolution};
use sheet_music_browsarr::sources::ultimate_guitar::layout::{
    clean_tab_text, layout, lines_of, LINES_PER_PAGE,
};
use sheet_music_browsarr::sources::ultimate_guitar::store::{
    balanced_braces, extract_js_store, find_assignment, js_store_fingerprint, js_string_literal,
    json_keys, read_hex4,
};
use sheet_music_browsarr::sources::ultimate_guitar::{
    decode_id, encode_id, failure_message, is_included_type, judge_clearance, judge_plain,
    nav_headers, start, step, truncate_for_log, FetchAction, FetchEvent, FetchFailure, FetchState,
    IdError, TabError, UltimateGuitar,
};
use sheet_music_browsarr::sources::{BadgeKind, Instrument, SearchFilters, Source};

#[test]
fn id_roundtrips() {
    let url = "https://tabs.ultimate-guitar.com/tab/oasis/wonderwall-chords-27596";
    let id = encode_id(url);
    assert!(!id.contains('/'), "id must be path-safe");
    assert_eq!(decode_id(&id).unwrap(), url);
}

#[test]
fn decode_rejects_non_ug_url() {
    let evil = base64::engine::general_purpose::URL_SAFE_NO_PAD.encode(b"https://evil.example/x");
    assert!(decode_id(&evil).is_err());
}

#[test]
fn included_types_are_guitar_text_only() {
    for t in ["Chords", "chords", "Tab", "Tabs", " tabs "] {
        assert!(is_included_type(t), "{t} should be included");
    }
    for t in ["Guitar Pro", "Bass Tabs", "Ukulele Chords", "Drum Tabs", "Pro", "Video", "Official", ""] {
        assert!(!is_included_type(t), "{t} should be excluded");
    }
}

#[test]
fn clean_strips_markup_and_normalises_newlines() {
    let raw = "[ch]Am[/ch] [ch]G[/ch]\r\n[tab]e|--0--|[/tab]\r\nAmpersand &amp; co";
    let cleaned = clean_tab_text(raw);
    assert_eq!(cleaned, "Am G\ne|--0--|\nAmpersand & co");
    assert!(!cleaned.contains("[ch]") && !cleaned.contains("[tab]"));
}

#[test]
fn extract_js_store_reads_data_content() {
    // html5ever decodes the entity-escaped attribute back to JSON.
    let html = r#"<html><body><div class="js-store" data-content="{&quot;store&quot;:{&quot;page&quot;:{&quot;data&quot;:{&quot;results&quot;:[]}}}}"></div></body></html>"#;
    let v = extract_js_store(html).expect("should parse");
    assert!(v.descend(&["store", "page", "data", "results"]).unwrap().list().is_some());
}

#[test]
fn extract_js_store_recovers_from_script_object() {
    // No div, store assigned in a script. A `}{` lives inside a string value
    // to prove the brace scan honours string literals.
    let html = r#"<html><head><script>
        window.UGAPP = window.UGAPP || {};
        window.UGAPP.store = {"page":{"data":{"results":[{"song_name":"X}{"}]}}};
        window.UGAPP.store.page.template = "search";
    </script></head><body></body></html>"#;
    let v = extract_js_store(html).expect("should recover from script");
    let results = v.descend(&["store", "page", "data", "results"]).unwrap().list();
    assert!(results.is_some());
    assert_eq!(
        results.unwrap()[0].text_member("song_name"),
        Some("X}{"),
        "a brace inside a string must not truncate the object"
    );
}

#[test]
fn extract_js_store_recovers_from_json_parse() {
    // `window.UGAPP.store = JSON.parse("…")`: the store is a JSON string
    // literal.
    let html = r#"<script>window.UGAPP.store = JSON.parse("{\"page\":{\"data\":{\"tab_view\":{\"wiki_tab\":{\"content\":\"line\\ntwo\"}}}}}");</script>"#;
    let v = extract_js_store(html).expect("should recover from JSON.parse");
    assert_eq!(
        v.descend(&["store", "page", "data", "tab_view", "wiki_tab", "content"])
            .and_then(|x| x.text()),
        Some("line\ntwo")
    );
}

#[test]
fn div_form_takes_precedence_over_script() {
    let html = r#"<div class="js-store" data-content="{&quot;store&quot;:{&quot;page&quot;:{&quot;tag&quot;:&quot;div&quot;}}}"></div>
        <script>window.UGAPP.store = {"page":{"tag":"script"}};</script>"#;
    let v = extract_js_store(html).expect("should parse");
    assert_eq!(v.descend(&["store", "page", "tag"]).and_then(|x| x.text()), Some("div"));
}

#[test]
fn balanced_braces_skips_string_contents() {
    assert_eq!(
        balanced_braces(r#"  {"a":"}{","b":{"c":1}} trailing;"#).as_deref(),
        Some(r#"{"a":"}{","b":{"c":1}}"#)
    );
    assert_eq!(balanced_braces("no brace here").as_deref(), None);
    assert_eq!(balanced_braces("{ never closes ").as_deref(), None);
    // A `}` hidden inside a single-quoted string must not close early.
    assert_eq!(balanced_braces("{a:'}'}").as_deref(), Some("{a:'}'}"));
}

#[test]
fn js_string_literal_decodes_escapes() {
    assert_eq!(
        js_string_literal(r#""a\nb\tcA\"d\\e""#).as_deref(),
        Some("a\nb\tcA\"d\\e")
    );
    // BMP `\uXXXX` escape (U+0041 = 'A').
    assert_eq!(js_string_literal("\"x\\u0041y\"").as_deref(), Some("xAy"));
    // A surrogate pair decodes to U+1F600.
    assert_eq!(js_string_literal("\"\\uD83D\\uDE00\"").as_deref(), Some("😀"));
    // Stops at the closing quote, ignoring trailing source.
    assert_eq!(js_string_literal(r#""hi");more"#).as_deref(), Some("hi"));
    assert_eq!(js_string_literal("not a string"), None);
}

#[test]
fn fingerprint_distinguishes_variants() {
    let div = r#"<div class="js-store" data-content="{}"></div>"#;
    assert_eq!(js_store_fingerprint(div), (true, true, false, false));

    let script = r#"<script>window.UGAPP.store = {};</script>"#;
    assert_eq!(js_store_fingerprint(script), (false, false, true, true));
}

#[test]
fn ids_are_refused_for_a_reason() {
    assert_eq!(decode_id("*"), Err(IdError::Malformed));
    assert_eq!(decode_id(&encode_id("https://evil.example/x")), Err(IdError::ForeignUrl));
    assert_eq!(decode_id(&encode_id("http://www.ultimate-guitar.com/x")), Err(IdError::ForeignUrl));
    let u = UltimateGuitar::new(None);
    let url = "https://www.ultimate-guitar.com/tab/1";
    assert_eq!(u.external_url(&encode_id(url)), url);
}

#[test]
fn string_escapes() {
    assert_eq!(js_string_literal("'it\\'s'").as_deref(), Some("it's"));
    assert_eq!(js_string_literal("\"\\/\\b\\f\\r\"").as_deref(), Some("/\u{8}\u{c}\r"));
    assert_eq!(js_string_literal("\"open"), None);
    assert_eq!(js_string_literal("\"\\u12\""), None);
    assert_eq!(js_string_literal("\"\\uD83Dx\""), None);
    let chars: Vec<char> = "x1aFfz".chars().collect();
    assert_eq!(read_hex4(&chars, 1), Some(0x1aff));
    assert_eq!(read_hex4(&chars, 2), None);
    assert_eq!(read_hex4(&chars, 4), None);
}

#[test]
fn assignments() {
    assert_eq!(
        find_assignment("a.b.c; a.b == 1; a.b\n= {x}", "a.b").as_deref().map(str::trim),
        Some("{x}")
    );
    assert_eq!(find_assignment("a.b.c", "a.b"), None);
}

#[test]
fn keys_are_listed() {
    let v = json::parse(r#"{"a":1,"b":[]}"#).unwrap();
    assert_eq!(json_keys(Some(&v)), "a,b");
    assert_eq!(json_keys(Some(&Json::Null)), "<none>");
    assert_eq!(json_keys(None), "<none>");
}

fn store_page(json: &str) -> String {
    format!("<div class=\"js-store\" data-content=\"{}\"></div>", json.replace('"', "&quot;"))
}

const RESULTS: &str = r#"{"store":{"page":{"data":{"results":[
 {"type":" Chords ","tab_url":"https://tabs.ultimate-guitar.com/tab/1","song_name":"Song","artist_name":"Band","tonality_name":"Am","version":2},
 {"type":"Pro","tab_url":"u","song_name":"Skipped"},
 {"type":"Tabs","tab_url":"u","song_name":"Private","tab_access_type":"private"},
 {"type":"Tabs","song_name":"No address"},
 {"type":"Tabs","tab_url":"https://tabs.ultimate-guitar.com/tab/2","song_name":"Other","version":1,"tab_access_type":"public"}
]}}}}"#;

#[test]
fn tabs_are_found() {
    let u = UltimateGuitar::new(None);
    let out = u.search(&store_page(RESULTS), 10);
    assert_eq!(out.len(), 2);
    assert_eq!(out[0].title, "Song — Band");
    assert_eq!(out[0].id, encode_id("https://tabs.ultimate-guitar.com/tab/1"));
    assert_eq!(out[0].is_public_domain, Some(false));
    let badges: Vec<(&str, BadgeKind)> =
        out[0].metadata.iter().map(|b| (b.label.as_str(), b.kind)).collect();
    assert_eq!(
        badges,
        vec![
            ("Chords", BadgeKind::Generic),
            ("Key: Am", BadgeKind::Key),
            ("ver. 2", BadgeKind::Generic)
        ]
    );
    assert_eq!(out[1].title, "Other");
    assert_eq!(out[1].metadata.len(), 1);
    assert_eq!(u.search(&store_page(RESULTS), 1).len(), 1);
    assert_eq!(u.search(&store_page(RESULTS), 0).len(), 1);
    assert!(u.search("<p>", 5).is_empty());
}

#[test]
fn tabs_are_read() {
    let u = UltimateGuitar::new(None);
    let t = u
        .fetch_tab(&store_page(
            r#"{"store":{"page":{"data":{"tab":{"song_name":"S","artist_name":"A"},"tab_view":{"wiki_tab":{"content":"[ch]C[/ch]"}}}}}}"#,
        ))
        .unwrap();
    assert_eq!((t.title.as_str(), t.body.as_str()), ("S — A", "C"));
    let t = u
        .fetch_tab(&store_page(
            r#"{"store":{"page":{"data":{"tab_view":{"wiki_tab":{"content":"x"}}}}}}"#,
        ))
        .unwrap();
    assert_eq!(t.title, "Ultimate Guitar Tab");
    assert_eq!(u.fetch_tab(&store_page("{}")).unwrap_err(), TabError::NoContent);
    assert_eq!(u.fetch_tab("<p>").unwrap_err(), TabError::NoStore);
}

#[test]
fn only_guitar_is_served() {
    let u = UltimateGuitar::new(None);
    let mut f = SearchFilters::default();
    assert!(u.serves(&f));
    f.instrument = Some(Instrument::Guitar);
    assert!(u.serves(&f));
    f.instrument = Some(Instrument::Piano);
    assert!(!u.serves(&f));
    assert_eq!(
        u.search_url("a b"),
        "https://www.ultimate-guitar.com/search.php?search_type=title&value=a%20b"
    );
}

#[test]
fn quotes_are_cut_by_bytes() {
    assert_eq!(truncate_for_log("aé", 2), "a");
    assert_eq!(truncate_for_log("aé", 3), "aé");
    assert_eq!(truncate_for_log("😀", 3), "");
}

#[test]
fn the_session_is_kept() {
    let mut u = UltimateGuitar::new(Some("http://fs"));
    assert_eq!(u.ensure_fs_session(false), None);
    assert_eq!(u.ensure_fs_session(true).as_deref(), Some("ultimateguitar"));
    assert_eq!(u.ensure_fs_session(false).as_deref(), Some("ultimateguitar"));
}

fn solution(status: u16) -> FsSolution {
    FsSolution {
        url: String::new(),
        status,
        response: "r".to_string(),
        user_agent: String::new(),
        cookies: Vec::new(),
    }
}

#[test]
fn fetches() {
    assert!(matches!(start(false, true), (FetchState::Plain, FetchAction::TryPlain)));
    assert!(matches!(start(true, true), (FetchState::Clearance, FetchAction::TryClearance)));
    assert!(matches!(start(true, false), (FetchState::Session, FetchAction::AcquireSession)));
    let (s, a) = step(FetchState::Clearance, FetchEvent::Clearance(None));
    assert!(matches!(a, FetchAction::AcquireSession));
    let (s, a) = step(s, FetchEvent::Session(None));
    assert!(matches!(a, FetchAction::Solve(None)));
    let (s, a) = step(s, FetchEvent::Solved(Ok(solution(200))));
    assert_eq!(s, FetchState::Over);
    assert!(matches!(a, FetchAction::Keep(_)));
}

#[test]
fn fetches_fail() {
    let (_, a) = step(FetchState::Solve, FetchEvent::Solved(Ok(solution(500))));
    let FetchAction::Fail(f) = a else { panic!() };
    assert_eq!(failure_message("tab", "u", &f), "flaresolverr tab HTTP 500: r");
    let (_, a) = step(FetchState::Solve, FetchEvent::Solved(Err(FsError::NoSolution)));
    let FetchAction::Fail(f) = a else { panic!() };
    assert_eq!(failure_message("tab", "u", &f), "flaresolverr tab u: flaresolverr returned no solution");
    let (_, a) = step(FetchState::Plain, FetchEvent::Plain(Err("e".to_string())));
    let FetchAction::Fail(f) = a else { panic!() };
    assert_eq!(failure_message("tab", "u", &f), "e");
    let (_, a) = step(FetchState::Over, FetchEvent::Session(None));
    assert!(matches!(a, FetchAction::Fail(FetchFailure::OutOfOrder)));
}

#[test]
fn answers_are_judged() {
    assert_eq!(judge_clearance(true, "p".to_string()).as_deref(), Some("p"));
    assert_eq!(judge_clearance(false, "p".to_string()), None);
    assert_eq!(judge_clearance(true, "Just a moment...".to_string()), None);
    assert_eq!(judge_plain(true, "tab", "200", "p".to_string()).as_deref(), Ok("p"));
    assert_eq!(
        judge_plain(false, "tab", "503 X", "p".to_string()),
        Err("ultimate-guitar tab HTTP 503 X: p".to_string())
    );
    assert_eq!(nav_headers().len(), 5);
}

#[test]
fn long_lines_are_wrapped() {
    let body = format!("{}\n\nend", "é".repeat(250));
    let lines = lines_of("T", &body);
    let widths: Vec<usize> = lines.iter().map(|l| l.chars().count()).collect();
    assert_eq!(widths, vec![1, 0, 100, 100, 50, 0, 3]);
    assert_eq!(lines[2..5].concat(), "é".repeat(250));
}

#[test]
fn pages_hold_their_lines() {
    let body = vec!["x"; 150].join("\n");
    let pages = layout("T", &body);
    let sizes: Vec<usize> = pages.iter().map(Vec::len).collect();
    assert_eq!(sizes, vec![72, 72, 8]);
    assert_eq!(LINES_PER_PAGE, 72);
    assert_eq!(pages.concat(), lines_of("T", &body));
    assert_eq!(layout("", ""), vec![vec!["", "", ""]]);
}

#[test]
fn objects_stand_alone() {
    let s = r#"x = {"a":"}{\"","b":{'c':"'"}}; {y}"#;
    let o = balanced_braces(s).unwrap();
    assert_eq!(o, r#"{"a":"}{\"","b":{'c':"'"}}"#);
    assert_eq!(balanced_braces(&o).as_deref(), Some(o.as_str()));
    for more in ["", "}", "{", "\"'"] {
        assert_eq!(balanced_braces(&format!("{s}{more}")).as_deref(), Some(o.as_str()));
        assert_eq!(balanced_braces(&format!("{o}{more}")).as_deref(), Some(o.as_str()));
    }
    for n in 0..o.len() {
        assert_eq!(balanced_braces(&o[..n]), None, "{n}");
    }
}

#[test]
fn escaped_texts_read_back() {
    let said = "a\"b'c\\d\ne\rf\tg\u{8}h\u{c}i/ü😀";
    for quote in ['"', '\''] {
        let mut written = String::from(quote);
        for c in said.chars() {
            match c {
                '\\' => written.push_str("\\\\"),
                '\n' => written.push_str("\\n"),
                '\r' => written.push_str("\\r"),
                '\t' => written.push_str("\\t"),
                '\u{8}' => written.push_str("\\b"),
                '\u{c}' => written.push_str("\\f"),
                'ü' => written.push_str("\\u00fC"),
                '😀' => written.push_str("\\uD83D\\ude00"),
                c if c == quote => {
                    written.push('\\');
                    written.push(c);
                }
                c => written.push(c),
            }
        }
        written.push(quote);
        assert_eq!(js_string_literal(&format!("{written});{quote}")).as_deref(), Some(said));
    }
}
