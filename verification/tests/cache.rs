use sheet_music_browsarr::cache::{
    age, cached_search, entry, entry_at, get_at, stamps_at, Age, CacheKey, L2Lookup, Plan, Row,
    CACHE_TTL_SECS, MUSESCORE_CACHE_TTL_SECS,
};
use sheet_music_browsarr::sources::{Instrument, SearchResult};
use std::time::Duration;

fn key(source: &'static str, query: &str, limit: usize) -> CacheKey {
    CacheKey { source, query: query.to_string(), limit, instrument: None }
}

fn sample_result(title: &str) -> SearchResult {
    SearchResult {
        source: "musescore".to_string(),
        id: "abc123".to_string(),
        title: title.to_string(),
        description: Some("desc".to_string()),
        external_url: "https://example.test/abc123".to_string(),
        thumbnail_url: None,
        metadata: Vec::new(),
        complexity: Some(2),
        is_public_domain: Some(true),
        is_official: Some(false),
    }
}

const SEC: i128 = 1_000_000_000;
const T: i128 = 1_779_883_200 * SEC; // 2026-05-27T12:00:00Z

#[test]
fn l2_key_distinguishes_every_field() {
    let base = key("musescore", "chopin", 20);
    assert_ne!(base.l2_key(), key("imslp", "chopin", 20).l2_key());
    assert_ne!(base.l2_key(), key("musescore", "bach", 20).l2_key());
    assert_ne!(base.l2_key(), key("musescore", "chopin", 40).l2_key());
    let mut with_instrument = base.clone();
    with_instrument.instrument = Some(Instrument::Piano);
    assert_ne!(base.l2_key(), with_instrument.l2_key());
}

#[test]
fn ttl_is_source_specific() {
    assert_eq!(
        Duration::from_secs(key("musescore", "q", 20).ttl()),
        Duration::from_secs(MUSESCORE_CACHE_TTL_SECS)
    );
    assert_eq!(
        Duration::from_secs(key("imslp", "q", 20).ttl()),
        Duration::from_secs(CACHE_TTL_SECS)
    );
}

#[test]
fn l2_key_has_its_form() {
    let mut k = key("imslp", "a\u{1f}b", 20);
    assert_eq!(k.l2_key(), "imslp\u{1f}20\u{1f}\u{1f}a\u{1f}b");
    k.instrument = Some(Instrument::Cello);
    assert_eq!(k.l2_key(), "imslp\u{1f}20\u{1f}cello\u{1f}a\u{1f}b");
}

#[test]
fn week_and_minute() {
    assert_eq!(MUSESCORE_CACHE_TTL_SECS, 60 * 60 * 24 * 7);
    assert_eq!(CACHE_TTL_SECS, 60);
}

fn row(expires_at: &str, title: &str) -> Option<Row> {
    Some(Row { expires_at: expires_at.to_string(), results: Some(vec![sample_result(title)]) })
}

#[test]
fn stamps_round_trip_and_rows_age() {
    let k = key("imslp", "x", 20);
    let s = stamps_at(&k, T).expect("within the calendar");
    assert_eq!(s.created_at, "2026-05-27T12:00:00Z");
    assert_eq!(s.expires_at, "2026-05-27T12:01:00Z");
    match get_at(&k, row(&s.expires_at, "hit"), T + 59 * SEC) {
        L2Lookup::Fresh(v) => assert_eq!(v[0].title, "hit"),
        other => panic!("{other:?}"),
    }
    match get_at(&k, row(&s.expires_at, "stale hit"), T + 60 * SEC) {
        L2Lookup::Stale(v) => assert_eq!(v[0].title, "stale hit"),
        other => panic!("{other:?}"),
    }
    assert!(matches!(get_at(&k, row(&s.expires_at, "x"), T + 120 * SEC), L2Lookup::Stale(_)));
    assert!(matches!(
        get_at(&k, row(&s.expires_at, "x"), T + 120 * SEC + 1),
        L2Lookup::Miss { sweep: true }
    ));
}

#[test]
fn musescore_rows_last_a_week() {
    let k = key("musescore", "x", 20);
    let s = stamps_at(&k, T).unwrap();
    assert_eq!(s.expires_at, "2026-06-03T12:00:00Z");
    assert!(matches!(
        get_at(&k, row(&s.expires_at, "x"), T + 13 * 86_400 * SEC),
        L2Lookup::Stale(_)
    ));
}

#[test]
fn stamps_outside_the_years_are_refused() {
    let k = key("imslp", "x", 20);
    assert!(stamps_at(&k, 253_402_300_799 * SEC).is_none());
    assert!(stamps_at(&k, -62_167_219_201 * SEC).is_none());
    assert!(stamps_at(&k, 253_402_300_739 * SEC).is_some());
}

#[test]
fn unreadable_rows_are_swept() {
    let k = key("imslp", "x", 20);
    assert!(matches!(get_at(&k, None, T), L2Lookup::Miss { sweep: false }));
    assert!(matches!(get_at(&k, row("not a date", "x"), T), L2Lookup::Miss { sweep: true }));
    let unreadable = Some(Row { expires_at: "2026-05-27T12:01:00Z".to_string(), results: None });
    assert!(matches!(get_at(&k, unreadable, T), L2Lookup::Miss { sweep: true }));
}

#[test]
fn offsets_are_honoured() {
    let k = key("imslp", "x", 20);
    // 14:00 at +02:00 is 12:00 UTC.
    assert!(matches!(get_at(&k, row("2026-05-27T14:00:00+02:00", "x"), T - 1), L2Lookup::Fresh(_)));
    assert!(matches!(get_at(&k, row("2026-05-27T14:00:00+02:00", "x"), T), L2Lookup::Stale(_)));
}

#[test]
fn ages() {
    assert_eq!(age(None, 60, T), Age::Dead);
    assert_eq!(age(Some(T), 60, T - 1), Age::Fresh);
    assert_eq!(age(Some(T), 60, T), Age::Stale);
    assert_eq!(age(Some(T), 60, T + 61 * SEC), Age::Dead);
}

#[test]
fn requests_wait_only_on_a_miss() {
    assert!(matches!(cached_search(None, None), Plan::Fetch));
    assert!(matches!(cached_search(None, Some(L2Lookup::Miss { sweep: true })), Plan::Fetch));
    let r = vec![sample_result("cached")];
    match cached_search(Some(r), Some(L2Lookup::Stale(vec![]))) {
        Plan::Serve(v) => assert_eq!(v[0].title, "cached"),
        other => panic!("{other:?}"),
    }
    match cached_search(None, Some(L2Lookup::Fresh(vec![sample_result("f")]))) {
        Plan::Warm(v) => assert_eq!(v[0].title, "f"),
        other => panic!("{other:?}"),
    }
    match cached_search(None, Some(L2Lookup::Stale(vec![sample_result("s")]))) {
        Plan::Refresh(v) => assert_eq!(v[0].title, "s"),
        other => panic!("{other:?}"),
    }
}

#[test]
fn lookups_use_the_clock() {
    let k = key("imslp", "x", 20);
    let e = entry(&k, vec![sample_result("now")]).expect("the clock is within the calendar");
    assert_eq!((e.cache_key, e.source), (k.l2_key(), "imslp"));
    let found = Some(Row { expires_at: e.stamps.expires_at, results: Some(e.results) });
    match sheet_music_browsarr::cache::get(&k, found) {
        L2Lookup::Fresh(v) => assert_eq!(v[0].title, "now"),
        other => panic!("{other:?}"),
    }
}

#[test]
fn results_are_cloned_whole() {
    let mut r = sample_result("a");
    r.metadata.push(sheet_music_browsarr::sources::MetadataBadge {
        label: "3 pages".to_string(),
        kind: sheet_music_browsarr::sources::BadgeKind::Pages,
    });
    let c = r.clone();
    assert_eq!(format!("{r:?}"), format!("{c:?}"));
}

#[test]
fn the_last_entry_is_served() {
    let k = key("imslp", "x", 20);
    let mut table: std::collections::BTreeMap<String, Row> = std::collections::BTreeMap::new();
    for (title, at) in [("first", T), ("second", T + 30 * SEC)] {
        let e = entry_at(&k, vec![sample_result(title)], at).unwrap();
        table.insert(
            e.cache_key,
            Row { expires_at: e.stamps.expires_at, results: Some(e.results) },
        );
    }
    assert_eq!(table.len(), 1);
    match get_at(&k, table.remove(&k.l2_key()), T + 89 * SEC) {
        L2Lookup::Fresh(v) => assert_eq!(v[0].title, "second"),
        other => panic!("{other:?}"),
    }
    assert!(entry_at(&k, vec![], 253_402_300_799 * SEC).is_none());
}
