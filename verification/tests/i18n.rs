use sheet_music_browsarr::i18n::alias::{aliases, expand_with, tokenize, AliasIndex, Script};
use sheet_music_browsarr::i18n::expand_query;

#[test]
fn english_composer_expands_to_four_scripts() {
    let v = expand_query("Chopin Nocturne");
    assert!(v.contains(&"Chopin nocturne".to_string()) || v.contains(&"Chopin Nocturne".to_string()) || v.iter().any(|q| q.to_lowercase().contains("chopin nocturne")));
    assert!(v.iter().any(|q| q.contains("肖邦")));
    assert!(v.iter().any(|q| q.contains("蕭邦")));
    assert!(v.iter().any(|q| q.contains("xiaobang")));
}

#[test]
fn pinyin_input_expands_to_hanzi() {
    let v = expand_query("xiaobang");
    assert!(v.iter().any(|q| q.contains("肖邦")));
    assert!(v.iter().any(|q| q.contains("Chopin")));
}

#[test]
fn traditional_input_expands() {
    let v = expand_query("蕭邦 夜曲");
    assert!(v.iter().any(|q| q.contains("Chopin") && q.contains("nocturne")));
}

#[test]
fn unknown_query_passes_through() {
    let v = expand_query("some random thing");
    assert_eq!(v, vec!["some random thing".to_string()]);
}

#[test]
fn empty_query_passes_through() {
    let v = expand_query("");
    assert_eq!(v, vec!["".to_string()]);
}

#[test]
fn documented_expansions() {
    assert_eq!(
        expand_query("Chopin nocturne"),
        vec!["Chopin nocturne", "肖邦 夜曲", "蕭邦 夜曲", "xiaobang yequ"]
    );
    assert_eq!(expand_query("肖邦"), vec!["Chopin", "肖邦", "蕭邦", "xiaobang"]);
    assert_eq!(expand_query("random query"), vec!["random query"]);
}

#[test]
fn all_scripts_reach_the_same_composer() {
    let want = expand_query("Chopin");
    for q in ["肖邦", "蕭邦", "xiaobang", "CHOPIN", " chopin! "] {
        assert_eq!(expand_query(q), want, "{q}");
    }
}

#[test]
fn equal_variants_are_given_once() {
    assert_eq!(expand_query("Bach"), vec!["Bach", "巴赫", "bahe"]);
}

#[test]
fn unknown_tokens_stay_in_place() {
    assert_eq!(
        expand_query("easy, piano: (solo)"),
        vec!["easy piano solo", "easy 钢琴 solo", "easy 鋼琴 solo", "easy gangqin solo"]
    );
}

#[test]
fn tokens() {
    assert_eq!(tokenize("a,b. c;d:e!f?g(h)i\u{3000}j"), vec!["a", "b", "c", "d", "e", "f", "g", "h", "i", "j"]);
    assert!(tokenize(" ,.").is_empty());
}

#[test]
fn queries_of_separators_only_stay() {
    assert_eq!(expand_query(" ,. "), vec![" ,. "]);
}

#[test]
fn lookup_ignores_case() {
    let idx = aliases();
    let row = idx.lookup("SONATA").expect("known");
    assert_eq!(row.variant(Script::Traditional), "奏鳴曲");
    for t in ["SONATA", "Sonata", "sonata"] {
        let lower = t.to_lowercase();
        assert_eq!(idx.lookup(t).unwrap().en, idx.lookup(&lower).unwrap().en);
    }
    assert!(idx.lookup("").is_none());
    assert!(idx.lookup("waltz").is_none());
}

#[test]
fn dictionaries_skip_comments_and_short_lines_and_first_rows_win() {
    let csv = "en,simplified,traditional,pinyin\r\n# note,a,b,c\r\n\r\nshort,a,b\r\n One , yi ,壹, first \r\nTwo,yi,二,\r\n";
    let idx = AliasIndex::from_csv(csv);
    assert_eq!(idx.lookup("yi").unwrap().en, "One");
    assert_eq!(idx.lookup("two").unwrap().simplified, "yi");
    assert!(idx.lookup("").is_none());
    assert!(idx.lookup("short").is_none());
    assert!(idx.lookup("note").is_none());
    assert_eq!(expand_with(&idx, "two"), vec!["Two", "yi", "二", ""]);
}
