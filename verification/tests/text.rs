use sheet_music_browsarr::codec::{decode_url_id, encode_url_id};
use sheet_music_browsarr::json::{parse, Json};
use sheet_music_browsarr::text::number::{parse_unsigned, to_decimal};
use sheet_music_browsarr::text::search::{
    ends_with, has, replace, starts_with, strip_prefix, strip_suffix,
};
use sheet_music_browsarr::text::split::{tail, words_of};
use sheet_music_browsarr::text::trim::{
    trim, trim_end_char, trim_end_matches, trim_start, trim_start_char, trim_start_matches,
};
use sheet_music_browsarr::text::{
    among, ascii_lowercase, at_most, concat3, digit, hex_digit, join, same, take_chars, white_space,
};

#[test]
fn characters_are_classed_as_the_standard_library_does() {
    for c in '\0'..=char::MAX {
        assert_eq!(white_space(c), c.is_whitespace(), "{c:?}");
        assert_eq!(digit(c), c.is_ascii_digit(), "{c:?}");
        assert_eq!(hex_digit(c), c.is_ascii_hexdigit(), "{c:?}");
    }
}

const TEXTS: [&str; 9] =
    ["", " ", "a", "aa", " \u{3000}ab\u{a0}", "aab aab", "ÄÖ é", "\t\n\r", "xaax"];

#[test]
fn texts_are_handled_as_the_standard_library_does() {
    for s in TEXTS {
        assert_eq!(trim(s), s.trim());
        assert_eq!(trim_start(s), s.trim_start());
        assert_eq!(ascii_lowercase(s), s.to_ascii_lowercase());
        let words: Vec<&str> = s.split_whitespace().collect();
        assert_eq!(words_of(s), words);
        assert_eq!(trim_end_char(s, 'a'), s.trim_end_matches('a'));
        assert_eq!(trim_start_char(s, 'a'), s.trim_start_matches('a'));
        assert_eq!(tail(s, 'a'), s.rsplit('a').next().unwrap());
        for p in TEXTS {
            assert_eq!(has(s, p), s.contains(p), "{s:?} {p:?}");
            assert_eq!(starts_with(s, p), s.starts_with(p));
            assert_eq!(ends_with(s, p), s.ends_with(p));
            assert_eq!(strip_prefix(s, p).as_deref(), s.strip_prefix(p));
            assert_eq!(strip_suffix(s, p).as_deref(), s.strip_suffix(p));
            assert_eq!(same(s, p), s == p);
            assert_eq!(at_most(s, p), s <= p);
            if !p.is_empty() {
                assert_eq!(replace(s, p, "-"), s.replace(p, "-"), "{s:?} {p:?}");
                assert_eq!(trim_end_matches(s, p), s.trim_end_matches(p));
                assert_eq!(trim_start_matches(s, p), s.trim_start_matches(p));
            }
        }
    }
}

#[test]
fn numbers_are_read_and_written() {
    for n in [0, 1, 9, 10, 65_535, 65_536, u64::MAX] {
        assert_eq!(to_decimal(n), n.to_string());
        assert_eq!(parse_unsigned(&to_decimal(n), u64::MAX), Some(n));
    }
    for s in ["", "+", "-1", "+7", "007", " 1", "1 ", "1a", "65535", "65536", "99999999999999999999"] {
        assert_eq!(parse_unsigned(s, 65_535), s.parse::<u16>().ok().map(u64::from), "{s:?}");
    }
}

#[test]
fn lists_of_texts() {
    let list = vec!["a".to_string(), "b".to_string(), "c".to_string()];
    assert_eq!(join(&list, ", "), "a, b, c");
    assert_eq!(join(&Vec::new(), ","), "");
    assert!(among(&list, "b") && !among(&list, "d"));
    assert_eq!(concat3("a", "", "é"), "aé");
    assert_eq!(take_chars("éàü", 2), "éà");
    assert_eq!(take_chars("é", 2), "é");
}

#[test]
fn documents() {
    let v = parse(r#"{"b":[1,-1,1.5,"x",null,true],"a":{"k":"v"},"b2":18446744073709551615}"#).unwrap();
    assert_eq!(v.descend(&["a", "k"]).and_then(|x| x.text()), Some("v"));
    assert!(v.descend(&["a", "x"]).is_none());
    assert_eq!(v.unsigned_member("b2"), Some(u64::MAX));
    assert_eq!(v.text_member("b"), None);
    let list = v.get("b").and_then(|x| x.list()).unwrap();
    assert_eq!(list[0].unsigned(), Some(1));
    assert_eq!(list[1].unsigned(), None);
    assert!(matches!(list[2], Json::Number));
    assert_eq!(list[3].text(), Some("x"));
    assert!(matches!(list[4], Json::Null));
    assert_eq!(list[5].boolean(), Some(true));
    assert!(list[5].get("x").is_none());
    assert!(parse("{").is_none());
    assert!(parse("{} x").is_none());
}

#[test]
fn addresses_as_ids() {
    assert_eq!(encode_url_id("https://a.b/?>"), "aHR0cHM6Ly9hLmIvPz4");
    assert_eq!(decode_url_id("aHR0cHM6Ly9hLmIvPz4").as_deref(), Some("https://a.b/?>"));
    // Padding, a stray low bit, an impossible length.
    for bad in ["YQ==", "YR", "A"] {
        assert_eq!(decode_url_id(bad), None, "{bad}");
    }
}
