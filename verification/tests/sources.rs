use sheet_music_browsarr::sources::{Difficulty, Instrument, ScoreType, SearchFilters, Source};
use sheet_music_browsarr::sources::imslp::Imslp;
use sheet_music_browsarr::sources::musescore::Musescore;
use sheet_music_browsarr::sources::mutopia::Mutopia;
use sheet_music_browsarr::sources::ultimate_guitar::UltimateGuitar;

#[test]
fn instrument_slug_roundtrip() {
    for i in Instrument::ALL.iter() {
        assert_eq!(Instrument::from_slug(i.slug()), Some(*i));
    }
    assert_eq!(Instrument::from_slug("not-a-real-instrument"), None);
    assert_eq!(Instrument::from_slug(""), None);
}

#[test]
fn mutopia_value_remaps_choral() {
    assert_eq!(Instrument::Choral.mutopia_value(), "Choir");
    assert_eq!(Instrument::Piano.mutopia_value(), "Piano");
}

#[test]
fn other_slugs_round_trip() {
    for d in Difficulty::ALL.iter() {
        assert_eq!(Difficulty::from_slug(d.slug()), Some(*d));
    }
    for t in ScoreType::ALL.iter() {
        assert_eq!(ScoreType::from_slug(t.slug()), Some(*t));
    }
    assert_eq!(Difficulty::from_slug("Beginner"), None);
    assert_eq!(ScoreType::from_slug("x"), None);
}

#[test]
fn labels() {
    assert_eq!(Instrument::Clarinet.display(), "Clarinet");
    assert_eq!(Difficulty::Intermediate.display(), "Intermediate");
    assert_eq!(ScoreType::Community.display(), "Community");
    assert_eq!(Instrument::ALL.len(), 10);
}

#[test]
fn complexities() {
    assert_eq!(Difficulty::from_complexity(0), None);
    assert_eq!(Difficulty::from_complexity(1), Some(Difficulty::Beginner));
    assert_eq!(Difficulty::from_complexity(3), Some(Difficulty::Advanced));
    assert_eq!(Difficulty::from_complexity(4), None);
}

#[test]
fn no_filter_by_default() {
    let f = SearchFilters::default();
    assert_eq!(f.instrument, None);
    assert!(!f.public_domain_only);
}

#[test]
fn ids_and_names() {
    let m = Musescore::new(None, None);
    let u = UltimateGuitar::new(None);
    assert_eq!((Imslp::new().id(), Imslp::new().display_name()), ("imslp", "IMSLP"));
    assert_eq!((Mutopia::new().id(), Mutopia::new().display_name()), ("mutopia", "Mutopia Project"));
    assert_eq!((m.id(), m.display_name()), ("musescore", "MuseScore"));
    assert_eq!((u.id(), u.display_name()), ("ultimate-guitar", "Ultimate Guitar"));
}

#[test]
fn external_urls() {
    assert_eq!(Imslp::new().external_url("X_(Y)"), "https://imslp.org/wiki/X_(Y)");
    assert_eq!(Musescore::new(None, None).external_url("7"), "https://musescore.com/score/7");
    let url = "https://www.mutopiaproject.org/ftp/a-a4.pdf";
    let id = sheet_music_browsarr::sources::mutopia::encode_url(url);
    assert_eq!(Mutopia::new().external_url(&id), url);
    assert_eq!(
        Mutopia::new().external_url("%%%"),
        "https://www.mutopiaproject.org/cgibin/make-table.cgi"
    );
    assert_eq!(UltimateGuitar::new(None).external_url("%%%"), "https://www.ultimate-guitar.com/");
}

#[test]
fn clients_are_set_up() {
    let imslp = Imslp::new();
    assert_eq!(
        imslp.http.cookies,
        vec![
            "imslpdisclaim=true; Domain=.imslp.org; Path=/",
            "imslpdisclaimer=true; Domain=.imslp.org; Path=/",
            "imslpfileaccess=true; Domain=.imslp.org; Path=/",
            "imslp_disclaimer_accepted=1; Domain=.imslp.org; Path=/",
        ]
    );
    assert_eq!((imslp.http.timeout_secs, imslp.http.gzip), (20, true));
    assert!(imslp.http.user_agent.starts_with("sheet-music-browsarr/"));
    let mutopia = Mutopia::new();
    assert!(mutopia.http.cookies.is_empty());
    assert_eq!(mutopia.http.user_agent, imslp.http.user_agent);
    assert_eq!((mutopia.http.timeout_secs, mutopia.http.gzip), (20, true));
}
