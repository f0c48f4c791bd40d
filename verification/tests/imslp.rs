use sheet_music_browsarr::sources::imslp::{
    absolutize, decode_name, encode_name, page_id_from_url, passes_instrument, Imslp,
};
use sheet_music_browsarr::sources::{Instrument, SearchFilters, Source};

fn any() -> SearchFilters {
    SearchFilters::default()
}

#[test]
fn an_opensearch_answer() {
    let body = r#"["bach",["Air (Bach, J.S.)","","Cello Suite"],["An air","x",""],["https://imslp.org/wiki/Air_(Bach)","u"]]"#;
    let out = Imslp::new().search(body, &any()).expect("a list");
    assert_eq!(out.len(), 2);
    assert_eq!(out[0].source, "imslp");
    assert_eq!(out[0].id, "Air_(Bach)");
    assert_eq!(Imslp::new().external_url(&out[0].id), out[0].external_url);
    assert_eq!(out[0].title, "Air (Bach, J.S.)");
    assert_eq!(out[0].description.as_deref(), Some("An air"));
    assert_eq!(out[0].external_url, "https://imslp.org/wiki/Air_(Bach)");
    assert_eq!(out[0].is_public_domain, Some(true));
    // The mark, and the URL-safe base64 form of `Cello Suite`.
    assert_eq!(out[1].id, "~Q2VsbG8gU3VpdGU");
    assert_eq!(Imslp::new().external_url(&out[1].id), "https://imslp.org/wiki/Cello Suite");
    assert_eq!(out[1].description, None);
    assert_eq!(out[1].external_url, "");
}

#[test]
fn odd_answers() {
    assert!(Imslp::new().search("{}", &any()).is_none());
    assert!(Imslp::new().search("not json", &any()).is_none());
    assert!(Imslp::new().search("[]", &any()).unwrap().is_empty());
    assert!(Imslp::new().search(r#"["q",[1,null],5]"#, &any()).unwrap().is_empty());
}

#[test]
fn page_ids() {
    assert_eq!(page_id_from_url("https://imslp.org/wiki/A/wiki/B").as_deref(), Some("A/wiki/B"));
    assert_eq!(page_id_from_url("https://imslp.org/x"), None);
    assert_eq!(page_id_from_url("/wiki/").as_deref(), Some(""));
}

#[test]
fn links() {
    assert_eq!(absolutize("//cdn/x"), "https://cdn/x");
    assert_eq!(absolutize("/x"), "https://imslp.org/x");
    assert_eq!(absolutize("http://x"), "http://x");
}

#[test]
fn pdfs_in_order_of_preference() {
    let imslp = Imslp::new();
    let other = r#"<a href="/files/Other.PDF">x</a>"#;
    let gated = r#"<a href="/wiki/Special:ImagefromIndex/1">x</a>"#;
    let direct = r#"<a href="//ks.org/IMGLNKS/usimg/a.pdf?x">x</a>"#;
    let none = r#"<a>no href</a><a href="/wiki/Main">x</a>"#;
    assert_eq!(imslp.fetch_pdf_url(none), None);
    assert_eq!(
        imslp.fetch_pdf_url(&format!("{none}{other}")).as_deref(),
        Some("https://imslp.org/files/Other.PDF")
    );
    assert_eq!(
        imslp.fetch_pdf_url(&format!("{other}{gated}")).as_deref(),
        Some("https://imslp.org/wiki/Special:ImagefromIndex/1")
    );
    assert_eq!(
        imslp.fetch_pdf_url(&format!("{other}{gated}{direct}")).as_deref(),
        Some("https://ks.org/IMGLNKS/usimg/a.pdf?x")
    );
}

#[test]
fn imslp_search_fields() {
    let f = Imslp::new().search_query("air", 20);
    let f: Vec<(&str, &str)> = f.iter().map(|(k, v)| (k.as_str(), v.as_str())).collect();
    assert_eq!(
        f,
        vec![
            ("action", "opensearch"),
            ("search", "air"),
            ("format", "json"),
            ("limit", "20"),
            ("namespace", "0")
        ]
    );
}

#[test]
fn ids_with_slashes_stay_in_one_segment() {
    let body = r#"["x",["A"],[""],["https://imslp.org/wiki/A/B_(C%2C_D)?x=1"]]"#;
    let out = Imslp::new().search(body, &any()).unwrap();
    assert!(out[0].id.chars().all(|c| c.is_ascii_alphanumeric() || "-_~".contains(c)));
    assert_eq!(Imslp::new().external_url(&out[0].id), "https://imslp.org/wiki/A/B_(C%2C_D)?x=1");
}

#[test]
fn answers_are_looked_through_for_the_instrument() {
    let body = r#"["s",["CELLO Suite","Sonata","Mass"],["","for Violoncello and piano","for Choir"],["u","v","w"]]"#;
    let titles = |i: Option<Instrument>| -> Vec<String> {
        let mut f = any();
        f.instrument = i;
        Imslp::new().search(body, &f).unwrap().into_iter().map(|r| r.title).collect()
    };
    assert_eq!(titles(None), vec!["CELLO Suite", "Sonata", "Mass"]);
    assert_eq!(titles(Some(Instrument::Cello)), vec!["CELLO Suite", "Sonata"]);
    assert_eq!(titles(Some(Instrument::Piano)), vec!["Sonata"]);
    assert_eq!(titles(Some(Instrument::Choral)), vec!["Mass"]);
    assert!(titles(Some(Instrument::Organ)).is_empty());
}

#[test]
fn works_pass_by_title_or_description() {
    let body = r#"["s",["Choral Prelude"],["for organ"],["u"]]"#;
    let work = &Imslp::new().search(body, &any()).unwrap()[0];
    assert!(passes_instrument(work, None));
    assert!(passes_instrument(work, Some(Instrument::Choral)));
    assert!(passes_instrument(work, Some(Instrument::Organ)));
    assert!(!passes_instrument(work, Some(Instrument::Piano)));
}

#[test]
fn plain_names_are_their_own_ids() {
    for name in ["Foo", "Air_(Bach)", "A.B,_C!", "Op.1;x=1:@'$&*+", "...", "a~b", "QQ"] {
        assert_eq!(encode_name(name), name);
        assert_eq!(decode_name(name), name);
    }
    assert_eq!(encode_name("a/b"), "~YS9i");
    for name in ["a/b", "a b", "a%2Fb", "a?b", "a#b", "é", "", ".", "..", "~x", "~YS9i"] {
        let id = encode_name(name);
        assert!(id.starts_with('~'), "{id}");
        assert_eq!(decode_name(&id), name);
    }
    // Behind the mark, but the id of no page: `QQ` is the form of the plain `A`.
    for id in ["~QQ", "~!", "x/y"] {
        assert_eq!(decode_name(id), id);
    }
    assert_eq!(decode_name("~"), "");
    assert_eq!(Imslp::new().external_url("x/y"), "https://imslp.org/wiki/x/y");
}
