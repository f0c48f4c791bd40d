use sheet_music_browsarr::html::Table;
use sheet_music_browsarr::sources::download::{
    check_announced, check_pdf_response, check_size, status_message, BoundedBuffer, PdfRefusal,
    TooLarge,
};
use sheet_music_browsarr::sources::mutopia::{
    absolutize, clean_cell_text, decode_url, derive_thumbnail_url, encode_url, judge_search,
    results_of, Mutopia,
};
use sheet_music_browsarr::sources::{BadgeKind, Instrument, SearchFilters};

const PAGE: &str = r#"<html><body>
<table class="result-table">
 <tr><td> Nocturne&nbsp;&nbsp;in  E </td><td>by F. Chopin</td><td>Op. 9</td></tr>
 <tr><td>for Piano</td><td>1832</td><td>Romantic</td></tr>
 <tr><td><a href="x.ly">ly</a></td><td><a href="/ftp/noc-let.pdf">letter</a> <a href="/ftp/noc-A4.PDF">a4</a></td></tr>
</table>
<table class="result-table"><tr><td>Again</td></tr><tr><td><a href="/ftp/noc-A4.PDF">pdf</a></td></tr></table>
<table class="result-table"><tr><td>No PDF</td></tr></table>
<table class="result-table">
 <tr><td>&nbsp;</td><td>Anonymous</td></tr>
 <tr><td>for </td><td>n/a</td><td>&nbsp;</td></tr>
 <tr><td><a href="//m.org/a/old_air-one-let.pdf">pdf</a></td></tr>
</table>
<table class="other"><tr><td>Not a result</td></tr></table>
</body></html>"#;

#[test]
fn a_page_of_results() {
    let out = Mutopia::new().search(PAGE, 10).expect("selectors are understood");
    assert_eq!(out.len(), 2);
    let a = &out[0];
    assert_eq!(a.source, "mutopia");
    assert_eq!(a.title, "Nocturne in E");
    assert_eq!(a.description.as_deref(), Some("F. Chopin"));
    assert_eq!(a.external_url, "https://www.mutopiaproject.org/ftp/noc-A4.PDF");
    assert_eq!(a.id, encode_url(&a.external_url));
    assert_eq!(
        a.thumbnail_url.as_deref(),
        Some("https://www.mutopiaproject.org/ftp/noc-A4-pre.png")
    );
    let badges: Vec<(&str, BadgeKind)> =
        a.metadata.iter().map(|b| (b.label.as_str(), b.kind)).collect();
    assert_eq!(
        badges,
        vec![
            ("Piano", BadgeKind::Instrument),
            ("1832", BadgeKind::Year),
            ("Romantic", BadgeKind::Generic)
        ]
    );
    assert_eq!(a.is_public_domain, Some(true));
    assert_eq!((a.complexity, a.is_official), (None, None));
    let b = &out[1];
    assert_eq!(b.title, "old air one");
    assert_eq!(b.description, None);
    assert!(b.metadata.is_empty());
    assert_eq!(b.external_url, "https://m.org/a/old_air-one-let.pdf");
    assert_eq!(b.thumbnail_url.as_deref(), Some("https://m.org/a/old_air-one-pre.png"));
}

#[test]
fn the_limit_holds() {
    assert_eq!(Mutopia::new().search(PAGE, 1).unwrap().len(), 1);
    assert!(Mutopia::new().search(PAGE, 0).unwrap().is_empty());
    assert!(Mutopia::new().search("", 5).unwrap().is_empty());
}

fn table(rows: Vec<Vec<&str>>, links: Vec<&str>) -> Table {
    Table {
        rows: rows.into_iter().map(|r| r.into_iter().map(String::from).collect()).collect(),
        links: links.into_iter().map(|l| Some(l.to_string())).collect(),
    }
}

#[test]
fn untitled_pieces_still_use_up_their_pdf() {
    let tables = vec![
        table(vec![vec![""]], vec!["/.pdf"]),
        table(vec![vec!["Named"]], vec!["/.pdf"]),
        table(vec![], vec!["/b.pdf"]),
        table(vec![vec!["by A"], vec![]], vec!["c.txt", "/c.pdf"]),
    ];
    let out = results_of(&tables, 10);
    assert_eq!(out.len(), 1);
    assert_eq!(out[0].title, "by A");
    assert_eq!(out[0].external_url, "https://www.mutopiaproject.org/c.pdf");
}

#[test]
fn addresses() {
    assert_eq!(absolutize("http://a/b"), "http://a/b");
    assert_eq!(absolutize("https://a/b"), "https://a/b");
    assert_eq!(absolutize("//a/b"), "https://a/b");
    assert_eq!(absolutize("/b"), "https://www.mutopiaproject.org/b");
    assert_eq!(absolutize("b"), "https://www.mutopiaproject.org/b");
}

#[test]
fn cells_are_cleaned() {
    assert_eq!(clean_cell_text(" \u{a0} a \n\t b\u{a0}c  "), "a b c");
    assert_eq!(clean_cell_text("\u{a0}"), "");
    assert_eq!(clean_cell_text("ab"), "ab");
    for cell in [" \u{a0} a \n\t b\u{a0}c  ", "", " ", "a b"] {
        let once = clean_cell_text(cell);
        assert_eq!(clean_cell_text(&once), once);
    }
}

#[test]
fn results_lead_to_pdfs() {
    let tables = vec![
        table(vec![vec!["One"]], vec!["/x.ly", "/one.PDF", "//h/one-A4.Pdf"]),
        table(vec![vec!["Two"]], vec!["two.pdf.zip"]),
        table(vec![vec!["Three"]], vec!["a4.pdf", "three-let.pdf"]),
    ];
    let out = results_of(&tables, 10);
    let urls: Vec<&str> = out.iter().map(|r| r.external_url.as_str()).collect();
    assert_eq!(urls, vec!["https://h/one-A4.Pdf", "https://www.mutopiaproject.org/a4.pdf"]);
    assert!(urls.iter().all(|u| u.to_lowercase().ends_with(".pdf")));
}

#[test]
fn thumbnails() {
    assert_eq!(derive_thumbnail_url("x-a4.pdf").as_deref(), Some("x-pre.png"));
    assert_eq!(derive_thumbnail_url("x-let.pdf").as_deref(), Some("x-pre.png"));
    assert_eq!(derive_thumbnail_url("x.PDF").as_deref(), Some("x-pre.png"));
    assert_eq!(derive_thumbnail_url("x.Pdf"), None);
}

#[test]
fn urls_round_trip() {
    for url in ["https://a.b/ü?x=1", "", "a/b"] {
        let id = encode_url(url);
        assert!(id.chars().all(|c| c.is_ascii_alphanumeric() || c == '-' || c == '_'));
        assert_eq!(decode_url(&id).as_deref(), Some(url));
    }
    assert_eq!(encode_url("a/b"), "YS9i");
    assert_eq!(decode_url("YS9i="), None);
    assert_eq!(decode_url("!"), None);
    // 0xff is no UTF-8.
    assert_eq!(decode_url("_w"), None);
}

#[test]
fn mutopia_search_fields() {
    let mut f = SearchFilters::default();
    let plain = Mutopia::new().search_query("bach", &f);
    assert_eq!(plain[0], ("searchingfor".to_string(), "bach".to_string()));
    assert_eq!(plain[3], ("Instrument".to_string(), String::new()));
    assert_eq!(plain.len(), 9);
    f.instrument = Some(Instrument::Choral);
    assert_eq!(Mutopia::new().search_query("bach", &f)[3].1, "Choir");
}

#[test]
fn only_pdf_answers_are_taken() {
    assert_eq!(check_pdf_response(false, Some("application/pdf"), None, 10), Err(PdfRefusal::Status));
    assert_eq!(check_pdf_response(true, Some("text/html"), None, 10), Err(PdfRefusal::NotPdf));
    assert_eq!(check_pdf_response(true, None, None, 10), Err(PdfRefusal::NotPdf));
    assert_eq!(
        check_pdf_response(true, Some("Application/PDF; x"), Some(11), 10),
        Err(PdfRefusal::TooLarge)
    );
    assert_eq!(check_pdf_response(true, Some("Application/PDF; x"), Some(10), 10), Ok(()));
    assert_eq!(check_pdf_response(true, Some("application/octet-stream"), None, 10), Ok(()));
}

#[test]
fn buffers_are_bounded() {
    let mut b = BoundedBuffer::new(5);
    assert_eq!(b.push(b"abc"), Ok(()));
    assert_eq!(b.push(b"def"), Err(TooLarge::Streamed));
    assert_eq!(b.push(b"de"), Ok(()));
    assert_eq!(b.into_bytes(), b"abcde");
    assert_eq!(check_announced(Some(6), 5), Err(TooLarge::Announced));
    assert_eq!(check_announced(None, 5), Ok(()));
    assert_eq!(check_size(6, 5), Err(TooLarge::Finished));
    assert_eq!(check_size(5, 5), Ok(()));
}

#[test]
fn answers_without_success_are_errors() {
    assert_eq!(judge_search(200, "200 OK", "page").as_deref(), Ok("page"));
    assert_eq!(judge_search(299, "299", "").as_deref(), Ok(""));
    for status in [199, 300, 404, 500] {
        assert!(judge_search(status, "x", "page").is_err());
    }
    let body = "ü".repeat(300);
    let want = format!("mutopia search HTTP 404 Not Found: {}", "ü".repeat(200));
    assert_eq!(judge_search(404, "404 Not Found", &body), Err(want.clone()));
    assert_eq!(Mutopia::new().answer(404, "404 Not Found", &body, 5).unwrap_err(), want);
    let found = Mutopia::new().answer(200, "200 OK", PAGE, 5).unwrap();
    let plain = Mutopia::new().search(PAGE, 5).unwrap();
    assert!(!found.is_empty());
    assert_eq!(found.len(), plain.len());
    assert_eq!(found[0].external_url, plain[0].external_url);
    assert_eq!(status_message("imslp", "pdf", "403 Forbidden", "no"), "imslp pdf HTTP 403 Forbidden: no");
}
