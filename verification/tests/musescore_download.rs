use sheet_music_browsarr::sources::download::TooLarge;
use sheet_music_browsarr::sources::musescore::download::{
    cached_salt, jmuse_request_url, jmuse_url, mint_token, plan_pages, score_page,
    token_from_digest, CachedAlgorithm, JmuseError, JmuseReply, PlanError, SaltBook, ScorePage,
    FALLBACK_SALT,
};
use sheet_music_browsarr::sources::musescore::pipeline::{start, DownloadError, Progress};

#[test]
fn mint_token_native_md5() {
    //   md5("0") = cfcd208495d565ef66e7dff9f98764da
    //   md5("1") = c4ca4238a0b923820dcc509a6f75849b
    assert_eq!(mint_token("", "", "", 0), "cfcd");
    assert_eq!(mint_token("", "", "", 1), "c4ca");

    let one = mint_token(FALLBACK_SALT, "123456", "img", 3);
    assert_eq!(one.len(), 4);
    assert!(one
        .chars()
        .all(|c| c.is_ascii_hexdigit() && !c.is_ascii_uppercase()));
}

#[test]
fn tokens_join_their_parts_in_order() {
    //   md5("123") = 202cb962ac59075b964b07152d234b70
    assert_eq!(mint_token("3", "1", "", 2), "202c");
    assert_eq!(mint_token("", "1", "2", 3), "202c");
    assert_eq!(token_from_digest(&[0x0f, 0xa0, 0x33]), "0fa0");
}

#[test]
fn score_pages() {
    let p = score_page(
        r#"<link as="image" href="https://c/score_0.png@0"><script src="https://musescore.com/static/public/build/musescore/202605/ms.a.js"></script> "pages":4"#,
    );
    assert_eq!(p.bundle_urls.len(), 1);
    assert_eq!(p.pages_count, Some(4));
    assert_eq!(p.first_page_url.as_deref(), Some("https://c/score_0.png"));
}

#[test]
fn plans() {
    assert_eq!(plan_pages(None, None), Ok(1));
    assert_eq!(plan_pages(Some(0), None), Ok(1));
    assert_eq!(plan_pages(Some(200), Some("a.png")), Ok(200));
    assert_eq!(plan_pages(Some(201), None), Err(PlanError::TooManyPages(201)));
    assert_eq!(plan_pages(Some(2), Some("a.svg")), Err(PlanError::Svg));
}

#[test]
fn salts_are_remembered_by_their_script() {
    let c = Some(CachedAlgorithm { bundle_url: "b".to_string(), random_token: "t".to_string() });
    assert_eq!(cached_salt(&c, &vec!["a".to_string(), "b".to_string()]).as_deref(), Some("t"));
    assert_eq!(cached_salt(&c, &vec!["a".to_string()]), None);
    assert_eq!(cached_salt(&None, &vec!["b".to_string()]), None);
}

#[test]
fn the_accepted_salt_stays() {
    let mut b = SaltBook::new(Some("mine".to_string()));
    assert_eq!(b.candidate(0), Some("mine"));
    assert_eq!(b.candidate(1), Some(FALLBACK_SALT));
    assert_eq!(b.candidate(2), None);
    b.accepted(1);
    assert_eq!(b.candidate(0), Some(FALLBACK_SALT));
    assert_eq!(b.candidate(1), None);
    assert_eq!(SaltBook::new(Some(FALLBACK_SALT.to_string())).candidate(1), None);
    assert_eq!(SaltBook::new(None).candidate(0), Some(FALLBACK_SALT));
}

#[test]
fn image_addresses() {
    let reply = |result: &str, url: Option<&str>| JmuseReply {
        result: result.to_string(),
        url: url.map(String::from),
    };
    assert_eq!(
        jmuse_request_url("12", "img", 3),
        "https://musescore.com/api/jmuse?id=12&index=3&type=img"
    );
    assert_eq!(jmuse_url(reply("success", Some("u"))).as_deref(), Ok("u"));
    assert_eq!(jmuse_url(reply("error", Some("u"))), Err(JmuseError::Refused));
    assert_eq!(jmuse_url(reply("success", None)), Err(JmuseError::MissingInfo));
    assert_eq!(jmuse_url(reply("success", Some(""))), Err(JmuseError::EmptyUrl));
}

fn page(scripts: Vec<&str>, pages: Option<usize>, first: Option<&str>) -> ScorePage {
    ScorePage {
        bundle_urls: scripts.into_iter().map(String::from).collect(),
        pages_count: pages,
        first_page_url: first.map(String::from),
    }
}

#[test]
fn a_whole_download() {
    let p = start(page(vec!["s1", "s2", "s3"], Some(3), Some("p0.png")), &None, 100);
    let Progress::Salt(p) = p else { panic!() };
    assert_eq!(p.url(), "s1");
    let (found, p) = p.script(None, 100);
    assert!(found.is_none());
    let Progress::Salt(p) = p else { panic!() };
    assert_eq!(p.url(), "s2");
    let (found, p) = p.script(Some(r#"f("salt").substr(0,4)"#), 100);
    let found = found.expect("the salt");
    assert_eq!((found.bundle_url.as_str(), found.random_token.as_str()), ("s2", "salt"));
    let Progress::Pages(p) = p else { panic!() };
    let r = p.request("77");
    assert_eq!((r.index, r.token), (1, mint_token("salt", "77", "img", 1)));
    assert_eq!(r.url, "https://musescore.com/api/jmuse?id=77&index=1&type=img");
    let Progress::Pages(p) = p.answer(Err("no".to_string()), 100) else { panic!() };
    assert_eq!(p.request("77").token, mint_token(FALLBACK_SALT, "77", "img", 1));
    let Progress::Pages(p) = p.answer(Ok("p1.png".to_string()), 100) else { panic!() };
    let r = p.request("77");
    assert_eq!((r.index, r.token), (2, mint_token(FALLBACK_SALT, "77", "img", 2)));
    let Progress::Images(p) = p.answer(Ok("p2.png".to_string()), 100) else { panic!() };
    assert_eq!(p.chunk(), vec!["p0.png", "p1.png", "p2.png"]);
    match p.arrived(vec![vec![0], vec![1, 1], vec![2]]) {
        Progress::Done(images) => assert_eq!(images, vec![vec![0], vec![1, 1], vec![2]]),
        _ => panic!(),
    }
}

#[test]
fn images_come_a_few_at_a_time() {
    let cached =
        Some(CachedAlgorithm { bundle_url: "s".to_string(), random_token: "t".to_string() });
    let mut p = start(page(vec!["s"], Some(5), None), &cached, 10);
    for i in 0..5 {
        let Progress::Pages(q) = p else { panic!() };
        assert_eq!(q.request("1").token, mint_token("t", "1", "img", i));
        p = q.answer(Ok(format!("{i}.png")), 10);
    }
    let Progress::Images(q) = p else { panic!() };
    assert_eq!(q.chunk(), vec!["0.png", "1.png", "2.png", "3.png"]);
    let Progress::Images(q) = q.arrived(vec![vec![0; 2]; 4]) else { panic!() };
    assert_eq!(q.chunk(), vec!["4.png"]);
    match q.arrived(vec![vec![0; 3]]) {
        Progress::Failed(DownloadError::TooLarge(e)) => assert_eq!(e, TooLarge::Streamed),
        _ => panic!(),
    }
}

#[test]
fn downloads_fail() {
    assert!(matches!(
        start(page(vec![], Some(500), None), &None, 1),
        Progress::Failed(DownloadError::Plan(PlanError::TooManyPages(500)))
    ));
    let Progress::Pages(p) = start(page(vec![], Some(2), None), &None, 1) else { panic!() };
    match p.answer(Err("refused".to_string()), 1) {
        Progress::Failed(DownloadError::Refused { index, reason }) => {
            assert_eq!((index, reason.as_str()), (0, "refused"))
        }
        _ => panic!(),
    }
    let Progress::Pages(p) = start(page(vec![], Some(2), None), &None, 1) else { panic!() };
    assert!(matches!(
        p.answer(Ok("x.svg?v=1".to_string()), 1),
        Progress::Failed(DownloadError::Plan(PlanError::Svg))
    ));
    assert!(matches!(start(page(vec![], None, Some("a.png")), &None, 1), Progress::Images(_)));
}
