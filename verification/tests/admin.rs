use sheet_music_browsarr::audit::{client_ip, user_agent};
use sheet_music_browsarr::auth::{
    ensure_admin_user, hash_password, hash_with_salt, login, require_admin, verify_admin,
    AuthError, Login,
};
use sheet_music_browsarr::clock::{timestamp, timestamp_at};
use sheet_music_browsarr::config::{Config, ConfigError, Env};
use sheet_music_browsarr::email::{address, addresses, MailError, Mailbox, SmtpConfig};
use sheet_music_browsarr::rate_limit::{
    check_and_increment, day_at, today_utc, EMAIL_PER_RECIPIENT_PER_DAY,
};
use sheet_music_browsarr::routes::admin::{
    check_add, health_row, library_add, render_settings, resolve_since, resolve_since_at,
    sanitize_filename, search_log_row, settings_post, top_query_row, truncate_query, AddAction,
    AddEvent, AddForm, AddRequest, AddState, SearchMeta, SettingsForm, StoredSettings,
};
use sheet_music_browsarr::secrets::{KeyError, OpenError, Secrets};
use sheet_music_browsarr::settings;
use sheet_music_browsarr::settings::{get_secret, is_encrypted, SMTP_HOST, SMTP_PASS};
use sheet_music_browsarr::sources::health::SourceHealth;
use sheet_music_browsarr::turnstile::{verify, verify_form};

const KEY: &str = "a passphrase of some length";

#[test]
fn secrets_round_trip() {
    let s = Secrets::new(KEY).unwrap();
    for text in ["", "x", "pässwörd 😀"] {
        let sealed = s.encrypt(text).unwrap();
        assert_ne!(sealed, text);
        assert_eq!(s.decrypt(&sealed).as_deref(), Ok(text));
        assert_ne!(s.encrypt(text).unwrap(), sealed, "a fresh nonce each time");
    }
}

#[test]
fn secrets_are_refused_for_a_reason() {
    let s = Secrets::new(KEY).unwrap();
    assert!(matches!(Secrets::new("too short"), Err(KeyError::TooShort)));
    assert!(Secrets::new("sixteen bytes ok").is_ok());
    assert_eq!(s.decrypt("???"), Err(OpenError::Base64));
    assert_eq!(s.decrypt(""), Err(OpenError::TooShort));
    assert_eq!(s.decrypt("AAAAAAAAAAAAAAAA"), Err(OpenError::TooShort));
    let other = Secrets::new("another passphrase of length").unwrap();
    assert_eq!(other.decrypt(&s.encrypt("x").unwrap()), Err(OpenError::Cipher));
}

#[test]
fn one_passphrase_opens_what_it_sealed() {
    let sealed = Secrets::new(KEY).unwrap().encrypt("hunter2").unwrap();
    let again = Secrets::new(KEY).unwrap();
    assert_eq!(again.decrypt(&sealed).as_deref(), Ok("hunter2"));
    assert_eq!(again.decrypt("not base64!"), Err(OpenError::Base64));
    // Twelve bytes, and thirteen.
    assert_eq!(again.decrypt("AAAAAAAAAAAAAAAA"), Err(OpenError::TooShort));
    assert_eq!(again.decrypt("AAAAAAAAAAAAAAAAAA=="), Err(OpenError::Cipher));
}

#[test]
fn sealing_depends_on_the_nonce_alone() {
    let s = Secrets::new(KEY).unwrap();
    let a = s.encrypt_with_nonce(&[7; 12], "x").unwrap();
    assert_eq!(a, s.encrypt_with_nonce(&[7; 12], "x").unwrap());
    assert!(a.starts_with("BwcHBwcHBwcHBwcH"));
    // A nonce, one byte, and the tag: 29 bytes are 40 characters.
    assert_eq!(a.len(), 40);
}

#[test]
fn secret_settings_are_sealed() {
    let s = Secrets::new(KEY).unwrap();
    let plain = settings::set(&s, SMTP_HOST, "mail").unwrap();
    assert_eq!((plain.value.as_str(), plain.encrypted), ("mail", false));
    let sealed = settings::set(&s, SMTP_PASS, "hunter2").unwrap();
    assert!(sealed.encrypted && sealed.value != "hunter2");
    assert_eq!(get_secret(&s, Some(&sealed.value)), Ok(Some("hunter2".to_string())));
    let cleared = settings::set(&s, SMTP_PASS, "").unwrap();
    assert_eq!((cleared.value.as_str(), cleared.encrypted), ("", true));
    assert_eq!(get_secret(&s, Some("")), Ok(None));
    assert_eq!(get_secret(&s, None), Ok(None));
    assert_eq!(get_secret(&s, Some("?")), Err(OpenError::Base64));
    assert!(is_encrypted("turnstile_secret_key"));
    assert!(!is_encrypted("smtp_from"));
}

#[test]
fn passwords() {
    let h = hash_password("correct horse").unwrap();
    assert!(h.starts_with("$argon2id$"));
    assert_eq!(verify_admin(Some(&h), "correct horse"), Ok(true));
    assert_eq!(verify_admin(Some(&h), "wrong horse"), Ok(false));
    assert_eq!(verify_admin(None, "x"), Ok(false));
    assert_eq!(verify_admin(Some("no hash"), "x"), Err(AuthError::BadHash));
    assert_ne!(hash_password("correct horse").unwrap(), h);
    let salt = h.split('$').nth(4).unwrap();
    assert_eq!(salt.len(), 22);
    assert!(salt.chars().all(|c| c.is_ascii_alphanumeric() || c == '+' || c == '/'));
    assert!(matches!(salt.chars().last(), Some('A' | 'Q' | 'g' | 'w')));
    assert_eq!(hash_with_salt("correct horse", salt), Ok(h.clone()));
    assert!(hash_password("").is_ok());
}

#[test]
fn salted_hashes() {
    let a = hash_with_salt("p", "c29tZXNhbHRzb21l").unwrap();
    assert_eq!(a, hash_with_salt("p", "c29tZXNhbHRzb21l").unwrap());
    assert!(a.contains("$c29tZXNhbHRzb21l$"));
    assert_eq!(hash_with_salt("p", "*"), Err(AuthError::Hash));
}

#[test]
fn the_administrator() {
    assert_eq!(ensure_admin_user(true, None), Ok(None));
    assert_eq!(ensure_admin_user(false, None), Err(AuthError::MissingPassword));
    let h = ensure_admin_user(false, Some("p")).unwrap().unwrap();
    assert_eq!(verify_admin(Some(&h), "p"), Ok(true));
    assert_eq!(login(Ok(true)), Login::Admitted);
    assert_eq!(login(Ok(false)), Login::WrongPassword);
    assert_eq!(login(Err(AuthError::BadHash)), Login::Failed);
    assert!(require_admin(Some(true)));
    assert!(!require_admin(Some(false)));
    assert!(!require_admin(None));
}

#[test]
fn clients() {
    assert_eq!(client_ip(Some(" 1.2.3.4 "), Some("5.6.7.8")), "1.2.3.4");
    assert_eq!(client_ip(None, Some(" 5.6.7.8 , 9.9.9.9")), "5.6.7.8");
    assert_eq!(client_ip(None, None), "unknown");
    assert_eq!(user_agent(Some("curl")).as_deref(), Some("curl"));
    assert_eq!(user_agent(None), None);
}

fn env() -> Env {
    Env {
        port: None,
        db_path: None,
        library_path: None,
        secret_key: Some("k".to_string()),
        admin_password: None,
        secure_cookies: None,
        persistent_search_cache: None,
    }
}

#[test]
fn configuration() {
    let c = Config::from_env(env()).unwrap();
    assert_eq!((c.port, c.db_path.as_str(), c.library_path.as_str()), (8686, "sheet-music-browsarr.db", "./library"));
    assert!(!c.secure_cookies && !c.persistent_search_cache);
    let mut e = env();
    e.port = Some("80".to_string());
    e.secure_cookies = Some("TRUE".to_string());
    e.persistent_search_cache = Some("1".to_string());
    e.admin_password = Some(String::new());
    let c = Config::from_env(e).unwrap();
    assert_eq!(c.port, 80);
    assert!(c.secure_cookies && c.persistent_search_cache);
    assert_eq!(c.admin_password_init, None);
    let mut e = env();
    e.port = Some("65536".to_string());
    assert_eq!(Config::from_env(e).unwrap().port, 8686);
    let mut e = env();
    e.secret_key = None;
    assert_eq!(Config::from_env(e).unwrap_err(), ConfigError::MissingSecretKey);
}

#[test]
fn quotas() {
    let mut count = None;
    let mut allowed = 0;
    for _ in 0..20 {
        if let Some(n) = check_and_increment(count, EMAIL_PER_RECIPIENT_PER_DAY) {
            count = Some(n);
            allowed += 1;
        }
    }
    assert_eq!(allowed, 5);
    assert_eq!(check_and_increment(None, 0), None);
    assert_eq!(check_and_increment(Some(2), 3), Some(3));
    assert_eq!(check_and_increment(Some(3), 3), None);
}

const T: i128 = 1_779_883_200_000_000_000; // 2026-05-27T12:00:00Z

#[test]
fn days() {
    assert_eq!(day_at(T).as_deref(), Some("2026-05-27"));
    assert_eq!(day_at(T - 43_200_000_000_001).as_deref(), Some("2026-05-26"));
    assert_eq!(today_utc().unwrap().len(), 10);
    assert_eq!(timestamp().unwrap().chars().last(), Some('Z'));
    assert_eq!(day_at(-62_167_219_200_000_000_001), None);
    assert_eq!(day_at(253_402_300_800_000_000_000), None);
}

#[test]
fn instants_are_stamped() {
    assert_eq!(timestamp_at(T).as_deref(), Some("2026-05-27T12:00:00Z"));
    assert_eq!(timestamp_at(T + 1).as_deref(), Some("2026-05-27T12:00:00.000000001Z"));
    assert_eq!(timestamp_at(-62_167_219_200_000_000_000).as_deref(), Some("0000-01-01T00:00:00Z"));
    assert_eq!(timestamp_at(-62_167_219_200_000_000_001), None);
    assert_eq!(timestamp_at(253_402_300_800_000_000_000), None);
}

fn smtp(from: &str) -> SmtpConfig {
    SmtpConfig {
        host: "mail.example.org".to_string(),
        port: 587,
        user: "u".to_string(),
        pass: "p".to_string(),
        from: from.to_string(),
    }
}

#[test]
fn mail_is_addressed() {
    let (from, to) =
        addresses(&smtp("Sheet Music <music@example.org>"), "ada@example.org").unwrap();
    assert_eq!(from.name.as_deref(), Some("Sheet Music"));
    assert_eq!(from.email, "music@example.org");
    assert_eq!((to.name, to.email.as_str()), (None, "ada@example.org"));
}

#[test]
fn mail_needs_two_mailboxes() {
    let refused = |from: &str, to: &str| addresses(&smtp(from), to).unwrap_err();
    assert_eq!(refused("nobody", "ada@example.org"), MailError::From);
    assert_eq!(refused("nobody", "nobody"), MailError::From);
    assert_eq!(refused("music@example.org", "nobody"), MailError::Recipient);
    assert_eq!(refused("music@example.org", ""), MailError::Recipient);
    let someone = || Some(Mailbox { name: None, email: "a@b.c".to_string() });
    assert_eq!(address(None, someone()).unwrap_err(), MailError::From);
    assert_eq!(address(someone(), None).unwrap_err(), MailError::Recipient);
    assert_eq!(address(someone(), someone()).unwrap().1.email, "a@b.c");
}

#[test]
fn turnstile_answers() {
    assert!(verify(true, r#"{"success":true}"#));
    assert!(!verify(true, r#"{"success":false}"#));
    assert!(!verify(true, r#"{"success":"true"}"#));
    assert!(!verify(true, "{}"));
    assert!(!verify(true, "not json"));
    assert!(!verify(false, r#"{"success":true}"#));
    assert!(verify_form("", "t", None).is_none());
    assert!(verify_form("s", "", None).is_none());
    assert_eq!(verify_form("s", "t", None).unwrap().len(), 2);
    assert_eq!(
        verify_form("s", "t", Some("ip")).unwrap()[2],
        ("remoteip".to_string(), "ip".to_string())
    );
}

#[test]
fn file_names() {
    assert_eq!(sanitize_filename(" Für Elise/2: a-b_c.pdf? "), "F_r Elise_2_ a-b_c.pdf_");
    assert_eq!(sanitize_filename("../x"), ".._x");
    let once = sanitize_filename("  ä ");
    assert_eq!(sanitize_filename(&once), once);
}

fn form(source: &str, item: &str, title: &str) -> AddForm {
    AddForm { source: source.to_string(), item_id: item.to_string(), title: title.to_string() }
}

#[test]
fn additions_are_checked() {
    let known = vec!["imslp".to_string()];
    let r = check_add(&form(" imslp ", " 1 ", " T "), &known).unwrap();
    assert_eq!((r.source_id.as_str(), r.item_id.as_str(), r.title.as_str()), ("imslp", "1", "T"));
    assert_eq!(
        check_add(&form("imslp", " ", "T"), &known).unwrap_err(),
        "Missing source, item_id, or title"
    );
    assert_eq!(check_add(&form("x", "1", "T"), &known).unwrap_err(), "Unknown source: x");
}

#[test]
fn an_addition() {
    let req = AddRequest {
        source_id: "imslp".to_string(),
        item_id: "1".to_string(),
        title: "T/1".to_string(),
    };
    let (s, a) = library_add(&req, AddState::Fetching, AddEvent::Fetched(Ok(9)));
    assert!(matches!(a, AddAction::CreateFile(n) if n == "T_1.pdf"));
    let (s, a) = library_add(&req, s, AddEvent::Created(true));
    assert!(matches!(a, AddAction::WriteFile));
    let (s, a) = library_add(&req, s, AddEvent::Written(true));
    assert!(matches!(a, AddAction::InsertQueue(9)));
    let (s, a) = library_add(&req, s, AddEvent::Queued(true));
    assert!(matches!(a, AddAction::InsertLibrary(9)));
    let (s, a) = library_add(&req, s, AddEvent::Listed(true));
    assert_eq!(s, AddState::Over);
    match a {
        AddAction::Answer { note: Some(n), message } => {
            assert_eq!(message, "Added \"T/1\" (9 bytes)");
            assert_eq!((n.action.as_str(), n.target.as_str(), n.result.as_str()), ("library_add", "imslp/1", "ok"));
            assert_eq!(n.meta.as_deref(), Some("{\"size\":9}"));
        }
        other => panic!("{other:?}"),
    }
}

#[test]
fn additions_that_fail() {
    let req = AddRequest {
        source_id: "s".to_string(),
        item_id: "i".to_string(),
        title: "t".to_string(),
    };
    let message = |state, event| match library_add(&req, state, event) {
        (AddState::Over, AddAction::Answer { note, message }) => (note.map(|n| n.result), message),
        other => panic!("{other:?}"),
    };
    assert_eq!(
        message(AddState::Fetching, AddEvent::Fetched(Err("e".to_string()))),
        (Some("fetch_failed".to_string()), "Could not fetch PDF: e".to_string())
    );
    let size = 1;
    assert_eq!(message(AddState::Creating { size }, AddEvent::Created(false)).1, "Could not write file");
    assert_eq!(message(AddState::Writing { size }, AddEvent::Written(false)).1, "Write error");
    assert_eq!(message(AddState::Queueing { size }, AddEvent::Queued(false)).1, "DB error (queue)");
    assert_eq!(message(AddState::Listing { size }, AddEvent::Listed(false)).1, "DB error (library)");
    assert_eq!(message(AddState::Fetching, AddEvent::Created(true)).1, "Internal error");
}

#[test]
fn settings_are_written_trimmed_but_secrets_as_typed() {
    let mut f = SettingsForm {
        smtp_host: " h ".to_string(),
        smtp_port: "25".to_string(),
        smtp_user: "u".to_string(),
        smtp_pass: String::new(),
        smtp_from: "f".to_string(),
        turnstile_site_key: "k".to_string(),
        turnstile_secret_key: String::new(),
    };
    let w = settings_post(&f);
    assert_eq!(w.len(), 5);
    assert_eq!(w[0], ("smtp_host".to_string(), "h".to_string()));
    f.smtp_pass = " p ".to_string();
    f.turnstile_secret_key = "s".to_string();
    let w = settings_post(&f);
    assert_eq!(w[5], ("smtp_pass".to_string(), " p ".to_string()));
    assert_eq!(w[6], ("turnstile_secret_key".to_string(), "s".to_string()));
}

#[test]
fn stored_secrets_are_not_shown() {
    let page = render_settings(
        StoredSettings {
            smtp_host: Some("h".to_string()),
            smtp_port: None,
            smtp_user: None,
            smtp_from: None,
            smtp_pass: Some("sealed".to_string()),
            turnstile_site_key: None,
            turnstile_secret_key: Some(String::new()),
        },
        Some("Saved".to_string()),
    );
    assert_eq!((page.smtp_host.as_str(), page.smtp_port.as_str()), ("h", ""));
    assert!(page.smtp_pass_set && !page.turnstile_secret_set);
    assert_eq!(page.message.as_deref(), Some("Saved"));
}

#[test]
fn health_rows() {
    let mut h = SourceHealth::default();
    assert_eq!(health_row("x", h.duplicate()).status, "unknown");
    h.record_ok_at(T);
    let row = health_row("x", h.duplicate());
    assert_eq!((row.status, row.last_ok.as_deref()), ("healthy", Some("2026-05-27T12:00:00Z")));
    for _ in 0..4 {
        h.record_err_at("e", T + 500_000_000);
    }
    let row = health_row("x", h);
    assert_eq!((row.status, row.total_fail), ("degraded", 4));
    assert_eq!(row.last_error_at.as_deref(), Some("2026-05-27T12:00:00.5Z"));
}

#[test]
fn queries_are_cut() {
    assert_eq!(truncate_query("short"), ("short".to_string(), false));
    let (cut, was) = truncate_query(&"é".repeat(81));
    assert!(was);
    assert_eq!(cut, format!("{}…", "é".repeat(80)));
    assert!(!truncate_query(&"é".repeat(80)).1);
}

#[test]
fn windows() {
    assert_eq!(resolve_since_at(Some("24h"), T), ("24h", "2026-05-26T12:00:00Z".to_string()));
    assert_eq!(resolve_since_at(Some("30d"), T), ("30d", "2026-04-27T12:00:00Z".to_string()));
    assert_eq!(resolve_since_at(Some("x"), T), ("7d", "2026-05-20T12:00:00Z".to_string()));
    assert_eq!(resolve_since_at(None, -62_167_219_200_000_000_000), ("7d", String::new()));
    assert_eq!(resolve_since(None).0, "7d");
}

#[test]
fn log_rows() {
    let row = search_log_row(
        Some("bach".to_string()),
        Some(SearchMeta { results: Some(4), variants: None }),
        "ok".to_string(),
        "ip".to_string(),
        "ua".to_string(),
        "ts".to_string(),
    );
    assert_eq!((row.query.as_str(), row.results_count, row.variants_count), ("bach", Some(4), None));
    let row = search_log_row(None, None, String::new(), String::new(), String::new(), String::new());
    assert_eq!((row.query.as_str(), row.results_count), ("", None));
    let top = top_query_row(None, 3, 2);
    assert_eq!((top.query.as_str(), top.count, top.distinct_ips), ("", 3, 2));
}
