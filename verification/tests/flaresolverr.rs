use sheet_music_browsarr::sources::flaresolverr::{
    cookie_string, is_missing_session_message, remember_ua, FlareSolverr, FsCookie, FsEnvelope,
    FsError, FsSolution,
};

fn env(status: &str, message: Option<&str>, solved: bool) -> FsEnvelope {
    FsEnvelope {
        status: status.to_string(),
        message: message.map(String::from),
        solution: if solved {
            Some(FsSolution {
                url: "u".to_string(),
                status: 200,
                response: "page".to_string(),
                user_agent: "ua".to_string(),
                cookies: Vec::new(),
            })
        } else {
            None
        },
    }
}

#[test]
fn calls() {
    let fs = FlareSolverr::new("http://fs:8191//".to_string());
    assert_eq!(fs.endpoint(), "http://fs:8191/v1");
    let c = fs.create_request("s");
    assert_eq!((c.cmd.as_str(), c.session.as_str()), ("sessions.create", "s"));
    assert_eq!(fs.destroy_request("s").cmd, "sessions.destroy");
    let g = fs.get_request("u", Some("s"));
    assert_eq!((g.cmd.as_str(), g.url.as_str(), g.max_timeout), ("request.get", "u", 45_000));
    assert_eq!(g.session.as_deref(), Some("s"));
}

#[test]
fn missing_sessions() {
    assert!(is_missing_session_message("This session does not exist."));
    assert!(is_missing_session_message("SESSION NOT FOUND"));
    assert!(is_missing_session_message("The session doesn't exist"));
    assert!(is_missing_session_message("no such session"));
    assert!(!is_missing_session_message("page not found"));
    assert!(!is_missing_session_message("session busy"));
}

#[test]
fn answers() {
    let fs = FlareSolverr::new("u".to_string());
    assert_eq!(fs.get(env("ok", None, true), None).unwrap().response, "page");
    let e = fs.get(env("ok", None, false), None).unwrap_err();
    assert_eq!(e.message(), "flaresolverr returned no solution");
    let e = fs.get(env("error", Some("session not found"), false), Some("s")).unwrap_err();
    assert_eq!(e.message(), "flaresolverr session missing: s");
    let e = fs.get(env("error", Some("session not found"), false), None).unwrap_err();
    assert!(matches!(e, FsError::Status { .. }));
    assert_eq!(
        e.message(),
        "flaresolverr returned status=error message=Some(\"session not found\")"
    );
    assert_eq!(FsError::Other("x".to_string()).message(), "x");
}

#[test]
fn session_answers() {
    let fs = FlareSolverr::new("u".to_string());
    assert_eq!(fs.create_session(&env("ok", None, false)), Ok(()));
    assert_eq!(
        fs.create_session(&env("error", None, false)),
        Err("flaresolverr sessions.create status=error message=None".to_string())
    );
    assert_eq!(fs.destroy_session(&env("ok", None, false)), Ok(()));
    assert_eq!(fs.destroy_session(&env("error", Some("session not found"), false)), Ok(()));
    assert!(fs.destroy_session(&env("error", Some("busy"), false)).is_err());
}

#[test]
fn cookies() {
    let mut c = FsCookie {
        name: "cf_clearance".to_string(),
        value: "v".to_string(),
        domain: ".musescore.com".to_string(),
        path: String::new(),
        secure: true,
    };
    assert_eq!(cookie_string(&c), "cf_clearance=v; Domain=musescore.com; Path=/; Secure");
    c.path = "/x".to_string();
    c.secure = false;
    assert_eq!(cookie_string(&c), "cf_clearance=v; Domain=musescore.com; Path=/x");
}

#[test]
fn user_agents_are_kept() {
    let mut kept = None;
    remember_ua(&mut kept, "");
    assert_eq!(kept, None);
    remember_ua(&mut kept, "a");
    remember_ua(&mut kept, "");
    assert_eq!(kept.as_deref(), Some("a"));
}
