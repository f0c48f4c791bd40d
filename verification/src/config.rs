//! Configuration from the environment.

use crate::text;
use vstd::prelude::*;

verus! {

pub const DEFAULT_PORT: u16 = 8686;

pub const DEFAULT_DB_PATH: &'static str = "sheet-music-browsarr.db";

pub const DEFAULT_LIBRARY_PATH: &'static str = "./library";

/// The environment, as far as it is read: each variable, where it is set.
#[derive(Debug)]
pub struct Env {
    /// `BROWSARR_PORT`
    pub port: Option<String>,
    /// `BROWSARR_DB_PATH`
    pub db_path: Option<String>,
    /// `BROWSARR_LIBRARY_PATH`
    pub library_path: Option<String>,
    /// `BROWSARR_SECRET_KEY`
    pub secret_key: Option<String>,
    /// `BROWSARR_ADMIN_PASSWORD`
    pub admin_password: Option<String>,
    /// `BROWSARR_SECURE_COOKIES`
    pub secure_cookies: Option<String>,
    /// `BROWSARR_PERSISTENT_SEARCH_CACHE`
    pub persistent_search_cache: Option<String>,
}

/// The configuration.
#[derive(Debug)]
pub struct Config {
    pub port: u16,
    pub db_path: String,
    pub library_path: String,
    pub secret_key: String,
    pub admin_password_init: Option<String>,
    pub secure_cookies: bool,
    /// Whether search results are also kept in the database.
    pub persistent_search_cache: bool,
}

/// Why there is no configuration.
#[derive(Debug, Clone, Copy, PartialEq, Eq, Structural)]
pub enum ConfigError {
    /// `BROWSARR_SECRET_KEY` is not set.
    MissingSecretKey,
}

/// A switch is on: `1`, or `true` in any case.
pub open spec fn is_on(v: Option<Seq<char>>) -> bool {
    match v {
        Some(s) => s == "1"@ || text::ascii_lowered(s) == "true"@,
        None => false,
    }
}

/// A port: the default where none is set or it is no port.
pub open spec fn port_of(v: Option<Seq<char>>) -> nat {
    match v {
        Some(s) => match text::number::parsed_unsigned(s, u16::MAX as nat) {
            Some(n) => n,
            None => DEFAULT_PORT as nat,
        },
        None => DEFAULT_PORT as nat,
    }
}

fn switch(v: &Option<String>) -> (b: bool)
    ensures
        b == is_on(text::view_opt(*v)),
{
    match v {
        Some(s) => text::same(s.as_str(), "1") || text::same(
            text::ascii_lowercase(s.as_str()).as_str(),
            "true",
        ),
        None => false,
    }
}

impl Config {
    /// The configuration that the environment asks for. Only the secret key
    /// must be set; an empty password is none.
    pub fn from_env(env: Env) -> (r: Result<Self, ConfigError>)
        ensures
            r is Err <==> env.secret_key is None,
            r matches Ok(c) ==> {
                &&& c.port == port_of(text::view_opt(env.port))
                &&& c.db_path@ == (match env.db_path {
                    Some(p) => p@,
                    None => DEFAULT_DB_PATH@,
                })
                &&& c.library_path@ == (match env.library_path {
                    Some(p) => p@,
                    None => DEFAULT_LIBRARY_PATH@,
                })
                &&& Some(c.secret_key@) == text::view_opt(env.secret_key)
                &&& text::view_opt(c.admin_password_init) == (match env.admin_password {
                    Some(p) => if p@.len() > 0 {
                        Some(p@)
                    } else {
                        None
                    },
                    None => None,
                })
                &&& c.secure_cookies == is_on(text::view_opt(env.secure_cookies))
                &&& c.persistent_search_cache == is_on(text::view_opt(env.persistent_search_cache))
            },
    {
        let port: u16 = match &env.port {
            Some(s) => match text::number::parse_unsigned(s.as_str(), u16::MAX as u64) {
                Some(n) => n as u16,
                None => DEFAULT_PORT,
            },
            None => DEFAULT_PORT,
        };
        let secure_cookies = switch(&env.secure_cookies);
        let persistent_search_cache = switch(&env.persistent_search_cache);
        let db_path = match env.db_path {
            Some(p) => p,
            None => text::owned(DEFAULT_DB_PATH),
        };
        let library_path = match env.library_path {
            Some(p) => p,
            None => text::owned(DEFAULT_LIBRARY_PATH),
        };
        let secret_key = match env.secret_key {
            Some(k) => k,
            None => {
                return Err(ConfigError::MissingSecretKey);
            },
        };
        let admin_password_init = match env.admin_password {
            Some(p) => if text::is_empty(p.as_str()) {
                None
            } else {
                Some(p)
            },
            None => None,
        };
        Ok(
            Config {
                port,
                db_path,
                library_path,
                secret_key,
                admin_password_init,
                secure_cookies,
                persistent_search_cache,
            },
        )
    }
}

/// A switch is on exactly where it is set to one, or to true in any case.
pub proof fn switches_are_on_where_set_so(v: Seq<char>)
    ensures
        is_on(Some("1"@)),
        text::ascii_lowered(v) == "true"@ ==> is_on(Some(v)),
        is_on(Some(v)) ==> v.len() == 1 || v.len() == 4,
        is_on(Some(v)) && v.len() == 1 ==> v[0] == '1',
        is_on(Some(v)) && v.len() == 4 ==> (v[0] == 't' || v[0] == 'T') && (v[3] == 'e' || v[3]
            == 'E'),
        !is_on(None),
{
    reveal_strlit("1");
    reveal_strlit("true");
    text::lowering_changes_capitals_alone(v, v);
    if text::ascii_lowered(v) == "true"@ {
        assert(text::ascii_lowered(v)[0] == 't');
        assert(text::ascii_lowered(v)[3] == 'e');
    }
}

/// The port is the one that is set, wherever it is a port at all.
pub proof fn ports_are_those_that_are_set(n: u16, v: Seq<char>)
    ensures
        port_of(Some(text::number::decimal(n as nat))) == n,
        port_of(None) == 8686,
        text::number::parsed_unsigned(v, 65535) is None ==> port_of(Some(v)) == 8686,
        port_of(Some(text::number::decimal(65536))) == 8686,
{
    text::number::decimal_round_trip(n as nat, 65535);
    text::number::numbers_are_digits_within_a_bound(v, 65536, 65535);
}

} // verus!
