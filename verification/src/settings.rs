//! Settings: their keys, and the form in which each is stored.

use crate::secrets;
use crate::secrets::{OpenError, SealError, Secrets};
use crate::text;
use vstd::prelude::*;
use vstd::utf8;

verus! {

pub const SMTP_HOST: &'static str = "smtp_host";

pub const SMTP_PORT: &'static str = "smtp_port";

pub const SMTP_USER: &'static str = "smtp_user";

pub const SMTP_PASS: &'static str = "smtp_pass";

pub const SMTP_FROM: &'static str = "smtp_from";

pub const TURNSTILE_SITE_KEY: &'static str = "turnstile_site_key";

pub const TURNSTILE_SECRET_KEY: &'static str = "turnstile_secret_key";

/// The settings that are stored encrypted.
pub const ENCRYPTED_KEYS: [&'static str; 2] = [SMTP_PASS, TURNSTILE_SECRET_KEY];

/// The setting is stored encrypted.
pub open spec fn is_secret(key: Seq<char>) -> bool {
    key == SMTP_PASS@ || key == TURNSTILE_SECRET_KEY@
}

/// Whether the setting is stored encrypted.
pub fn is_encrypted(key: &str) -> (b: bool)
    ensures
        b == is_secret(key@),
{
    text::same(key, ENCRYPTED_KEYS[0]) || text::same(key, ENCRYPTED_KEYS[1])
}

/// A setting as it is stored.
#[derive(Debug)]
pub struct Stored {
    pub value: String,
    pub encrypted: bool,
}

/// `s` is a stored form of the setting `name` with this value: a secret is
/// sealed under the key, but an empty one is cleared instead; any other
/// setting is stored as it is.
pub open spec fn is_stored(s: Stored, key: Seq<u8>, name: Seq<char>, value: Seq<char>) -> bool {
    &&& s.encrypted == is_secret(name)
    &&& if !is_secret(name) || value.len() == 0 {
        s.value@ == value
    } else {
        secrets::stores(key, s.value@, value) && s.value@.len() > 0
    }
}

/// The stored form of a setting. A secret is sealed, but an empty one is
/// cleared instead; any other setting is stored as it is.
pub fn set(secrets: &Secrets, key: &str, value: &str) -> (r: Result<Stored, SealError>)
    requires
        secrets.wf(),
    ensures
        match r {
            Ok(s) => is_stored(s, secrets.key(), key@, value@),
            Err(SealError::TooLong) => is_secret(key@) && utf8::encode_utf8(value@).len()
                > secrets::MAX_PLAINTEXT,
        },
{
    let encrypted = is_encrypted(key);
    let value = if encrypted {
        if text::is_empty(value) {
            let cleared = String::new();
            assert(cleared@ =~= value@);
            cleared
        } else {
            match secrets.encrypt(value) {
                Ok(s) => s,
                Err(e) => {
                    return Err(e);
                },
            }
        }
    } else {
        text::owned(value)
    };
    Ok(Stored { value, encrypted })
}

/// What a stored setting gives as a secret under the key: nothing where there
/// is no setting or it was cleared, and else what it opens to.
pub open spec fn is_read(
    r: Result<Option<String>, OpenError>,
    key: Seq<u8>,
    stored: Option<Seq<char>>,
) -> bool {
    match stored {
        None => r == Ok::<Option<String>, OpenError>(None),
        Some(s) => if s.len() == 0 {
            r == Ok::<Option<String>, OpenError>(None)
        } else {
            match r {
                Ok(Some(v)) => secrets::opened(Ok(v), key, s),
                Ok(None) => false,
                Err(e) => secrets::opened(Err(e), key, s),
            }
        },
    }
}

/// The secret in a stored setting; none where there is no setting or it was
/// cleared. What [`set`] stored for a secret is given back.
pub fn get_secret(secrets: &Secrets, stored: Option<&str>) -> (r: Result<Option<String>, OpenError>)
    requires
        secrets.wf(),
    ensures
        is_read(r, secrets.key(), text::view_str(stored)),
{
    match stored {
        None => Ok(None),
        Some(s) => if text::is_empty(s) {
            Ok(None)
        } else {
            match secrets.decrypt(s) {
                Ok(v) => Ok(Some(v)),
                Err(e) => Err(e),
            }
        },
    }
}

/// A secret that was set is read back as it was; one that was set to nothing
/// is none.
pub proof fn set_secrets_are_read(
    s: Stored,
    key: Seq<u8>,
    name: Seq<char>,
    value: Seq<char>,
    r: Result<Option<String>, OpenError>,
)
    requires
        is_secret(name),
        is_stored(s, key, name, value),
        is_read(r, key, Some(s.value@)),
    ensures
        r is Ok,
        text::view_opt(r->Ok_0) == (if value.len() == 0 {
            None
        } else {
            Some(value)
        }),
{
}

/// The password and the secret key are secrets, and no other setting is; what
/// is no secret is stored as it is.
pub proof fn two_settings_are_secret(
    name: Seq<char>,
    s: Stored,
    key: Seq<u8>,
    value: Seq<char>,
)
    ensures
        is_secret("smtp_pass"@),
        is_secret("turnstile_secret_key"@),
        name != "smtp_pass"@ && name != "turnstile_secret_key"@ ==> !is_secret(name),
        !is_secret(name) && is_stored(s, key, name, value) ==> s.value@ == value && !s.encrypted,
        is_secret(name) && is_stored(s, key, name, value) ==> s.encrypted,
        is_secret(name) && value.len() > 0 && is_stored(s, key, name, value) ==> secrets::stores(
            key,
            s.value@,
            value,
        ),
{
}

} // verus!
