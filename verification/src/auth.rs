//! The administrator's password.

use crate::text;
use argon2::password_hash::{PasswordHasher, PasswordVerifier};
use vstd::prelude::*;
use vstd::utf8;

verus! {

/// Why a password cannot be checked or kept.
#[derive(Debug, Clone, Copy, PartialEq, Eq, Structural)]
pub enum AuthError {
    /// There is no administrator yet, and no password to start with.
    MissingPassword,
    /// The password cannot be hashed.
    Hash,
    /// What is stored is no password hash.
    BadHash,
}

/// The most bytes that a password may have.
pub const MAX_PASSWORD: u64 = 0xFFFF_FFFF;

/// The number of characters of a generated salt.
pub const SALT_LEN: usize = 22;

/// A character of base64.
pub open spec fn is_base64_char(c: char) -> bool {
    ||| 'A' <= c <= 'Z'
    ||| 'a' <= c <= 'z'
    ||| '0' <= c <= '9'
    ||| c == '+'
    ||| c == '/'
}

/// A salt of the form that generating one gives: the base64 form, without
/// padding, of sixteen bytes, whose last character holds two bits only.
pub open spec fn is_salt(s: Seq<char>) -> bool {
    &&& s.len() == SALT_LEN
    &&& forall|i: int| 0 <= i < s.len() ==> is_base64_char(#[trigger] s[i])
    &&& s.last() == 'A' || s.last() == 'Q' || s.last() == 'g' || s.last() == 'w'
}

/// The hash of a password under a salt, in the form in which it is stored.
pub uninterp spec fn phc(password: Seq<u8>, salt: Seq<char>) -> Option<Seq<char>>;

/// Whether a password has this hash; `None` where it is no hash.
pub uninterp spec fn has_hash(hash: Seq<char>, password: Seq<u8>) -> Option<bool>;

/// `argon2`'s `SaltString::generate` with the system's random numbers: the
/// base64 form of sixteen bytes, which differ from call to call.
#[verifier::external_body]
fn random_salt() -> (salt: String)
    ensures
        is_salt(salt@),
{
    let mut rng = argon2::password_hash::rand_core::OsRng;
    argon2::password_hash::SaltString::generate(&mut rng).to_string()
}

/// `SaltString::from_b64`, then `hash_password` of `argon2::Argon2` with its
/// default parameters. The result depends on password and salt alone, and the
/// password has the hash that it is given. Under a salt of the generated form
/// every password of at most [`MAX_PASSWORD`] bytes has a hash; a longer one
/// has none under any salt.
#[verifier::external_body]
fn argon2_hash(password: &[u8], salt: &str) -> (r: Option<String>)
    ensures
        text::view_opt(r) == phc(password@, salt@),
        r matches Some(h) ==> has_hash(h@, password@) == Some(true),
        is_salt(salt@) && password@.len() <= MAX_PASSWORD ==> r is Some,
        password@.len() > MAX_PASSWORD ==> r is None,
{
    let salt = argon2::password_hash::SaltString::from_b64(salt).ok()?;
    argon2::Argon2::default().hash_password(password, &salt).ok().map(|h| h.to_string())
}

/// `PasswordHash::new`, then `verify_password` of `argon2::Argon2`. The result
/// depends on hash and password alone.
#[verifier::external_body]
fn argon2_verify(hash: &str, password: &[u8]) -> (r: Option<bool>)
    ensures
        r == has_hash(hash@, password@),
{
    let parsed = argon2::password_hash::PasswordHash::new(hash).ok()?;
    Some(argon2::Argon2::default().verify_password(password, &parsed).is_ok())
}

/// The hash of a password under a given salt.
pub fn hash_with_salt(pwd: &str, salt: &str) -> (r: Result<String, AuthError>)
    ensures
        match r {
            Ok(h) => {
                &&& phc(utf8::encode_utf8(pwd@), salt@) == Some(h@)
                &&& has_hash(h@, utf8::encode_utf8(pwd@)) == Some(true)
            },
            Err(e) => e == AuthError::Hash && phc(utf8::encode_utf8(pwd@), salt@) is None,
        },
        is_salt(salt@) ==> (r is Ok <==> utf8::encode_utf8(pwd@).len() <= MAX_PASSWORD),
{
    match argon2_hash(pwd.as_bytes(), salt) {
        Some(h) => Ok(h),
        None => Err(AuthError::Hash),
    }
}

/// `hash` is the hash of a password under some salt of the generated form,
/// and the password has it.
pub open spec fn is_hash_of(hash: Seq<char>, password: Seq<char>) -> bool {
    let bytes = utf8::encode_utf8(password);
    &&& bytes.len() <= MAX_PASSWORD
    &&& has_hash(hash, bytes) == Some(true)
    &&& exists|salt: Seq<char>| is_salt(salt) && #[trigger] phc(bytes, salt) == Some(hash)
}

/// The hash of a password under a fresh salt. Only a password of more than
/// [`MAX_PASSWORD`] bytes has none.
pub fn hash_password(pwd: &str) -> (r: Result<String, AuthError>)
    ensures
        match r {
            Ok(h) => is_hash_of(h@, pwd@),
            Err(e) => e == AuthError::Hash && utf8::encode_utf8(pwd@).len() > MAX_PASSWORD,
        },
{
    let salt = random_salt();
    hash_with_salt(pwd, salt.as_str())
}

/// The hash to store for a new administrator; none where there is one
/// already. Without one, a password to start with is needed.
pub fn ensure_admin_user(exists_already: bool, init_password: Option<&str>) -> (r: Result<
    Option<String>,
    AuthError,
>)
    ensures
        exists_already ==> r == Ok::<Option<String>, AuthError>(None),
        !exists_already && init_password is None ==> r == Err::<Option<String>, AuthError>(
            AuthError::MissingPassword,
        ),
        !exists_already && init_password is Some ==> match r {
            Ok(h) => h is Some && is_hash_of(h->0@, init_password->0@),
            Err(e) => e == AuthError::Hash && utf8::encode_utf8(init_password->0@).len()
                > MAX_PASSWORD,
        },
{
    if exists_already {
        return Ok(None);
    }
    match init_password {
        Some(pwd) => match hash_password(pwd) {
            Ok(h) => Ok(Some(h)),
            Err(e) => Err(e),
        },
        None => Err(AuthError::MissingPassword),
    }
}

/// Whether a password is that of the administrator, whose hash is stored.
/// Without an administrator no password is.
pub fn verify_admin(hash: Option<&str>, pwd: &str) -> (r: Result<bool, AuthError>)
    ensures
        r == (match hash {
            None => Ok(false),
            Some(h) => match has_hash(h@, utf8::encode_utf8(pwd@)) {
                Some(b) => Ok(b),
                None => Err(AuthError::BadHash),
            },
        }),
{
    match hash {
        None => Ok(false),
        Some(h) => match argon2_verify(h, pwd.as_bytes()) {
            Some(b) => Ok(b),
            None => Err(AuthError::BadHash),
        },
    }
}

/// Where a login leads.
#[derive(Debug, Clone, Copy, PartialEq, Eq, Structural)]
pub enum Login {
    /// The session becomes one of the administrator.
    Admitted,
    /// The password is wrong.
    WrongPassword,
    /// The password could not be checked.
    Failed,
}

/// Where a login leads, given what checking the password gave.
pub fn login(verified: Result<bool, AuthError>) -> (l: Login)
    ensures
        l == (match verified {
            Ok(true) => Login::Admitted,
            Ok(false) => Login::WrongPassword,
            Err(_) => Login::Failed,
        }),
{
    match verified {
        Ok(true) => Login::Admitted,
        Ok(false) => Login::WrongPassword,
        Err(_) => Login::Failed,
    }
}

/// Whether a session may see the administrator's pages: only one that was
/// admitted.
pub fn require_admin(signed_in: Option<bool>) -> (b: bool)
    ensures
        b == (signed_in == Some(true)),
{
    match signed_in {
        Some(b) => b,
        None => false,
    }
}

} // verus!
