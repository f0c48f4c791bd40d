//! Secrets at rest.
//!
//! A secret is stored as the base64 form of a twelve-byte nonce followed by
//! the ciphertext with its tag. The key is derived from a passphrase that
//! stays in the environment.

use crate::codec;
use crate::text;
use aes_gcm::aead::Aead;
use aes_gcm::{AeadCore, KeyInit};
use vstd::prelude::*;
use vstd::utf8;

verus! {

/// The least number of bytes of a passphrase.
pub const MIN_PASSPHRASE: usize = 16;

pub const KEY_LEN: usize = 32;

pub const NONCE_LEN: usize = 12;

pub const TAG_LEN: usize = 16;

/// The most bytes that one secret may have: what one call encrypts.
pub const MAX_PLAINTEXT: u64 = 68_719_476_736;

/// What the key is derived for.
pub const KEY_INFO: &'static str = "sheet-music-browsarr/secret-encryption";

/// The key that HKDF-SHA256 derives, without a salt, from `input` for `info`.
pub uninterp spec fn hkdf_key(input: Seq<u8>, info: Seq<u8>) -> Seq<u8>;

/// `hkdf::Hkdf::<Sha256>::new` without a salt, then `Hkdf::expand` to
/// thirty-two bytes, which it never refuses. The key depends on the two
/// inputs alone.
#[verifier::external_body]
fn derive_key(input: &[u8], info: &[u8]) -> (key: Vec<u8>)
    ensures
        key@ == hkdf_key(input@, info@),
        key@.len() == KEY_LEN,
{
    let mut key = [0u8; 32];
    let hk = hkdf::Hkdf::<sha2::Sha256>::new(None, input);
    hk.expand(info, &mut key).expect("thirty-two bytes are within what HKDF gives");
    key.to_vec()
}

/// `aes_gcm::Aes256Gcm::generate_nonce` with the system's random numbers:
/// twelve bytes, which differ from call to call.
#[verifier::external_body]
fn random_nonce() -> (nonce: Vec<u8>)
    ensures
        nonce@.len() == NONCE_LEN,
{
    aes_gcm::Aes256Gcm::generate_nonce(&mut aes_gcm::aead::OsRng).to_vec()
}

/// The ciphertext and tag of AES-256-GCM.
pub uninterp spec fn sealed(key: Seq<u8>, nonce: Seq<u8>, plaintext: Seq<u8>) -> Seq<u8>;

/// `Aead::encrypt` of `aes_gcm::Aes256Gcm`, without associated data. It
/// refuses no plaintext within the limit. The result depends on key, nonce and
/// plaintext alone, and is a tag longer than the plaintext.
#[verifier::external_body]
fn seal(key: &[u8], nonce: &[u8], plaintext: &[u8]) -> (ct: Vec<u8>)
    requires
        key@.len() == KEY_LEN,
        nonce@.len() == NONCE_LEN,
        plaintext@.len() <= MAX_PLAINTEXT,
    ensures
        ct@ == sealed(key@, nonce@, plaintext@),
        ct@.len() == plaintext@.len() + TAG_LEN,
{
    let cipher = aes_gcm::Aes256Gcm::new_from_slice(key).expect("the key has thirty-two bytes");
    let nonce = aes_gcm::Nonce::from_slice(nonce);
    cipher.encrypt(nonce, plaintext).expect("the plaintext is within the limit")
}

/// `Aead::decrypt` of `aes_gcm::Aes256Gcm`, without associated data. It gives
/// the one plaintext that the ciphertext was made of under this key and
/// nonce, which is a tag shorter, and nothing where there is none.
#[verifier::external_body]
fn open(key: &[u8], nonce: &[u8], ciphertext: &[u8]) -> (r: Option<Vec<u8>>)
    requires
        key@.len() == KEY_LEN,
        nonce@.len() == NONCE_LEN,
        ciphertext@.len() <= MAX_PLAINTEXT + TAG_LEN,
    ensures
        match r {
            Some(pt) => {
                &&& sealed(key@, nonce@, pt@) == ciphertext@
                &&& pt@.len() + TAG_LEN == ciphertext@.len()
                &&& forall|other: Seq<u8>|
                    other.len() <= MAX_PLAINTEXT && #[trigger] sealed(key@, nonce@, other)
                        == ciphertext@ ==> other == pt@
            },
            None => forall|pt: Seq<u8>|
                pt.len() <= MAX_PLAINTEXT ==> #[trigger] sealed(key@, nonce@, pt) != ciphertext@,
        },
{
    let cipher = aes_gcm::Aes256Gcm::new_from_slice(key).ok()?;
    cipher.decrypt(aes_gcm::Nonce::from_slice(nonce), ciphertext).ok()
}

/// Why a passphrase is refused.
#[derive(Debug, Clone, Copy, PartialEq, Eq, Structural)]
pub enum KeyError {
    /// It is too short.
    TooShort,
}

/// Why a secret cannot be sealed.
#[derive(Debug, Clone, Copy, PartialEq, Eq, Structural)]
pub enum SealError {
    /// It is too long.
    TooLong,
}

/// Why what is stored gives no secret.
#[derive(Debug, Clone, Copy, PartialEq, Eq, Structural)]
pub enum OpenError {
    /// It is not base64.
    Base64,
    /// It is too short to hold a nonce and a ciphertext.
    TooShort,
    /// It was not sealed under this key.
    Cipher,
    /// What was sealed is no text.
    Utf8,
}

/// The stored form of a secret under a nonce.
pub open spec fn stored_form(key: Seq<u8>, nonce: Seq<u8>, secret: Seq<char>) -> Seq<char> {
    codec::base64std(nonce + sealed(key, nonce, utf8::encode_utf8(secret)))
}

/// `stored` is a stored form of `secret`, under some nonce.
pub open spec fn stores(key: Seq<u8>, stored: Seq<char>, secret: Seq<char>) -> bool {
    let bytes = utf8::encode_utf8(secret);
    exists|nonce: Seq<u8>|
        {
            &&& nonce.len() == NONCE_LEN
            &&& bytes.len() <= MAX_PLAINTEXT
            &&& sealed(key, nonce, bytes).len() == bytes.len() + TAG_LEN
            &&& stored == #[trigger] stored_form(key, nonce, secret)
        }
}

/// What `stored` gives under a key: the secret that it stores. Nothing else is
/// given, and each error has its own reason.
pub open spec fn opened(
    r: Result<String, OpenError>,
    key: Seq<u8>,
    stored: Seq<char>,
) -> bool {
    &&& forall|secret: Seq<char>| #[trigger]
        stores(key, stored, secret) ==> r is Ok && r->Ok_0@ == secret
    &&& r matches Ok(s) ==> stores(key, stored, s@)
    &&& r == Err::<String, OpenError>(OpenError::Base64) <==> !is_base64(stored)
    &&& r == Err::<String, OpenError>(OpenError::TooShort) <==> is_too_short(stored)
    &&& r == Err::<String, OpenError>(OpenError::Cipher) <==> is_foreign(key, stored)
    &&& r == Err::<String, OpenError>(OpenError::Utf8) <==> holds_no_text(key, stored)
}

/// The key that a passphrase stands for.
pub open spec fn passphrase_key(passphrase: Seq<char>) -> Seq<u8> {
    hkdf_key(utf8::encode_utf8(passphrase), utf8::encode_utf8(KEY_INFO@))
}

/// The key under which secrets are stored.
pub struct Secrets {
    key: Vec<u8>,
}

impl Secrets {
    /// The key.
    pub closed spec fn key(self) -> Seq<u8> {
        self.key@
    }

    /// The invariant: the key has its length.
    pub open spec fn wf(self) -> bool {
        self.key().len() == KEY_LEN
    }

    /// The key that a passphrase stands for. One of fewer than
    /// [`MIN_PASSPHRASE`] bytes is refused.
    pub fn new(env_key: &str) -> (r: Result<Self, KeyError>)
        ensures
            match r {
                Ok(s) => {
                    &&& utf8::encode_utf8(env_key@).len() >= MIN_PASSPHRASE
                    &&& s.wf()
                    &&& s.key() == passphrase_key(env_key@)
                },
                Err(KeyError::TooShort) => utf8::encode_utf8(env_key@).len() < MIN_PASSPHRASE,
            },
    {
        let bytes = env_key.as_bytes();
        if bytes.len() < MIN_PASSPHRASE {
            return Err(KeyError::TooShort);
        }
        Ok(Secrets { key: derive_key(bytes, KEY_INFO.as_bytes()) })
    }

    /// Seals a secret under a given nonce.
    pub fn encrypt_with_nonce(&self, nonce: &[u8], plaintext: &str) -> (r: Result<
        String,
        SealError,
    >)
        requires
            self.wf(),
            nonce@.len() == NONCE_LEN,
        ensures
            match r {
                Ok(s) => {
                    &&& s@ == stored_form(self.key(), nonce@, plaintext@)
                    &&& stores(self.key(), s@, plaintext@)
                    &&& s@.len() > 0
                },
                Err(SealError::TooLong) => utf8::encode_utf8(plaintext@).len() > MAX_PLAINTEXT,
            },
    {
        let bytes = plaintext.as_bytes();
        if bytes.len() as u64 > MAX_PLAINTEXT {
            return Err(SealError::TooLong);
        }
        let ct = seal(self.key.as_slice(), nonce, bytes);
        let mut raw: Vec<u8> = Vec::new();
        raw.extend_from_slice(nonce);
        raw.extend_from_slice(&ct);
        assert(raw@ =~= nonce@ + ct@);
        let stored = codec::base64std_encode(&raw);
        assert(stored@ == stored_form(self.key(), nonce@, plaintext@));
        Ok(stored)
    }

    /// Seals a secret under a fresh nonce.
    pub fn encrypt(&self, plaintext: &str) -> (r: Result<String, SealError>)
        requires
            self.wf(),
        ensures
            match r {
                Ok(s) => stores(self.key(), s@, plaintext@) && s@.len() > 0,
                Err(SealError::TooLong) => utf8::encode_utf8(plaintext@).len() > MAX_PLAINTEXT,
            },
    {
        let nonce = random_nonce();
        self.encrypt_with_nonce(&nonce, plaintext)
    }

    /// The secret whose stored form this is. Whatever was sealed under this
    /// key is given back; nothing else is given.
    pub fn decrypt(&self, b64: &str) -> (r: Result<String, OpenError>)
        requires
            self.wf(),
        ensures
            opened(r, self.key(), b64@),
    {
        let raw = match codec::base64std_decode(b64) {
            Some(raw) => raw,
            None => {
                return Err(OpenError::Base64);
            },
        };
        proof {
            holds_only(b64@, raw@);
        }
        if raw.len() <= NONCE_LEN {
            proof {
                stores_is_sealing(self.key(), b64@, raw@);
            }
            return Err(OpenError::TooShort);
        }
        let nonce = vstd::slice::slice_subrange(raw.as_slice(), 0, NONCE_LEN);
        let ct = vstd::slice::slice_subrange(raw.as_slice(), NONCE_LEN, raw.len());
        assert(nonce@ =~= raw@.take(NONCE_LEN as int));
        assert(ct@ =~= raw@.skip(NONCE_LEN as int));
        assert(nonce@ + ct@ =~= raw@);
        proof {
            stores_is_sealing(self.key(), b64@, raw@);
        }
        if ct.len() as u64 > MAX_PLAINTEXT + TAG_LEN as u64 {
            return Err(OpenError::Cipher);
        }
        let pt = match open(self.key.as_slice(), nonce, ct) {
            Some(pt) => pt,
            None => {
                return Err(OpenError::Cipher);
            },
        };
        assert(opens(self.key(), raw@));
        match String::from_utf8(pt) {
            Ok(s) => {
                proof {
                    utf8::decode_utf8_encode_utf8(pt@);
                    assert(utf8::encode_utf8(s@) == pt@);
                    assert(b64@ == stored_form(self.key(), nonce@, s@));
                    assert forall|secret: Seq<char>| #[trigger]
                        stores(self.key(), b64@, secret) implies secret == s@ by {
                        utf8::encode_utf8_decode_utf8(secret);
                    }
                }
                Ok(s)
            },
            Err(_) => {
                proof {
                    assert forall|secret: Seq<char>| !#[trigger]
                        stores(self.key(), b64@, secret) by {
                        utf8::encode_utf8_valid_utf8(secret);
                    }
                    assert(opens_to_no_text(self.key(), raw@));
                }
                Err(OpenError::Utf8)
            },
        }
    }
}

/// A text that is the base64 form of one byte sequence is the form of no
/// other.
proof fn holds_only(stored: Seq<char>, raw: Seq<u8>)
    requires
        codec::base64std(raw) == stored,
        forall|other: Seq<u8>| #[trigger] codec::base64std(other) == stored ==> other == raw,
    ensures
        is_base64(stored),
        is_too_short(stored) == (raw.len() <= NONCE_LEN),
        forall|key: Seq<u8>| #[trigger]
            is_foreign(key, stored) == (raw.len() > NONCE_LEN && !opens(key, raw)),
        forall|key: Seq<u8>| #[trigger]
            holds_no_text(key, stored) == (raw.len() > NONCE_LEN && opens_to_no_text(key, raw)),
{
}

/// What is stored of a secret is what its bytes are sealed to.
proof fn stores_is_sealing(key: Seq<u8>, stored: Seq<char>, raw: Seq<u8>)
    requires
        codec::base64std(raw) == stored,
        forall|other: Seq<u8>| #[trigger] codec::base64std(other) == stored ==> other == raw,
    ensures
        forall|secret: Seq<char>| #[trigger]
            stores(key, stored, secret) ==> {
                let bytes = utf8::encode_utf8(secret);
                &&& bytes.len() <= MAX_PLAINTEXT
                &&& raw.len() == NONCE_LEN + bytes.len() + TAG_LEN
                &&& sealed(key, raw.take(NONCE_LEN as int), bytes) == raw.skip(NONCE_LEN as int)
            },
{
    assert forall|secret: Seq<char>| #[trigger] stores(key, stored, secret) implies ({
        let bytes = utf8::encode_utf8(secret);
        &&& bytes.len() <= MAX_PLAINTEXT
        &&& raw.len() == NONCE_LEN + bytes.len() + TAG_LEN
        &&& sealed(key, raw.take(NONCE_LEN as int), bytes) == raw.skip(NONCE_LEN as int)
    }) by {
        let bytes = utf8::encode_utf8(secret);
        let n = choose|n: Seq<u8>|
            {
                &&& n.len() == NONCE_LEN
                &&& bytes.len() <= MAX_PLAINTEXT
                &&& sealed(key, n, bytes).len() == bytes.len() + TAG_LEN
                &&& stored == #[trigger] stored_form(key, n, secret)
            };
        let form = n + sealed(key, n, bytes);
        assert(codec::base64std(form) == stored);
        assert(form.take(NONCE_LEN as int) =~= n);
        assert(form.skip(NONCE_LEN as int) =~= sealed(key, n, bytes));
    }
}

/// What one key seals, every key of the same passphrase opens, and gives back;
/// a text that is no base64, or that holds no more than a nonce, is refused.
pub proof fn same_passphrase_opens(
    passphrase: Seq<char>,
    sealing: Secrets,
    opening: Secrets,
    stored: Seq<char>,
    r: Result<String, OpenError>,
)
    requires
        sealing.key() == passphrase_key(passphrase),
        opening.key() == passphrase_key(passphrase),
        opened(r, opening.key(), stored),
    ensures
        forall|secret: Seq<char>| #[trigger]
            stores(sealing.key(), stored, secret) ==> r is Ok && r->Ok_0@ == secret,
        !is_base64(stored) ==> r == Err::<String, OpenError>(OpenError::Base64),
        is_too_short(stored) ==> r == Err::<String, OpenError>(OpenError::TooShort),
{
}

/// `stored` is the base64 form of some bytes.
pub open spec fn is_base64(stored: Seq<char>) -> bool {
    exists|raw: Seq<u8>| #[trigger] codec::base64std(raw) == stored
}

/// `stored` is too short to hold a nonce and a ciphertext.
pub open spec fn is_too_short(stored: Seq<char>) -> bool {
    exists|raw: Seq<u8>| #[trigger] codec::base64std(raw) == stored && raw.len() <= NONCE_LEN
}

/// What `stored` holds was not sealed under this key.
pub open spec fn is_foreign(key: Seq<u8>, stored: Seq<char>) -> bool {
    exists|raw: Seq<u8>| #[trigger]
        codec::base64std(raw) == stored && raw.len() > NONCE_LEN && !opens(key, raw)
}

/// What `stored` holds was sealed under this key, but is no text.
pub open spec fn holds_no_text(key: Seq<u8>, stored: Seq<char>) -> bool {
    exists|raw: Seq<u8>| #[trigger]
        codec::base64std(raw) == stored && raw.len() > NONCE_LEN && opens_to_no_text(key, raw)
}

/// Stored bytes are a nonce and what some plaintext is sealed to under it.
pub open spec fn opens(key: Seq<u8>, raw: Seq<u8>) -> bool {
    exists|pt: Seq<u8>|
        {
            &&& pt.len() <= MAX_PLAINTEXT
            &&& raw.skip(NONCE_LEN as int).len() == pt.len() + TAG_LEN
            &&& #[trigger] sealed(key, raw.take(NONCE_LEN as int), pt) == raw.skip(NONCE_LEN as int)
        }
}

/// Stored bytes are a nonce and what some plaintext that is no text is sealed
/// to under it.
pub open spec fn opens_to_no_text(key: Seq<u8>, raw: Seq<u8>) -> bool {
    exists|pt: Seq<u8>|
        {
            &&& pt.len() <= MAX_PLAINTEXT
            &&& raw.skip(NONCE_LEN as int).len() == pt.len() + TAG_LEN
            &&& #[trigger] sealed(key, raw.take(NONCE_LEN as int), pt) == raw.skip(NONCE_LEN as int)
            &&& !utf8::valid_utf8(pt)
        }
}

/// A stored secret is the nonce, twelve bytes, and behind it what the secret
/// is sealed to. A key has thirty-two bytes, a tag sixteen, and a passphrase
/// at least as many as a tag.
pub proof fn nonces_stand_in_front(key: Seq<u8>, raw: Seq<u8>, secret: Seq<char>)
    requires
        raw.len() >= 12,
        raw.skip(12) == sealed(key, raw.take(12), utf8::encode_utf8(secret)),
    ensures
        stored_form(key, raw.take(12), secret) == codec::base64std(raw),
        NONCE_LEN == 12,
        KEY_LEN == 32,
        TAG_LEN == 16,
        MIN_PASSPHRASE == 16,
{
    assert(raw.take(12) + raw.skip(12) =~= raw);
}

} // verus!
