//! Byte and text encodings: UTF-8, percent-encoding, base64, MD5.

use crate::text;
use base64::Engine;
use vstd::prelude::*;
use vstd::utf8;

verus! {

/// The error of `String::from_utf8`.
#[verifier::external_type_specification]
#[verifier::external_body]
pub struct ExFromUtf8Error(std::string::FromUtf8Error);

/// `String::from_utf8` accepts exactly the well-formed UTF-8 byte sequences,
/// and gives the text that they encode.
pub assume_specification[ String::from_utf8 ](bytes: Vec<u8>) -> (r: Result<
    String,
    std::string::FromUtf8Error,
>)
    ensures
        match r {
            Ok(s) => utf8::valid_utf8(bytes@) && s@ == utf8::decode_utf8(bytes@),
            Err(_) => !utf8::valid_utf8(bytes@),
        },
;

/// A byte that percent-encoding leaves as it is: an ASCII letter or digit, or
/// one of `-`, `_`, `.`, `~`.
pub open spec fn is_unreserved(b: u8) -> bool {
    ||| 0x30 <= b <= 0x39
    ||| 0x41 <= b <= 0x5a
    ||| 0x61 <= b <= 0x7a
    ||| b == 0x2d || b == 0x5f || b == 0x2e || b == 0x7e
}

/// The upper-case hexadecimal digit for `n`, for `n` below sixteen.
pub open spec fn upper_hex(n: u8) -> char {
    if n < 10 {
        ((0x30 + n) as u8) as char
    } else {
        ((0x37 + n) as u8) as char
    }
}

/// `bytes` with every byte that is not unreserved written as `%` and its two
/// hexadecimal digits.
pub open spec fn percent_encoded(bytes: Seq<u8>) -> Seq<char>
    decreases bytes.len(),
{
    if bytes.len() == 0 {
        Seq::empty()
    } else if is_unreserved(bytes[0]) {
        seq![bytes[0] as char] + percent_encoded(bytes.drop_first())
    } else {
        seq!['%', upper_hex(bytes[0] / 16), upper_hex(bytes[0] % 16)] + percent_encoded(
            bytes.drop_first(),
        )
    }
}

/// `urlencoding::encode` percent-encodes the UTF-8 bytes of a text: every
/// byte except letters, digits and `-`, `_`, `.`, `~`, with upper-case
/// hexadecimal digits.
#[verifier::external_body]
pub(crate) fn percent_encode(s: &str) -> (out: String)
    ensures
        out@ == percent_encoded(utf8::encode_utf8(s@)),
{
    urlencoding::encode(s).into_owned()
}

/// A character of the URL-safe base64 alphabet.
pub open spec fn is_base64url_char(c: char) -> bool {
    'A' <= c <= 'Z' || 'a' <= c <= 'z' || '0' <= c <= '9' || c == '-' || c == '_'
}

/// `bytes` in URL-safe base64 without padding.
pub uninterp spec fn base64url(bytes: Seq<u8>) -> Seq<char>;

/// `Engine::encode` of the `base64` engine `URL_SAFE_NO_PAD`. The result
/// depends on the bytes alone, is made of characters of the URL-safe alphabet,
/// and is the encoding of no other bytes.
#[verifier::external_body]
fn base64url_encode(bytes: &[u8]) -> (out: String)
    ensures
        out@ == base64url(bytes@),
        forall|i: int| 0 <= i < out@.len() ==> is_base64url_char(#[trigger] out@[i]),
        forall|other: Seq<u8>| #[trigger] base64url(other) == out@ ==> other == bytes@,
{
    base64::engine::general_purpose::URL_SAFE_NO_PAD.encode(bytes)
}

/// `Engine::decode` of the `base64` engine `URL_SAFE_NO_PAD`. It accepts
/// exactly the texts that are the encoding of some bytes, and gives the one
/// byte sequence with that encoding: padding, characters outside the alphabet, impossible lengths and
/// stray low bits are refused.
#[verifier::external_body]
fn base64url_decode(s: &str) -> (r: Option<Vec<u8>>)
    ensures
        match r {
            Some(bytes) => {
                &&& base64url(bytes@) == s@
                &&& forall|other: Seq<u8>| #[trigger] base64url(other) == s@ ==> other == bytes@
            },
            None => forall|bytes: Seq<u8>| #[trigger] base64url(bytes) != s@,
        },
{
    base64::engine::general_purpose::URL_SAFE_NO_PAD.decode(s.as_bytes()).ok()
}

/// `bytes` in standard base64 with padding.
pub uninterp spec fn base64std(bytes: Seq<u8>) -> Seq<char>;

/// `Engine::encode` of the `base64` engine `STANDARD`. The result depends on
/// the bytes alone, is the encoding of no other bytes, and is empty only for
/// no bytes.
#[verifier::external_body]
pub(crate) fn base64std_encode(bytes: &[u8]) -> (out: String)
    ensures
        out@ == base64std(bytes@),
        bytes@.len() > 0 ==> out@.len() > 0,
        forall|other: Seq<u8>| #[trigger] base64std(other) == out@ ==> other == bytes@,
{
    base64::engine::general_purpose::STANDARD.encode(bytes)
}

/// `Engine::decode` of the `base64` engine `STANDARD`. It accepts exactly the
/// texts that are the encoding of some bytes, and gives the one byte sequence
/// with that encoding.
#[verifier::external_body]
pub(crate) fn base64std_decode(s: &str) -> (r: Option<Vec<u8>>)
    ensures
        match r {
            Some(bytes) => {
                &&& base64std(bytes@) == s@
                &&& forall|other: Seq<u8>| #[trigger] base64std(other) == s@ ==> other == bytes@
            },
            None => forall|bytes: Seq<u8>| #[trigger] base64std(bytes) != s@,
        },
{
    base64::engine::general_purpose::STANDARD.decode(s).ok()
}

/// A URL as a path-safe id: the URL-safe base64 form of its UTF-8 bytes.
pub open spec fn url_id(url: Seq<char>) -> Seq<char> {
    base64url(utf8::encode_utf8(url))
}

/// A character that stands for itself in a segment of a URL path: a letter, a
/// digit, or one of the marks that RFC 3986 allows there. `%` is none of them.
pub open spec fn is_segment_char(c: char) -> bool {
    ||| is_base64url_char(c)
    ||| c == '.' || c == '~' || c == '!' || c == '$' || c == '&' || c == '\'' || c == '(' || c
        == ')' || c == '*' || c == '+' || c == ',' || c == ';' || c == '=' || c == ':' || c == '@'
}

/// Every character is one of the URL-safe base64 alphabet.
pub open spec fn is_url_safe(s: Seq<char>) -> bool {
    forall|i: int| 0 <= i < s.len() ==> is_base64url_char(#[trigger] s[i])
}

/// `s` goes through one segment of a URL path unchanged: every character
/// stands for itself there, and the whole is not `.` or `..`, which a path
/// does not keep.
pub open spec fn path_safe(s: Seq<char>) -> bool {
    &&& forall|i: int| 0 <= i < s.len() ==> is_segment_char(#[trigger] s[i])
    &&& s != "."@
    &&& s != ".."@
}

/// What is made of the URL-safe alphabet goes through a segment unchanged.
pub proof fn url_safe_is_path_safe(s: Seq<char>)
    requires
        is_url_safe(s),
    ensures
        path_safe(s),
{
    reveal_strlit(".");
    reveal_strlit("..");
    if s.len() > 0 {
        assert(is_base64url_char(s[0]));
    }
}

fn segment_char(c: char) -> (b: bool)
    ensures
        b == is_segment_char(c),
{
    ('A' <= c && c <= 'Z') || ('a' <= c && c <= 'z') || ('0' <= c && c <= '9') || c == '-' || c
        == '_' || c == '.' || c == '~' || c == '!' || c == '$' || c == '&' || c == '\'' || c == '('
        || c == ')' || c == '*' || c == '+' || c == ',' || c == ';' || c == '=' || c == ':' || c
        == '@'
}

/// Whether a text goes through one segment of a URL path unchanged.
pub fn is_path_safe(s: &str) -> (b: bool)
    ensures
        b == path_safe(s@),
{
    if text::same(s, ".") || text::same(s, "..") {
        return false;
    }
    let chars = text::chars_of(s);
    for i in 0..chars.len()
        invariant
            chars@ == s@,
            forall|j: int| 0 <= j < i ==> is_segment_char(#[trigger] s@[j]),
    {
        if !segment_char(chars[i]) {
            assert(!is_segment_char(s@[i as int]));
            return false;
        }
    }
    true
}

/// The id of a URL. It is path-safe, and the id of no other URL.
pub fn encode_url_id(url: &str) -> (id: String)
    ensures
        id@ == url_id(url@),
        is_url_safe(id@),
        path_safe(id@),
        forall|other: Seq<char>| #[trigger] url_id(other) == id@ ==> other == url@,
{
    let id = base64url_encode(url.as_bytes());
    proof {
        url_safe_is_path_safe(id@);
        assert forall|other: Seq<char>| #[trigger] url_id(other) == id@ implies other == url@ by {
            utf8::encode_utf8_decode_utf8(other);
            utf8::encode_utf8_decode_utf8(url@);
        }
    }
    id
}

/// The URL whose id this is; `None` where it is the id of no URL.
pub fn decode_url_id(id: &str) -> (r: Option<String>)
    ensures
        match r {
            Some(url) => {
                &&& url_id(url@) == id@
                &&& forall|other: Seq<char>| #[trigger] url_id(other) == id@ ==> other == url@
            },
            None => forall|url: Seq<char>| #[trigger] url_id(url) != id@,
        },
{
    let bytes = match base64url_decode(id) {
        Some(bytes) => bytes,
        None => {
            return None;
        },
    };
    match String::from_utf8(bytes) {
        Ok(url) => {
            proof {
                utf8::decode_utf8_encode_utf8(bytes@);
                assert forall|other: Seq<char>| #[trigger] url_id(other) == id@ implies other
                    == url@ by {
                    utf8::encode_utf8_decode_utf8(other);
                }
            }
            Some(url)
        },
        Err(_) => {
            proof {
                assert forall|url: Seq<char>| #[trigger] url_id(url) != id@ by {
                    utf8::encode_utf8_valid_utf8(url);
                }
            }
            None
        },
    }
}

/// The MD5 digest of `bytes`.
pub uninterp spec fn md5_of(bytes: Seq<u8>) -> Seq<u8>;

/// `md5::Md5::digest`: sixteen bytes that depend on the input alone.
#[verifier::external_body]
pub(crate) fn md5_digest(bytes: &[u8]) -> (digest: Vec<u8>)
    ensures
        digest@ == md5_of(bytes@),
        digest@.len() == 16,
{
    let digest: [u8; 16] = <md5::Md5 as md5::Digest>::digest(bytes).into();
    digest.to_vec()
}

/// What goes through a segment of a path unchanged holds nothing that ends or
/// escapes a segment, and is neither of the two names that a path resolves.
pub proof fn path_safe_texts_keep_to_their_segment(s: Seq<char>)
    ensures
        path_safe(s) ==> !s.contains('/') && !s.contains('?') && !s.contains('#') && !s.contains(
            '%',
        ) && !s.contains(' ') && !s.contains('\\'),
        !path_safe(seq!['.']),
        !path_safe(seq!['.', '.']),
        path_safe(seq!['.', '.', '.']),
        forall|c: char| #[trigger]
            is_segment_char(c) && c != '.' ==> path_safe(seq![c]),
{
    reveal_strlit(".");
    reveal_strlit("..");
    assert(seq!['.'] =~= "."@);
    assert(seq!['.', '.'] =~= ".."@);
    let dots = seq!['.', '.', '.'];
    assert(dots.len() == 3);
    assert(forall|i: int| 0 <= i < 3 ==> is_segment_char(#[trigger] dots[i]));
    assert forall|c: char| #[trigger] is_segment_char(c) && c != '.' implies path_safe(seq![c]) by {
        let one = seq![c];
        assert(one[0] == c);
        assert("."@[0] == '.');
    }
}

/// Letters and digits stand for themselves in a path, and so do eighteen
/// marks.
pub proof fn letters_and_digits_stand_for_themselves(c: char)
    ensures
        'a' <= c <= 'z' || 'A' <= c <= 'Z' || '0' <= c <= '9' ==> is_segment_char(c),
        is_segment_char(c) ==> '!' <= c <= '~' && c != '"' && c != '<' && c != '>' && c != '['
            && c != ']' && c != '^' && c != '`' && c != '{' && c != '|' && c != '}',
{
}

} // verus!
