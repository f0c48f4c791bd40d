//! Cloudflare Turnstile: whether a visitor passed the check.

use crate::json;
use crate::text;
use vstd::prelude::*;

verus! {

pub const VERIFY_URL: &'static str = "https://challenges.cloudflare.com/turnstile/v0/siteverify";

/// The fields of a request for verification: secret, token, and the client's
/// address where it is known.
pub open spec fn fields(secret: Seq<char>, token: Seq<char>, ip: Option<Seq<char>>) -> Seq<
    (Seq<char>, Seq<char>),
> {
    let base = seq![("secret"@, secret), ("response"@, token)];
    match ip {
        Some(ip) => base.push(("remoteip"@, ip)),
        None => base,
    }
}

/// The form of a request for verification; none where the secret or the token
/// is empty, and the visitor has not passed.
pub fn verify_form(secret: &str, token: &str, ip: Option<&str>) -> (r: Option<
    Vec<(String, String)>,
>)
    ensures
        match r {
            None => secret@.len() == 0 || token@.len() == 0,
            Some(form) => {
                &&& secret@.len() > 0
                &&& token@.len() > 0
                &&& form@.map_values(|f: (String, String)| (f.0@, f.1@)) == fields(
                    secret@,
                    token@,
                    match ip {
                        Some(ip) => Some(ip@),
                        None => None,
                    },
                )
            },
        },
{
    if text::is_empty(secret) || text::is_empty(token) {
        return None;
    }
    let mut form: Vec<(String, String)> = vec![
        (text::owned("secret"), text::owned(secret)),
        (text::owned("response"), text::owned(token)),
    ];
    if let Some(ip) = ip {
        form.push((text::owned("remoteip"), text::owned(ip)));
    }
    assert(form@.map_values(|f: (String, String)| (f.0@, f.1@)) =~= fields(
        secret@,
        token@,
        match ip {
            Some(ip) => Some(ip@),
            None => None,
        },
    ));
    Some(form)
}

/// The answer says that the visitor passed.
pub open spec fn passed(reply: json::JsonView) -> bool {
    match reply.get("success"@) {
        Some(v) => v.boolean() == Some(true),
        None => false,
    }
}

/// Whether the answer says that the visitor passed.
pub fn verdict(reply: &json::Json) -> (b: bool)
    ensures
        b == passed(reply@),
{
    match reply.get("success") {
        Some(v) => match v.boolean() {
            Some(b) => b,
            None => false,
        },
        None => false,
    }
}

/// Whether the visitor passed: the status is one of success, and the body is
/// JSON that says so. Everything else is a failure.
pub fn verify(is_success: bool, body: &str) -> (b: bool)
    ensures
        b == (is_success && (match json::parsed(body@) {
            Some(reply) => passed(reply),
            None => false,
        })),
{
    if !is_success {
        return false;
    }
    match json::parse(body) {
        Some(reply) => verdict(&reply),
        None => false,
    }
}

/// A request names the secret, the token and, where it is known, the address
/// of the visitor, each under the name that the service reads it by.
pub proof fn requests_name_secret_token_and_address(
    secret: Seq<char>,
    token: Seq<char>,
    ip: Seq<char>,
)
    ensures
        fields(secret, token, None).to_set() =~= set![("secret"@, secret), ("response"@, token)],
        fields(secret, token, Some(ip)).to_set() =~= set![
            ("secret"@, secret),
            ("response"@, token),
            ("remoteip"@, ip),
        ],
        fields(secret, token, None).len() == 2,
        fields(secret, token, Some(ip)).len() == 3,
{
    let two = fields(secret, token, None);
    let three = fields(secret, token, Some(ip));
    assert(two[0] == ("secret"@, secret) && two[1] == ("response"@, token));
    assert(three[0] == ("secret"@, secret) && three[1] == ("response"@, token) && three[2] == (
        "remoteip"@,
        ip,
    ));
    assert(two.contains(two[0]) && two.contains(two[1]));
    assert(three.contains(three[0]) && three.contains(three[1]) && three.contains(three[2]));
}

/// The visitor passed exactly where the first `success` of the answer is the
/// value true: no text, no number and no missing answer counts as that.
pub proof fn only_true_passes(
    before: Seq<(Seq<char>, json::JsonView)>,
    v: json::JsonView,
    after: Seq<(Seq<char>, json::JsonView)>,
)
    requires
        forall|i: int| 0 <= i < before.len() ==> (#[trigger] before[i]).0 != "success"@,
    ensures
        passed(json::JsonView::Object(before + seq![("success"@, v)] + after)) <==> v
            == json::JsonView::Bool(true),
        !passed(json::JsonView::Object(before)),
        v !is Object ==> !passed(v),
    decreases before.len(),
{
    let all = before + seq![("success"@, v)] + after;
    if before.len() > 0 {
        let rest = before.drop_first();
        assert(all[0] == before[0]);
        assert(before[0].0 != "success"@);
        assert(all.drop_first() =~= rest + seq![("success"@, v)] + after);
        assert forall|i: int| 0 <= i < rest.len() implies (#[trigger] rest[i]).0 != "success"@ by {
            assert(rest[i] == before[i + 1]);
        }
        only_true_passes(rest, v, after);
    } else {
        assert(all[0] == ("success"@, v));
    }
}

} // verus!
