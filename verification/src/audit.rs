//! Who a request comes from.

use crate::text;
use vstd::prelude::*;

verus! {

/// The address of a client, from the headers `cf-connecting-ip` and
/// `x-forwarded-for`: the first, or else the front of the list in the second,
/// or else `unknown`.
pub open spec fn client_of(cf: Option<Seq<char>>, forwarded: Option<Seq<char>>) -> Seq<char> {
    match cf {
        Some(ip) => text::trim::trimmed(ip),
        None => match forwarded {
            Some(list) => text::trim::trimmed(text::split::before_first(list, |c: char| c == ',')),
            None => "unknown"@,
        },
    }
}

fn comma(c: char) -> (b: bool)
    ensures
        b == (c == ','),
{
    c == ','
}

/// The address of a client.
pub fn client_ip(cf_connecting_ip: Option<&str>, x_forwarded_for: Option<&str>) -> (ip: String)
    ensures
        ip@ == client_of(
            match cf_connecting_ip {
                Some(v) => Some(v@),
                None => None,
            },
            match x_forwarded_for {
                Some(v) => Some(v@),
                None => None,
            },
        ),
{
    if let Some(v) = cf_connecting_ip {
        return text::trim::trim(v);
    }
    match x_forwarded_for {
        Some(v) => {
            let first = text::split::head(v, comma, Ghost(|c: char| c == ','));
            text::trim::trim(first.as_str())
        },
        None => text::owned("unknown"),
    }
}

/// The user agent of a client, from the header `user-agent`.
pub fn user_agent(header: Option<&str>) -> (ua: Option<String>)
    ensures
        text::view_opt(ua) == (match header {
            Some(v) => Some(v@),
            None => None,
        }),
{
    text::owned_opt(header)
}

/// The proxy's own header counts first, whatever the list says; of the list
/// only the front counts; and white space around an address does not.
pub proof fn the_front_address_counts(
    before: Seq<char>,
    ip: Seq<char>,
    after: Seq<char>,
    rest: Seq<char>,
    forwarded: Option<Seq<char>>,
)
    requires
        text::trim::is_trimmed(ip),
        !ip.contains(','),
        forall|i: int| 0 <= i < before.len() ==> text::is_white_space(#[trigger] before[i]),
        forall|i: int| 0 <= i < after.len() ==> text::is_white_space(#[trigger] after[i]),
    ensures
        client_of(Some(before + ip + after), forwarded) == ip,
        client_of(None, Some(before + ip + after)) == ip,
        client_of(None, Some(before + ip + after + seq![','] + rest)) == ip,
        client_of(None, None) == "unknown"@,
{
    let f = |c: char| c == ',';
    let front = before + ip + after;
    text::trim::padding_comes_off(before, ip, after);
    assert forall|i: int| 0 <= i < front.len() implies !f(#[trigger] front[i]) by {
        if i < before.len() {
            assert(front[i] == before[i]);
        } else if i < before.len() + ip.len() {
            assert(front[i] == ip[i - before.len()]);
            assert(ip.contains(ip[i - before.len()]));
        } else {
            assert(front[i] == after[i - before.len() - ip.len()]);
        }
    }
    text::split::ends_are_cut_at_separators(front, ',', rest, f);
}

} // verus!
