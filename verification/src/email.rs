//! Mail.

use crate::text;
use vstd::prelude::*;

verus! {

/// The server that mail is sent through.
#[derive(Debug)]
pub struct SmtpConfig {
    pub host: String,
    pub port: u16,
    pub user: String,
    pub pass: String,
    pub from: String,
}

/// Whom mail is from or for: a name, where there is one, and the address.
#[derive(Debug)]
pub struct Mailbox {
    pub name: Option<String>,
    pub email: String,
}

impl View for Mailbox {
    type V = (Option<Seq<char>>, Seq<char>);

    open spec fn view(&self) -> (Option<Seq<char>>, Seq<char>) {
        (text::view_opt(self.name), self.email@)
    }
}

/// Why mail cannot be addressed.
#[derive(Debug, Clone, Copy, PartialEq, Eq, Structural)]
pub enum MailError {
    /// The configured sender is no mailbox.
    From,
    /// The recipient is no mailbox.
    Recipient,
}

/// The name and the address that a text like `Ada <ada@example.org>` holds.
pub uninterp spec fn mailbox_of(s: Seq<char>) -> Option<(Option<Seq<char>>, Seq<char>)>;

/// `lettre`'s `Mailbox::from_str`. Whether it succeeds, and what it gives,
/// depends on the text alone.
#[verifier::external_body]
fn parse_mailbox(s: &str) -> (r: Option<Mailbox>)
    ensures
        mailbox_of(s@) == (match r {
            Some(m) => Some(m@),
            None => None,
        }),
{
    let parsed: lettre::message::Mailbox = s.parse().ok()?;
    Some(Mailbox { name: parsed.name, email: parsed.email.to_string() })
}

/// Whom mail is from and whom it is for, given the two mailboxes as far as
/// there are any. The sender is looked at first.
pub fn address(from: Option<Mailbox>, to: Option<Mailbox>) -> (r: Result<
    (Mailbox, Mailbox),
    MailError,
>)
    ensures
        r == (match (from, to) {
            (None, _) => Err::<(Mailbox, Mailbox), MailError>(MailError::From),
            (Some(_), None) => Err(MailError::Recipient),
            (Some(f), Some(t)) => Ok((f, t)),
        }),
{
    match (from, to) {
        (None, _) => Err(MailError::From),
        (Some(_), None) => Err(MailError::Recipient),
        (Some(f), Some(t)) => Ok((f, t)),
    }
}

/// Whom mail to `to` is from and whom it is for.
pub fn addresses(cfg: &SmtpConfig, to: &str) -> (r: Result<(Mailbox, Mailbox), MailError>)
    ensures
        match (mailbox_of(cfg.from@), mailbox_of(to@)) {
            (None, _) => r == Err::<(Mailbox, Mailbox), MailError>(MailError::From),
            (Some(_), None) => r == Err::<(Mailbox, Mailbox), MailError>(MailError::Recipient),
            (Some(f), Some(t)) => r is Ok && r->Ok_0.0@ == f && r->Ok_0.1@ == t,
        },
{
    address(parse_mailbox(cfg.from.as_str()), parse_mailbox(to))
}

} // verus!
