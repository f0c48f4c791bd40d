//! Downloads with a size limit.

use crate::text;
use vstd::prelude::*;

verus! {

/// Why an answer is not taken as a PDF.
#[derive(Debug, Clone, Copy, PartialEq, Eq, Structural)]
pub enum PdfRefusal {
    /// The status is not one of success.
    Status,
    /// The content type is neither PDF nor plain bytes.
    NotPdf,
    /// The announced length is over the limit.
    TooLarge,
}

/// A content type under which a PDF may arrive.
pub open spec fn is_pdf_type(content_type: Seq<char>) -> bool {
    let lower = text::lowercase(content_type);
    "application/pdf"@.is_prefix_of(lower) || "application/octet-stream"@.is_prefix_of(lower)
}

/// Whether the head of an answer promises a PDF within the limit. A missing
/// content type counts as an empty one; a missing length is no obstacle.
pub fn check_pdf_response(
    is_success: bool,
    content_type: Option<&str>,
    len: Option<u64>,
    max_bytes: usize,
) -> (r: Result<(), PdfRefusal>)
    ensures
        r == (if !is_success {
            Err(PdfRefusal::Status)
        } else if !is_pdf_type(
            match content_type {
                Some(t) => t@,
                None => ""@,
            },
        ) {
            Err(PdfRefusal::NotPdf)
        } else if len is Some && len->0 > max_bytes {
            Err(PdfRefusal::TooLarge)
        } else {
            Ok(())
        }),
{
    if !is_success {
        return Err(PdfRefusal::Status);
    }
    let content_type = match content_type {
        Some(t) => t,
        None => "",
    };
    let lower = content_type.to_lowercase();
    if !text::search::starts_with(lower.as_str(), "application/pdf") && !text::search::starts_with(
        lower.as_str(),
        "application/octet-stream",
    ) {
        return Err(PdfRefusal::NotPdf);
    }
    match check_announced(len, max_bytes) {
        Ok(_) => Ok(()),
        Err(_) => Err(PdfRefusal::TooLarge),
    }
}

/// How much of an answer without success is quoted, in characters.
pub const STATUS_QUOTE: usize = 200;

/// What is said of an answer without success: what was asked of which source,
/// the status as it is `shown`, and the start of the body.
pub open spec fn status_text(
    source: Seq<char>,
    asked: Seq<char>,
    shown: Seq<char>,
    body: Seq<char>,
) -> Seq<char> {
    source + " "@ + asked + " HTTP "@ + shown + ": "@ + text::first_chars(
        body,
        STATUS_QUOTE as nat,
    )
}

pub fn status_message(source: &str, asked: &str, shown: &str, body: &str) -> (out: String)
    ensures
        out@ == status_text(source@, asked@, shown@, body@),
{
    let head = text::concat3(source, " ", asked);
    let told = text::concat3(head.as_str(), " HTTP ", shown);
    let quote = text::take_chars(body, STATUS_QUOTE);
    let out = text::concat3(told.as_str(), ": ", quote.as_str());
    assert(out@ =~= status_text(source@, asked@, shown@, body@));
    out
}

/// Why a download was given up.
#[derive(Debug, Clone, Copy, PartialEq, Eq, Structural)]
pub enum TooLarge {
    /// The announced length is over the limit.
    Announced,
    /// What arrived is over the limit.
    Streamed,
    /// What was made of it is over the limit.
    Finished,
}

/// Whether a download of the announced length may start. An answer without a
/// length may.
pub fn check_announced(len: Option<u64>, max_bytes: usize) -> (r: Result<(), TooLarge>)
    ensures
        r == (match len {
            Some(n) => if n > max_bytes {
                Err(TooLarge::Announced)
            } else {
                Ok(())
            },
            None => Ok(()),
        }),
{
    match len {
        Some(n) => if n > max_bytes as u64 {
            Err(TooLarge::Announced)
        } else {
            Ok(())
        },
        None => Ok(()),
    }
}

/// Whether a finished document is within the limit.
pub fn check_size(len: usize, max_bytes: usize) -> (r: Result<(), TooLarge>)
    ensures
        r == (if len <= max_bytes {
            Ok(())
        } else {
            Err(TooLarge::Finished)
        }),
{
    if len <= max_bytes {
        Ok(())
    } else {
        Err(TooLarge::Finished)
    }
}

/// What has arrived of a download, never more than its limit.
pub struct BoundedBuffer {
    bytes: Vec<u8>,
    max_bytes: usize,
}

impl BoundedBuffer {
    /// The bytes that have arrived.
    pub closed spec fn contents(self) -> Seq<u8> {
        self.bytes@
    }

    /// The limit.
    pub closed spec fn limit(self) -> usize {
        self.max_bytes
    }

    /// The invariant: the contents are within the limit.
    pub open spec fn within_limit(self) -> bool {
        self.contents().len() <= self.limit()
    }

    pub fn new(max_bytes: usize) -> (b: Self)
        ensures
            b.within_limit(),
            b.contents() == Seq::<u8>::empty(),
            b.limit() == max_bytes,
    {
        BoundedBuffer { bytes: Vec::new(), max_bytes }
    }

    /// Takes the next chunk. A chunk that would pass the limit is refused,
    /// and leaves the buffer as it was.
    pub fn push(&mut self, chunk: &[u8]) -> (r: Result<(), TooLarge>)
        requires
            old(self).within_limit(),
        ensures
            final(self).within_limit(),
            final(self).limit() == old(self).limit(),
            if old(self).contents().len() + chunk@.len() > old(self).limit() {
                r == Err::<(), TooLarge>(TooLarge::Streamed) && final(self).contents() == old(
                    self,
                ).contents()
            } else {
                r == Ok::<(), TooLarge>(()) && final(self).contents() == old(self).contents()
                    + chunk@
            },
    {
        if chunk.len() > self.max_bytes - self.bytes.len() {
            return Err(TooLarge::Streamed);
        }
        self.bytes.extend_from_slice(chunk);
        Ok(())
    }

    /// The bytes that have arrived.
    pub fn into_bytes(self) -> (bytes: Vec<u8>)
        requires
            self.within_limit(),
        ensures
            bytes@ == self.contents(),
            bytes@.len() <= self.limit(),
    {
        self.bytes
    }
}

/// A PDF may arrive as one or as plain bytes, with or without parameters
/// behind the type; nothing that starts otherwise may.
pub proof fn pdfs_arrive_as_pdf_or_bytes(content_type: Seq<char>, rest: Seq<char>)
    ensures
        text::lowercase(content_type) == "application/pdf"@ + rest ==> is_pdf_type(content_type),
        text::lowercase(content_type) == "application/octet-stream"@ + rest ==> is_pdf_type(
            content_type,
        ),
        is_pdf_type(content_type) ==> text::search::without_prefix(
            text::lowercase(content_type),
            "application/pdf"@,
        ) is Some || text::search::without_prefix(
            text::lowercase(content_type),
            "application/octet-stream"@,
        ) is Some,
{
    let pdf = "application/pdf"@;
    let bytes = "application/octet-stream"@;
    assert((pdf + rest).subrange(0, pdf.len() as int) =~= pdf);
    assert((bytes + rest).subrange(0, bytes.len() as int) =~= bytes);
}

/// What is said of an answer names the source, what was asked and the status,
/// in this order, and quotes at most two hundred characters.
pub proof fn answers_are_quoted(
    source: Seq<char>,
    asked: Seq<char>,
    status: Seq<char>,
    body: Seq<char>,
)
    ensures
        (source + " "@ + asked + " HTTP "@ + status + ": "@).is_prefix_of(
            status_text(source, asked, status, body),
        ),
        body.len() <= 200 ==> status_text(source, asked, status, body) == source + " "@ + asked
            + " HTTP "@ + status + ": "@ + body,
        status_text(source, asked, status, body).len() <= (source + " "@ + asked + " HTTP "@
            + status + ": "@).len() + 200,
{
    let t = status_text(source, asked, status, body);
    let p = source + " "@ + asked + " HTTP "@ + status + ": "@;
    assert(t.subrange(0, p.len() as int) =~= p);
}

} // verus!
