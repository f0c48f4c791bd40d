//! From a score page to the images of all its pages.
//!
//! The address of each page image is asked for with a token: the first four
//! hexadecimal digits of an MD5 digest over the score, the page and a salt.
//! The salt stands in one of MuseScore's scripts; a known one stands in for
//! it where it cannot be found or is refused.

use crate::codec;
use crate::sources::download::TooLarge;
use crate::sources::musescore::{page, score};
use crate::text;
use vstd::prelude::*;
use vstd::utf8;

verus! {

/// The salt to fall back to.
pub const FALLBACK_SALT: &'static str = "9654,4e";

/// The most pages that a score may have.
pub const MAX_PAGES: usize = 200;

/// How many page images are fetched at a time.
pub const PNG_FETCH_CONCURRENCY: usize = 4;

// ----- The score page -----

/// What a score page tells of a score.
#[derive(Debug)]
pub struct ScorePage {
    /// The scripts in which the salt may stand, in document order.
    pub bundle_urls: Vec<String>,
    pub pages_count: Option<usize>,
    /// The image of the first page, which needs no token.
    pub first_page_url: Option<String>,
}

/// What a score page tells of a score. Nothing that is missing is fatal.
pub fn score_page(html: &str) -> (p: ScorePage)
    ensures
        text::views(p.bundle_urls@) == page::bundles(html@, 0, Seq::empty()),
        score::page_count_of(score::page_data(html@), html@) == (match p.pages_count {
            Some(n) => Some(n as nat),
            None => None,
        }),
        text::view_opt(p.first_page_url) == page::first_page(
            crate::html::attrs_of(html@, "link[as=\"image\"]"@, "href"@),
            crate::html::attrs_of(html@, "img[src*=\"score_0\"]"@, "src"@),
        ),
{
    ScorePage {
        bundle_urls: page::extract_bundle_urls(html),
        pages_count: score::extract_pages_count(html),
        first_page_url: page::extract_first_page_url(html),
    }
}

/// Why the pages of a score cannot be fetched.
#[derive(Debug, Clone, Copy, PartialEq, Eq, Structural)]
pub enum PlanError {
    /// The page count is not plausible.
    TooManyPages(usize),
    /// The pages are SVG images.
    Svg,
}

/// How many pages to fetch: as many as the page says, one where it does not
/// say, and at least one.
pub open spec fn planned_pages(pages_count: Option<usize>) -> usize {
    match pages_count {
        Some(n) => if n == 0 {
            1
        } else {
            n
        },
        None => 1,
    }
}

/// How many pages to fetch, where they can be.
pub fn plan_pages(pages_count: Option<usize>, first_page_url: Option<&str>) -> (r: Result<
    usize,
    PlanError,
>)
    ensures
        r == (if planned_pages(pages_count) > MAX_PAGES {
            Err(PlanError::TooManyPages(planned_pages(pages_count)))
        } else if first_page_url is Some && page::is_svg(first_page_url->0@) {
            Err(PlanError::Svg)
        } else {
            Ok(planned_pages(pages_count))
        }),
{
    let n: usize = match pages_count {
        Some(n) => if n == 0 {
            1
        } else {
            n
        },
        None => 1,
    };
    if n > MAX_PAGES {
        return Err(PlanError::TooManyPages(n));
    }
    if let Some(url) = first_page_url {
        if page::is_svg_asset(url) {
            return Err(PlanError::Svg);
        }
    }
    Ok(n)
}

// ----- The salt -----

/// A salt, and the script that it was found in.
#[derive(Debug)]
pub struct CachedAlgorithm {
    pub bundle_url: String,
    pub random_token: String,
}

/// The salt found earlier, where the page still names its script.
pub fn cached_salt(cached: &Option<CachedAlgorithm>, bundle_urls: &Vec<String>) -> (r: Option<
    String,
>)
    ensures
        text::view_opt(r) == (match *cached {
            Some(c) => if text::views(bundle_urls@).contains(c.bundle_url@) {
                Some(c.random_token@)
            } else {
                None
            },
            None => None,
        }),
{
    match cached {
        Some(c) => if text::among(bundle_urls, c.bundle_url.as_str()) {
            Some(text::owned(c.random_token.as_str()))
        } else {
            None
        },
        None => None,
    }
}

/// The first salt among scripts that were fetched; a script that could not be
/// fetched has none. With the position of its script.
pub open spec fn first_salt(scripts: Seq<Option<Seq<char>>>, from: int) -> Option<(int, Seq<char>)>
    decreases scripts.len() - from,
{
    if from < 0 || from >= scripts.len() {
        None
    } else {
        match scripts[from] {
            Some(script) => match page::salt_from(script, 0) {
                Some(salt) => Some((from, salt)),
                None => first_salt(scripts, from + 1),
            },
            None => first_salt(scripts, from + 1),
        }
    }
}

/// The scripts of a page, looked through one after the other for a salt.
pub struct SaltSearch {
    urls: Vec<String>,
    next: usize,
}

impl SaltSearch {
    /// The scripts that are looked through.
    pub closed spec fn scripts(self) -> Seq<Seq<char>> {
        text::views(self.urls@)
    }

    /// How many have been looked through.
    pub closed spec fn done(self) -> int {
        self.next as int
    }

    pub open spec fn wf(self) -> bool {
        0 <= self.done() <= self.scripts().len()
    }

    pub fn new(bundle_urls: Vec<String>) -> (s: Self)
        ensures
            s.wf(),
            s.scripts() == text::views(bundle_urls@),
            s.done() == 0,
    {
        SaltSearch { urls: bundle_urls, next: 0 }
    }

    /// The script to fetch next.
    pub fn next_url(&self) -> (r: Option<&str>)
        requires
            self.wf(),
        ensures
            match r {
                Some(url) => self.done() < self.scripts().len() && url@
                    == self.scripts()[self.done()],
                None => self.done() == self.scripts().len(),
            },
    {
        if self.next < self.urls.len() {
            assert(self.scripts()[self.next as int] == self.urls@[self.next as int]@);
            Some(self.urls[self.next].as_str())
        } else {
            None
        }
    }

    /// Takes the script that [`next_url`](Self::next_url) named, or that it
    /// could not be fetched. Where it holds the salt, the search is over;
    /// where it does not, the next script is due.
    pub fn prepare_algorithm(&mut self, script: Option<&str>) -> (r: Option<CachedAlgorithm>)
        requires
            old(self).wf(),
            old(self).done() < old(self).scripts().len(),
        ensures
            final(self).wf(),
            final(self).scripts() == old(self).scripts(),
            final(self).done() == old(self).done() + 1,
            match r {
                Some(c) => {
                    &&& script is Some
                    &&& page::salt_from(script->0@, 0) == Some(c.random_token@)
                    &&& c.bundle_url@ == old(self).scripts()[old(self).done()]
                },
                None => script is Some ==> page::salt_from(script->0@, 0) is None,
            },
    {
        let i = self.next;
        assert(i < self.urls.len());
        assert(self.scripts()[i as int] == self.urls@[i as int]@);
        self.next = i + 1;
        assert(self.scripts() == old(self).scripts());
        match script {
            Some(s) => match page::find_random_token(s) {
                Some(salt) => Some(
                    CachedAlgorithm {
                        bundle_url: text::owned(self.urls[i].as_str()),
                        random_token: salt,
                    },
                ),
                None => None,
            },
            None => None,
        }
    }
}

/// A search that has come to script `i` without a salt finds what the search
/// of the scripts from `i` on finds.
pub proof fn search_goes_on(scripts: Seq<Option<Seq<char>>>, i: int)
    requires
        0 <= i <= scripts.len(),
        forall|j: int|
            0 <= j < i ==> ((#[trigger] scripts[j]) is Some ==> page::salt_from(scripts[j]->0, 0)
                is None),
    ensures
        first_salt(scripts, 0) == first_salt(scripts, i),
    decreases i,
{
    if i > 0 {
        search_goes_on(scripts, i - 1);
        assert(scripts[i - 1] is Some ==> page::salt_from(scripts[i - 1]->0, 0) is None);
    }
}

/// The salts to try, in order: the one that was found, then the known one,
/// unless they are the same.
pub open spec fn candidates_of(found: Option<Seq<char>>) -> Seq<Seq<char>> {
    match found {
        Some(s) => if s == FALLBACK_SALT@ {
            seq![s]
        } else {
            seq![s, FALLBACK_SALT@]
        },
        None => seq![FALLBACK_SALT@],
    }
}

/// The salts to try for the pages of a score. The first one that is accepted
/// is the only one from then on.
pub struct SaltBook {
    candidates: Vec<String>,
    working: Option<String>,
}

impl SaltBook {
    /// The salts to try, in order.
    pub closed spec fn salts(self) -> Seq<Seq<char>> {
        match self.working {
            Some(s) => seq![s@],
            None => text::views(self.candidates@),
        }
    }

    /// A salt has been accepted.
    pub closed spec fn settled(self) -> bool {
        self.working is Some
    }

    pub fn new(found: Option<String>) -> (b: Self)
        ensures
            b.salts() == candidates_of(text::view_opt(found)),
            b.salts().len() > 0,
            !b.settled(),
    {
        let mut candidates: Vec<String> = Vec::new();
        let known = match &found {
            Some(s) => text::same(s.as_str(), FALLBACK_SALT),
            None => false,
        };
        if let Some(s) = found {
            candidates.push(s);
        }
        if !known {
            candidates.push(text::owned(FALLBACK_SALT));
        }
        let b = SaltBook { candidates, working: None };
        assert(b.salts() =~= candidates_of(text::view_opt(found)));
        b
    }

    /// The salt to try after `tried` others were refused; none where all
    /// were.
    pub fn candidate(&self, tried: usize) -> (r: Option<&str>)
        ensures
            match r {
                Some(s) => tried < self.salts().len() && s@ == self.salts()[tried as int],
                None => tried >= self.salts().len(),
            },
    {
        match &self.working {
            Some(s) => if tried == 0 {
                Some(s.as_str())
            } else {
                None
            },
            None => if tried < self.candidates.len() {
                assert(self.salts()[tried as int] == self.candidates@[tried as int]@);
                Some(self.candidates[tried].as_str())
            } else {
                None
            },
        }
    }

    /// Settles on the salt that was accepted after `tried` others were
    /// refused.
    pub fn accepted(&mut self, tried: usize)
        requires
            tried < old(self).salts().len(),
        ensures
            final(self).settled(),
            final(self).salts() == seq![old(self).salts()[tried as int]],
    {
        let ghost all = self.salts();
        if self.working.is_none() {
            assert(all[tried as int] == self.candidates@[tried as int]@);
            self.working = Some(text::owned(self.candidates[tried].as_str()));
        }
        assert(self.salts() =~= seq![all[tried as int]]);
    }
}

// ----- The token -----

/// The lower-case hexadecimal digit for `n`, for `n` below sixteen.
pub open spec fn lower_hex(n: u8) -> char {
    if n < 10 {
        ((0x30 + n) as u8) as char
    } else {
        ((0x57 + n) as u8) as char
    }
}

/// The first four hexadecimal digits of a digest.
pub open spec fn token_of_digest(digest: Seq<u8>) -> Seq<char> {
    seq![
        lower_hex(digest[0] / 16),
        lower_hex(digest[0] % 16),
        lower_hex(digest[1] / 16),
        lower_hex(digest[1] % 16),
    ]
}

/// The token for one page of a score.
pub open spec fn token_of(
    salt: Seq<char>,
    score_id: Seq<char>,
    media_type: Seq<char>,
    index: nat,
) -> Seq<char> {
    token_of_digest(
        codec::md5_of(
            utf8::encode_utf8(score_id + media_type + text::number::decimal(index) + salt),
        ),
    )
}

fn hex(n: u8) -> (c: char)
    requires
        n < 16,
    ensures
        c == lower_hex(n),
{
    if n < 10 {
        (0x30 + n) as char
    } else {
        (0x57 + n) as char
    }
}

/// The first four hexadecimal digits of a digest.
pub fn token_from_digest(digest: &[u8]) -> (token: String)
    requires
        digest@.len() >= 2,
    ensures
        token@ == token_of_digest(digest@),
{
    let mut token = String::new();
    token.push(hex(digest[0] / 16));
    token.push(hex(digest[0] % 16));
    token.push(hex(digest[1] / 16));
    token.push(hex(digest[1] % 16));
    assert(token@ =~= token_of_digest(digest@));
    token
}

/// The token for one page of a score.
pub fn mint_token(salt: &str, score_id: &str, media_type: &str, index: usize) -> (token: String)
    ensures
        token@ == token_of(salt@, score_id@, media_type@, index as nat),
{
    let head = text::concat(score_id, media_type);
    let number = text::number::to_decimal(index as u64);
    let input = text::concat3(head.as_str(), number.as_str(), salt);
    let digest = codec::md5_digest(input.as_str().as_bytes());
    token_from_digest(&digest)
}

/// A token has four characters, each a lower-case hexadecimal digit.
pub proof fn token_is_hex(digest: Seq<u8>)
    ensures
        token_of_digest(digest).len() == 4,
        forall|i: int|
            0 <= i < 4 ==> {
                let c = #[trigger] token_of_digest(digest)[i];
                text::is_digit(c) || 'a' <= c <= 'f'
            },
{
}

// ----- The addresses of the page images -----

/// Where the address of a page image is asked for.
pub open spec fn jmuse_request(id: Seq<char>, media_type: Seq<char>, index: nat) -> Seq<char> {
    "https://musescore.com/api/jmuse?id="@ + id + "&index="@ + text::number::decimal(index)
        + "&type="@ + media_type
}

/// Where the address of a page image is asked for.
pub fn jmuse_request_url(id: &str, media_type: &str, index: usize) -> (url: String)
    ensures
        url@ == jmuse_request(id@, media_type@, index as nat),
{
    let head = text::concat3("https://musescore.com/api/jmuse?id=", id, "&index=");
    let number = text::number::to_decimal(index as u64);
    let told = text::concat3(head.as_str(), number.as_str(), "&type=");
    text::concat(told.as_str(), media_type)
}

/// The answer to a request for the address of a page image.
#[derive(Debug)]
pub struct JmuseReply {
    pub result: String,
    /// The address, where the answer has it: empty where it names none.
    pub url: Option<String>,
}

/// Why an answer gives no address.
#[derive(Debug, Clone, Copy, PartialEq, Eq, Structural)]
pub enum JmuseError {
    /// The result is not `success`.
    Refused,
    /// The answer says nothing of the image.
    MissingInfo,
    /// The address is empty.
    EmptyUrl,
}

/// The address in an answer.
pub fn jmuse_url(reply: JmuseReply) -> (r: Result<String, JmuseError>)
    ensures
        match r {
            Ok(url) => reply.result@ == "success"@ && text::view_opt(reply.url) == Some(url@)
                && url@.len() > 0,
            Err(JmuseError::Refused) => reply.result@ != "success"@,
            Err(JmuseError::MissingInfo) => reply.result@ == "success"@ && reply.url is None,
            Err(JmuseError::EmptyUrl) => reply.result@ == "success"@ && text::view_opt(reply.url)
                == Some(Seq::<char>::empty()),
        },
{
    if !text::same(reply.result.as_str(), "success") {
        return Err(JmuseError::Refused);
    }
    match reply.url {
        Some(url) => if text::is_empty(url.as_str()) {
            assert(url@ =~= Seq::<char>::empty());
            Err(JmuseError::EmptyUrl)
        } else {
            Ok(url)
        },
        None => Err(JmuseError::MissingInfo),
    }
}

/// The addresses of the page images, as far as they are known.
pub struct PageUrls {
    urls: Vec<String>,
    total: usize,
}

impl PageUrls {
    /// The addresses of the first pages, in page order.
    pub closed spec fn known(self) -> Seq<Seq<char>> {
        text::views(self.urls@)
    }

    /// How many pages there are.
    pub closed spec fn pages(self) -> nat {
        self.total as nat
    }

    /// The invariant: there are no more addresses than pages, and none is
    /// that of an SVG image.
    pub open spec fn wf(self) -> bool {
        &&& self.known().len() <= self.pages()
        &&& forall|i: int| 0 <= i < self.known().len() ==> !page::is_svg(#[trigger] self.known()[i])
    }

    /// Starts with the first page, where the score page names its image.
    pub fn new(total: usize, first_page_url: Option<&str>) -> (p: Self)
        requires
            total >= 1,
            first_page_url is Some ==> !page::is_svg(first_page_url->0@),
        ensures
            p.wf(),
            p.pages() == total,
            p.known() == (match first_page_url {
                Some(url) => seq![url@],
                None => Seq::empty(),
            }),
    {
        let mut urls: Vec<String> = Vec::new();
        if let Some(url) = first_page_url {
            urls.push(text::owned(url));
        }
        let p = PageUrls { urls, total };
        assert(p.known() =~= (match first_page_url {
            Some(url) => seq![url@],
            None => Seq::empty(),
        }));
        p
    }

    /// The page whose address is asked for next; none where all are known.
    pub fn next_page(&self) -> (r: Option<usize>)
        requires
            self.wf(),
        ensures
            match r {
                Some(i) => i == self.known().len() && i < self.pages(),
                None => self.known().len() == self.pages(),
            },
    {
        if self.urls.len() < self.total {
            Some(self.urls.len())
        } else {
            None
        }
    }

    /// Takes the address of the next page. That of an SVG image is refused.
    pub fn resolved(&mut self, url: String) -> (r: Result<(), PlanError>)
        requires
            old(self).wf(),
            old(self).known().len() < old(self).pages(),
        ensures
            final(self).wf(),
            final(self).pages() == old(self).pages(),
            if page::is_svg(url@) {
                r == Err::<(), PlanError>(PlanError::Svg) && final(self).known() == old(
                    self,
                ).known()
            } else {
                r == Ok::<(), PlanError>(()) && final(self).known() == old(self).known().push(url@)
            },
    {
        if page::is_svg_asset(url.as_str()) {
            return Err(PlanError::Svg);
        }
        let ghost u = url@;
        self.urls.push(url);
        assert(self.known() =~= old(self).known().push(u));
        Ok(())
    }

    /// The addresses of all pages, in page order.
    pub fn finish(self) -> (urls: Vec<String>)
        requires
            self.wf(),
            self.known().len() == self.pages(),
        ensures
            text::views(urls@) == self.known(),
    {
        self.urls
    }
}

// ----- The page images -----

/// How many bytes a list of images takes.
pub open spec fn total_len(images: Seq<Vec<u8>>) -> nat
    decreases images.len(),
{
    if images.len() == 0 {
        0
    } else {
        total_len(images.drop_last()) + images.last()@.len()
    }
}

/// The front part of a list takes no more bytes than the list.
pub proof fn front_is_no_longer(images: Seq<Vec<u8>>, n: int)
    requires
        0 <= n <= images.len(),
    ensures
        total_len(images.take(n)) <= total_len(images),
    decreases images.len(),
{
    if n < images.len() {
        assert(images.drop_last().take(n) =~= images.take(n));
        front_is_no_longer(images.drop_last(), n);
    } else {
        assert(images.take(n) =~= images);
    }
}

/// The page images that have been fetched, together within a limit.
pub struct PageImages {
    images: Vec<Vec<u8>>,
    running: usize,
    max_bytes: usize,
}

impl PageImages {
    /// The images, in page order.
    pub closed spec fn pages(self) -> Seq<Vec<u8>> {
        self.images@
    }

    pub closed spec fn limit(self) -> usize {
        self.max_bytes
    }

    /// The running total is that of the images.
    pub closed spec fn is_counted(self) -> bool {
        self.running == total_len(self.images@)
    }

    /// The invariant: the images are together within the limit.
    pub open spec fn wf(self) -> bool {
        self.is_counted() && total_len(self.pages()) <= self.limit()
    }

    pub fn new(max_bytes: usize) -> (p: Self)
        ensures
            p.wf(),
            p.pages() == Seq::<Vec<u8>>::empty(),
            p.limit() == max_bytes,
    {
        PageImages { images: Vec::new(), running: 0, max_bytes }
    }

    /// Takes the next image. One that would bring the total over the limit is
    /// refused.
    pub fn push(&mut self, image: Vec<u8>) -> (r: Result<(), TooLarge>)
        requires
            old(self).wf(),
        ensures
            final(self).wf(),
            final(self).limit() == old(self).limit(),
            if total_len(old(self).pages()) + image@.len() > old(self).limit() {
                r == Err::<(), TooLarge>(TooLarge::Streamed) && final(self).pages() == old(
                    self,
                ).pages()
            } else {
                r == Ok::<(), TooLarge>(()) && final(self).pages() == old(self).pages().push(image)
            },
    {
        let n = image.len();
        if n > self.max_bytes - self.running {
            return Err(TooLarge::Streamed);
        }
        self.running = self.running + n;
        self.images.push(image);
        assert(self.images@.drop_last() =~= old(self).images@);
        Ok(())
    }

    /// The images, in page order.
    pub fn into_images(self) -> (images: Vec<Vec<u8>>)
        requires
            self.wf(),
        ensures
            images@ == self.pages(),
            total_len(images@) <= self.limit(),
    {
        self.images
    }
}

// ----- What the rules above amount to -----

/// As many pages are fetched as the score says, and one where it says none or
/// nothing; two hundred are the most.
pub proof fn at_least_one_page_is_fetched(n: usize)
    ensures
        planned_pages(None) == 1,
        planned_pages(Some(0)) == 1,
        n >= 1 ==> planned_pages(Some(n)) == n,
        MAX_PAGES == 200,
{
}

/// The salt comes from the first script that holds one: scripts before it that
/// could not be fetched or hold none do not count, and no script after it
/// does. Where no script holds one, there is none.
pub proof fn the_first_salt_counts(scripts: Seq<Option<Seq<char>>>, i: int)
    requires
        0 <= i <= scripts.len(),
        forall|j: int|
            0 <= j < i ==> ((#[trigger] scripts[j]) is None || page::salt_from(scripts[j]->0, 0)
                is None),
    ensures
        i < scripts.len() && scripts[i] is Some && page::salt_from(scripts[i]->0, 0) is Some
            ==> first_salt(scripts, 0) == Some((i, page::salt_from(scripts[i]->0, 0)->0)),
        i == scripts.len() ==> first_salt(scripts, 0) is None,
{
    search_goes_on(scripts, i);
}

/// The salt that was found is tried first, the known one last, and none
/// twice.
pub proof fn the_found_salt_is_tried_first(salt: Seq<char>)
    ensures
        candidates_of(Some(salt))[0] == salt,
        candidates_of(Some(salt)).last() == "9654,4e"@,
        candidates_of(Some(salt)).len() == (if salt == "9654,4e"@ {
            1nat
        } else {
            2
        }),
        candidates_of(None) == seq!["9654,4e"@],
{
}

/// What a hexadecimal digit stands for.
pub open spec fn hex_value(c: char) -> int {
    if '0' <= c <= '9' {
        c as int - '0' as int
    } else {
        c as int - 'a' as int + 10
    }
}

/// A token is the number that the first two bytes of a digest make, the first
/// of them the higher one, in four hexadecimal digits.
pub proof fn tokens_are_the_first_two_bytes(digest: Seq<u8>)
    ensures
        ({
            let t = token_of_digest(digest);
            hex_value(t[0]) * 4096 + hex_value(t[1]) * 256 + hex_value(t[2]) * 16 + hex_value(t[3])
                == digest[0] * 256 + digest[1]
        }),
        forall|other: Seq<u8>|
            other[0] == digest[0] && other[1] == digest[1] ==> #[trigger] token_of_digest(other)
                == token_of_digest(digest),
{
    let t = token_of_digest(digest);
    assert(hex_value(t[0]) == digest[0] / 16);
    assert(hex_value(t[1]) == digest[0] % 16);
    assert(hex_value(t[2]) == digest[1] / 16);
    assert(hex_value(t[3]) == digest[1] % 16);
}

/// The digest is taken over the score, the kind of media, the page and the
/// salt, one directly behind the other and in this order: moving text from the
/// end of one to the front of the next changes nothing.
pub proof fn tokens_are_over_the_texts_in_order(
    salt: Seq<char>,
    score_id: Seq<char>,
    media_type: Seq<char>,
    moved: Seq<char>,
    index: nat,
    digit: nat,
)
    requires
        index > 0,
        digit < 10,
    ensures
        token_of(salt, score_id + moved, media_type, index) == token_of(
            salt,
            score_id,
            moved + media_type,
            index,
        ),
        token_of(salt, score_id, media_type, index * 10 + digit) == token_of(
            text::number::decimal(digit) + salt,
            score_id,
            media_type,
            index,
        ),
        token_of(salt, score_id, media_type + text::number::decimal(index), digit) == token_of(
            salt,
            score_id,
            media_type,
            index * 10 + digit,
        ),
        token_of(Seq::empty(), Seq::empty(), Seq::empty(), index) == token_of_digest(
            codec::md5_of(utf8::encode_utf8(text::number::decimal(index))),
        ),
{
    let n = index * 10 + digit;
    assert(n / 10 == index && n % 10 == digit);
    let tens = text::number::decimal(index);
    let one = text::number::decimal(digit);
    assert(text::number::decimal(n) =~= tens + one);
    assert((score_id + moved) + media_type + tens + salt =~= score_id + (moved + media_type) + tens
        + salt);
    assert(score_id + media_type + (tens + one) + salt =~= score_id + media_type + tens + (one
        + salt));
    assert(score_id + (media_type + tens) + one + salt =~= score_id + media_type + (tens + one)
        + salt);
    let e = Seq::<char>::empty();
    assert(e + e + tens + e =~= tens);
}

/// The address of a page image is asked for by the score, the page and the
/// kind of media, each under its name.
pub proof fn requests_name_score_page_and_kind(id: Seq<char>, media_type: Seq<char>, index: nat)
    ensures
        "https://musescore.com/api/jmuse?id="@.is_prefix_of(jmuse_request(id, media_type, index)),
        media_type.is_suffix_of(jmuse_request(id, media_type, index)),
        text::search::contains(jmuse_request(id, media_type, index), "jmuse?id="@ + id + "&index="@),
        text::search::contains(
            jmuse_request(id, media_type, index),
            "&index="@ + text::number::decimal(index) + "&type="@ + media_type,
        ),
{
    let s = jmuse_request(id, media_type, index);
    let head = "https://musescore.com/api/jmuse?id="@;
    let number = text::number::decimal(index);
    reveal_strlit("https://musescore.com/api/jmuse?id=");
    reveal_strlit("jmuse?id=");
    assert(s.subrange(0, head.len() as int) =~= head);
    assert(s.subrange(s.len() - media_type.len(), s.len() as int) =~= media_type);
    let a = "jmuse?id="@ + id + "&index="@;
    assert(s.subrange(26, 26 + a.len() as int) =~= a);
    assert(text::search::occurs_at(s, a, 26));
    let b = "&index="@ + number + "&type="@ + media_type;
    let k = head.len() as int + id.len();
    assert(s.subrange(k, k + b.len()) =~= b);
    assert(text::search::occurs_at(s, b, k));
}

/// The images of two lists together take what each list takes.
pub proof fn lengths_add_up(a: Seq<Vec<u8>>, b: Seq<Vec<u8>>, image: Vec<u8>)
    ensures
        total_len(a + b) == total_len(a) + total_len(b),
        total_len(seq![image]) == image@.len(),
        total_len(Seq::empty()) == 0,
    decreases b.len(),
{
    assert(seq![image].drop_last() =~= Seq::<Vec<u8>>::empty());
    assert(total_len(Seq::<Vec<u8>>::empty()) == 0);
    if b.len() == 0 {
        assert(a + b =~= a);
    } else {
        assert((a + b).drop_last() =~= a + b.drop_last());
        lengths_add_up(a, b.drop_last(), image);
    }
}

} // verus!
