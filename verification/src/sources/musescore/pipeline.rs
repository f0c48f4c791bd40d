//! A download from the score page to the page images, as a run of requests.
//!
//! First the scripts are fetched one by one until one gives the salt. Then
//! the address of each page image is asked for, page by page, with one salt
//! after the other until one is accepted. Then the images are fetched, a few
//! at a time.

use crate::sources::download::TooLarge;
use crate::sources::musescore::download;
use crate::sources::musescore::download::{
    CachedAlgorithm,
    PageImages,
    PageUrls,
    PlanError,
    SaltBook,
    SaltSearch,
    ScorePage,
};
use crate::sources::musescore::page;
use crate::text;
use vstd::prelude::*;

verus! {

/// Why a download failed.
#[derive(Debug)]
pub enum DownloadError {
    /// The pages cannot be fetched.
    Plan(PlanError),
    /// No salt was accepted for this page; with what the last refusal said.
    Refused { index: usize, reason: String },
    /// The images are too large.
    TooLarge(TooLarge),
}

/// The scripts are being looked through for the salt.
pub struct SaltPhase {
    search: SaltSearch,
    first_page_url: Option<String>,
    total: usize,
}

/// The addresses of the page images are being asked for.
pub struct PagesPhase {
    book: SaltBook,
    urls: PageUrls,
    tried: usize,
}

/// The page images are being fetched.
pub struct ImagesPhase {
    urls: Vec<String>,
    images: PageImages,
    next: usize,
}

/// How a download goes on.
pub enum Progress {
    /// A script is to be fetched.
    Salt(SaltPhase),
    /// The address of a page image is to be asked for.
    Pages(PagesPhase),
    /// Page images are to be fetched.
    Images(ImagesPhase),
    /// All page images are there.
    Done(Vec<Vec<u8>>),
    /// The download failed.
    Failed(DownloadError),
}

impl SaltPhase {
    /// The scripts that are looked through.
    pub closed spec fn scripts(self) -> Seq<Seq<char>> {
        self.search.scripts()
    }

    /// How many have been looked through.
    pub closed spec fn done(self) -> int {
        self.search.done()
    }

    /// The image of the first page, where the score page names it.
    pub closed spec fn first_page(self) -> Option<Seq<char>> {
        text::view_opt(self.first_page_url)
    }

    /// How many pages there are.
    pub closed spec fn pages(self) -> nat {
        self.total as nat
    }

    /// The invariant: there is a script to fetch, there are pages, and the
    /// first page is not an SVG image.
    pub open spec fn wf(self) -> bool {
        &&& 0 <= self.done() < self.scripts().len()
        &&& 1 <= self.pages() <= usize::MAX
        &&& self.first_page() is Some ==> !page::is_svg(self.first_page()->0)
    }
}

impl PagesPhase {
    /// The salts to try, in order.
    pub closed spec fn salts(self) -> Seq<Seq<char>> {
        self.book.salts()
    }

    /// How many of them were refused for the page that is asked for.
    pub closed spec fn refused(self) -> nat {
        self.tried as nat
    }

    /// The addresses of the first pages.
    pub closed spec fn known(self) -> Seq<Seq<char>> {
        self.urls.known()
    }

    /// How many pages there are.
    pub closed spec fn pages(self) -> nat {
        self.urls.pages()
    }

    /// The invariant: there is a page to ask for and a salt to try, and no
    /// address is that of an SVG image.
    pub closed spec fn wf(self) -> bool {
        &&& self.urls.wf()
        &&& self.urls.known().len() < self.urls.pages()
        &&& self.tried < self.book.salts().len()
        &&& self.book.salts().len() <= 2
    }

    /// How many requests may still be made.
    pub open spec fn requests_left(self) -> int {
        2 * (self.pages() - self.known().len()) - self.refused()
    }
}

impl ImagesPhase {
    /// The addresses of all pages.
    pub closed spec fn addresses(self) -> Seq<Seq<char>> {
        text::views(self.urls@)
    }

    /// The images that are there.
    pub closed spec fn images(self) -> Seq<Vec<u8>> {
        self.images.pages()
    }

    /// The limit for all images together.
    pub closed spec fn limit(self) -> usize {
        self.images.limit()
    }

    /// The invariant: there is an image to fetch, and those that are there
    /// are within the limit.
    pub closed spec fn wf(self) -> bool {
        &&& self.images.wf()
        &&& self.images.pages().len() == self.next
        &&& self.next < self.urls@.len()
    }
}

/// The pages phase with `found` as the salt.
pub open spec fn asks(p: PagesPhase, found: Option<Seq<char>>, known: Seq<Seq<char>>, pages: nat) -> bool {
    &&& p.wf()
    &&& p.salts() == download::candidates_of(found)
    &&& p.refused() == 0
    &&& p.known() == known
    &&& p.pages() == pages
}

/// The images phase for these addresses, none of whose images is there.
pub open spec fn fetches(p: ImagesPhase, addresses: Seq<Seq<char>>, max_bytes: usize) -> bool {
    &&& p.wf()
    &&& p.addresses() == addresses
    &&& p.images() == Seq::<Vec<u8>>::empty()
    &&& p.limit() == max_bytes
}

/// How a download goes on once the salt is settled: with the pages whose
/// address is not known, and with the images where all are.
pub open spec fn settled(
    r: Progress,
    found: Option<Seq<char>>,
    first: Option<Seq<char>>,
    pages: nat,
    max_bytes: usize,
) -> bool {
    let known = match first {
        Some(u) => seq![u],
        None => Seq::empty(),
    };
    if known.len() < pages {
        r matches Progress::Pages(p) && asks(p, found, known, pages)
    } else {
        r matches Progress::Images(p) && fetches(p, known, max_bytes)
    }
}

fn settle(
    found: Option<String>,
    first_page_url: Option<String>,
    total: usize,
    max_bytes: usize,
) -> (r: Progress)
    requires
        total >= 1,
        first_page_url is Some ==> !page::is_svg(first_page_url->0@),
    ensures
        settled(
            r,
            text::view_opt(found),
            text::view_opt(first_page_url),
            total as nat,
            max_bytes,
        ),
{
    let first = match &first_page_url {
        Some(u) => Some(u.as_str()),
        None => None,
    };
    let urls = PageUrls::new(total, first);
    let book = SaltBook::new(found);
    match urls.next_page() {
        Some(_) => Progress::Pages(PagesPhase { book, urls, tried: 0 }),
        None => Progress::Images(
            ImagesPhase { urls: urls.finish(), images: PageImages::new(max_bytes), next: 0 },
        ),
    }
}

/// Starts a download from what a score page tells. The salt that was found
/// earlier serves where the page still names its script; otherwise the
/// scripts are looked through, where there are any.
pub fn start(page: ScorePage, cached: &Option<CachedAlgorithm>, max_bytes: usize) -> (r: Progress)
    ensures
        ({
            let first = text::view_opt(page.first_page_url);
            let pages = download::planned_pages(page.pages_count);
            let scripts = text::views(page.bundle_urls@);
            if pages > download::MAX_PAGES {
                r == Progress::Failed(DownloadError::Plan(PlanError::TooManyPages(pages)))
            } else if first is Some && page::is_svg(first->0) {
                r == Progress::Failed(DownloadError::Plan(PlanError::Svg))
            } else if *cached is Some && scripts.contains((*cached)->0.bundle_url@) {
                settled(r, Some((*cached)->0.random_token@), first, pages as nat, max_bytes)
            } else if scripts.len() > 0 {
                r matches Progress::Salt(p) && p.wf() && p.scripts() == scripts && p.done() == 0
                    && p.first_page() == first && p.pages() == pages
            } else {
                settled(r, None, first, pages as nat, max_bytes)
            }
        }),
{
    let first = match &page.first_page_url {
        Some(u) => Some(u.as_str()),
        None => None,
    };
    let total = match download::plan_pages(page.pages_count, first) {
        Ok(n) => n,
        Err(e) => {
            return Progress::Failed(DownloadError::Plan(e));
        },
    };
    if let Some(salt) = download::cached_salt(cached, &page.bundle_urls) {
        return settle(Some(salt), page.first_page_url, total, max_bytes);
    }
    if page.bundle_urls.len() == 0 {
        return settle(None, page.first_page_url, total, max_bytes);
    }
    Progress::Salt(
        SaltPhase {
            search: SaltSearch::new(page.bundle_urls),
            first_page_url: page.first_page_url,
            total,
        },
    )
}

impl SaltPhase {
    /// The script to fetch.
    pub fn url(&self) -> (url: String)
        requires
            self.wf(),
        ensures
            url@ == self.scripts()[self.done()],
    {
        match self.search.next_url() {
            Some(u) => text::owned(u),
            None => String::new(),
        }
    }

    /// Takes the script, or that it could not be fetched. Where it holds the
    /// salt, or was the last one, the pages follow; otherwise the next script
    /// does. A salt is given back with its script, to be remembered.
    pub fn script(self, script: Option<&str>, max_bytes: usize) -> (r: (
        Option<CachedAlgorithm>,
        Progress,
    ))
        requires
            self.wf(),
        ensures
            ({
                let salt = match script {
                    Some(s) => page::salt_from(s@, 0),
                    None => None,
                };
                match salt {
                    Some(s) => {
                        &&& r.0 matches Some(c) && c.random_token@ == s && c.bundle_url@
                            == self.scripts()[self.done()]
                        &&& settled(r.1, Some(s), self.first_page(), self.pages(), max_bytes)
                    },
                    None => {
                        &&& r.0 is None
                        &&& if self.done() + 1 < self.scripts().len() {
                            r.1 matches Progress::Salt(p) && p.wf() && p.scripts()
                                == self.scripts() && p.done() == self.done() + 1 && p.first_page()
                                == self.first_page() && p.pages() == self.pages()
                        } else {
                            settled(r.1, None, self.first_page(), self.pages(), max_bytes)
                        }
                    },
                }
            }),
    {
        let mut search = self.search;
        match search.prepare_algorithm(script) {
            Some(found) => {
                let salt = text::owned(found.random_token.as_str());
                (Some(found), settle(Some(salt), self.first_page_url, self.total, max_bytes))
            },
            None => if search.next_url().is_some() {
                (
                    None,
                    Progress::Salt(
                        SaltPhase {
                            search,
                            first_page_url: self.first_page_url,
                            total: self.total,
                        },
                    ),
                )
            } else {
                (None, settle(None, self.first_page_url, self.total, max_bytes))
            },
        }
    }
}

/// A request for the address of a page image.
#[derive(Debug)]
pub struct PageRequest {
    pub url: String,
    pub token: String,
    pub index: usize,
}

impl PagesPhase {
    /// The request for the next page, with the token of the salt whose turn
    /// it is.
    pub fn request(&self, id: &str) -> (req: PageRequest)
        requires
            self.wf(),
        ensures
            req.index == self.known().len(),
            req.url@ == download::jmuse_request(id@, "img"@, self.known().len()),
            req.token@ == download::token_of(
                self.salts()[self.refused() as int],
                id@,
                "img"@,
                self.known().len(),
            ),
    {
        let index = match self.urls.next_page() {
            Some(i) => i,
            None => 0,
        };
        let salt = match self.book.candidate(self.tried) {
            Some(s) => s,
            None => "",
        };
        PageRequest {
            url: download::jmuse_request_url(id, "img", index),
            token: download::mint_token(salt, id, "img", index),
            index,
        }
    }

    /// Takes the answer: the address, or why there is none. An address
    /// settles the salt; that of an SVG image ends the download. A refusal
    /// makes the next salt due, where there is one.
    pub fn answer(self, answer: Result<String, String>, max_bytes: usize) -> (r: Progress)
        requires
            self.wf(),
        ensures
            match answer {
                Ok(url) => if page::is_svg(url@) {
                    r == Progress::Failed(DownloadError::Plan(PlanError::Svg))
                } else if self.known().len() + 1 < self.pages() {
                    r matches Progress::Pages(p) && p.wf() && p.salts()
                        == seq![self.salts()[self.refused() as int]] && p.refused() == 0
                        && p.known() == self.known().push(url@) && p.pages() == self.pages()
                        && p.requests_left() < self.requests_left()
                } else {
                    r matches Progress::Images(p) && fetches(
                        p,
                        self.known().push(url@),
                        max_bytes,
                    )
                },
                Err(reason) => if self.refused() + 1 < self.salts().len() {
                    r matches Progress::Pages(p) && p.wf() && p.salts() == self.salts()
                        && p.refused() == self.refused() + 1 && p.known() == self.known()
                        && p.pages() == self.pages() && p.requests_left() < self.requests_left()
                } else {
                    r matches Progress::Failed(DownloadError::Refused { index, reason: told })
                        && index == self.known().len() && told == reason
                },
            },
    {
        let mut urls = self.urls;
        let mut book = self.book;
        match answer {
            Ok(url) => {
                book.accepted(self.tried);
                match urls.resolved(url) {
                    Ok(_) => {},
                    Err(e) => {
                        return Progress::Failed(DownloadError::Plan(e));
                    },
                }
                match urls.next_page() {
                    Some(_) => Progress::Pages(PagesPhase { book, urls, tried: 0 }),
                    None => {
                        let addresses = urls.finish();
                        Progress::Images(
                            ImagesPhase {
                                urls: addresses,
                                images: PageImages::new(max_bytes),
                                next: 0,
                            },
                        )
                    },
                }
            },
            Err(reason) => if book.candidate(self.tried + 1).is_some() {
                Progress::Pages(PagesPhase { book, urls, tried: self.tried + 1 })
            } else {
                let index = match urls.next_page() {
                    Some(i) => i,
                    None => 0,
                };
                Progress::Failed(DownloadError::Refused { index, reason })
            },
        }
    }
}

/// The position behind the images that are fetched next.
pub open spec fn chunk_end(next: int, total: int) -> int {
    if total - next <= download::PNG_FETCH_CONCURRENCY {
        total
    } else {
        next + download::PNG_FETCH_CONCURRENCY
    }
}

impl ImagesPhase {
    /// The addresses of the images to fetch next: a few at a time.
    pub fn chunk(&self) -> (urls: Vec<String>)
        requires
            self.wf(),
        ensures
            text::views(urls@) == self.addresses().subrange(
                self.images().len() as int,
                chunk_end(self.images().len() as int, self.addresses().len() as int),
            ),
            0 < urls@.len() <= download::PNG_FETCH_CONCURRENCY,
    {
        let len = self.urls.len();
        let end: usize = if len - self.next <= download::PNG_FETCH_CONCURRENCY {
            len
        } else {
            self.next + download::PNG_FETCH_CONCURRENCY
        };
        let ghost all = self.addresses();
        let mut out: Vec<String> = Vec::new();
        assert(text::views(out@) =~= all.subrange(self.next as int, self.next as int));
        for i in self.next..end
            invariant
                self.next <= end <= self.urls@.len(),
                all == text::views(self.urls@),
                text::views(out@) == all.subrange(self.next as int, i as int),
        {
            let ghost before = text::views(out@);
            out.push(text::owned(self.urls[i].as_str()));
            assert(text::views(out@) =~= before.push(all[i as int]));
            assert(all.subrange(self.next as int, i + 1) =~= before.push(all[i as int]));
        }
        assert(out@.len() == text::views(out@).len());
        out
    }

    /// Takes the images that were fetched, in page order. Where they bring
    /// the total over the limit, the download fails.
    pub fn arrived(self, chunk: Vec<Vec<u8>>) -> (r: Progress)
        requires
            self.wf(),
            chunk@.len() == chunk_end(
                self.images().len() as int,
                self.addresses().len() as int,
            ) - self.images().len(),
        ensures
            ({
                let all = self.images() + chunk@;
                if download::total_len(all) > self.limit() {
                    r == Progress::Failed(DownloadError::TooLarge(TooLarge::Streamed))
                } else if all.len() < self.addresses().len() {
                    r matches Progress::Images(p) && p.wf() && p.images() == all && p.addresses()
                        == self.addresses() && p.limit() == self.limit()
                } else {
                    r matches Progress::Done(images) && images@ == all
                }
            }),
    {
        let ghost me = self;
        let ghost goal = self.images() + chunk@;
        let len: usize = self.urls.len();
        let n: usize = chunk.len();
        let mut images = self.images;
        let mut rest = chunk;
        while rest.len() > 0
            invariant
                images.wf(),
                images.limit() == me.limit(),
                goal == images.pages() + rest@,
                goal == me.images() + chunk@,
                me == self,
            decreases rest@.len(),
        {
            let ghost before = images.pages();
            let ghost tail = rest@;
            let image = rest.remove(0);
            assert(before.push(image) + rest@ =~= before + tail);
            proof {
                download::front_is_no_longer(goal, before.len() as int + 1);
                assert(goal.take(before.len() as int + 1) =~= before.push(image));
                assert(before.push(image).drop_last() =~= before);
            }
            if let Err(e) = images.push(image) {
                return Progress::Failed(DownloadError::TooLarge(e));
            }
        }
        assert(goal =~= images.pages());
        let next = self.next + n;
        if next < self.urls.len() {
            Progress::Images(ImagesPhase { urls: self.urls, images, next })
        } else {
            Progress::Done(images.into_images())
        }
    }
}

// ----- What the steps amount to -----

/// Once the salt is settled, the addresses of all pages but the first are
/// asked for, and that of the first too where the score page does not name it:
/// first with the salt that was found, then with the known one. A score of one
/// page whose address is known goes on with that image.
pub proof fn only_unknown_pages_are_asked_for(
    r: Progress,
    salt: Seq<char>,
    first: Seq<char>,
    pages: nat,
    max_bytes: usize,
)
    requires
        pages >= 1,
    ensures
        settled(r, Some(salt), Some(first), pages, max_bytes) && pages >= 2 ==> (r matches
            Progress::Pages(p) && p.wf() && p.known() == seq![first] && p.pages() == pages
            && p.refused() == 0 && p.salts()[0] == salt && p.salts().last() == "9654,4e"@),
        settled(r, Some(salt), None, pages, max_bytes) ==> (r matches Progress::Pages(p) && p.wf()
            && p.known().len() == 0 && p.pages() == pages && p.refused() == 0 && p.salts()[0]
            == salt && p.salts().last() == "9654,4e"@),
        settled(r, None, None, pages, max_bytes) ==> (r matches Progress::Pages(p) && p.wf()
            && p.known().len() == 0 && p.pages() == pages && p.refused() == 0 && p.salts() == seq![
            "9654,4e"@,
        ]),
        settled(r, Some(salt), Some(first), 1, max_bytes) ==> (r matches Progress::Images(p)
            && p.wf() && p.addresses() == seq![first] && p.images().len() == 0 && p.limit()
            == max_bytes),
{
}

/// Images are fetched four at a time, and the rest where fewer are left: every
/// turn fetches some, and none goes past the last.
pub proof fn images_come_four_at_a_time(next: int, total: int)
    requires
        0 <= next < total,
    ensures
        next < chunk_end(next, total) <= total,
        chunk_end(next, total) == total || chunk_end(next, total) == next + 4,
        next + 4 <= total ==> chunk_end(next, total) == next + 4,
{
}

} // verus!
