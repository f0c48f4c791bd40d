//! The caches for search results: what an entry is filed under, how long it
//! lasts, and what a request does with what the two tiers hold.

use crate::clock;
use crate::sources::{Instrument, SearchResult};
use crate::text;
use vstd::prelude::*;

verus! {

/// How long results last, in seconds.
pub const CACHE_TTL_SECS: u64 = 60;

/// How long results of MuseScore last, in seconds: a week.
pub const MUSESCORE_CACHE_TTL_SECS: u64 = 604_800;

pub const CACHE_MAX_ENTRIES: u64 = 1000;

/// How long thumbnails last, in seconds: a day.
pub const THUMBNAIL_CACHE_TTL_SECS: u64 = 86_400;

pub const THUMBNAIL_CACHE_MAX_ENTRIES: u64 = 5000;

pub const THUMBNAIL_BYTES_CACHE_MAX_ENTRIES: u64 = 500;

/// The character between the fields of a key.
pub const SEPARATOR: char = '\u{1f}';

/// What an entry is filed under.
#[derive(Debug, Hash, PartialEq, Eq)]
pub struct CacheKey {
    pub source: &'static str,
    pub query: String,
    /// How many results were asked for: the entry for a longer list is
    /// another one.
    pub limit: usize,
    pub instrument: Option<Instrument>,
}

/// The textual form of a key: source, limit, instrument and query, with a
/// separator between them.
pub open spec fn key_text(
    source: Seq<char>,
    limit: nat,
    instrument: Option<Instrument>,
    query: Seq<char>,
) -> Seq<char> {
    source + seq![SEPARATOR] + (text::number::decimal(limit) + seq![SEPARATOR] + (instrument_text(
        instrument,
    ) + seq![SEPARATOR] + query))
}

/// The instrument in the textual form of a key.
pub open spec fn instrument_text(instrument: Option<Instrument>) -> Seq<char> {
    match instrument {
        Some(i) => i.slug_of(),
        None => Seq::empty(),
    }
}

/// How long an entry of a source lasts, in seconds.
pub open spec fn ttl_of(source: Seq<char>) -> u64 {
    if source == "musescore"@ {
        MUSESCORE_CACHE_TTL_SECS
    } else {
        CACHE_TTL_SECS
    }
}

impl Clone for CacheKey {
    fn clone(&self) -> (k: Self)
        ensures
            k.source@ == self.source@,
            k.query@ == self.query@,
            k.limit == self.limit,
            k.instrument == self.instrument,
    {
        CacheKey {
            source: self.source,
            query: text::owned(self.query.as_str()),
            limit: self.limit,
            instrument: self.instrument,
        }
    }
}

impl CacheKey {
    /// The textual form of the key.
    pub open spec fn text(self) -> Seq<char> {
        key_text(self.source@, self.limit as nat, self.instrument, self.query@)
    }

    /// How long the entry lasts, in nanoseconds.
    pub open spec fn ttl_nanos(self) -> int {
        ttl_of(self.source@) * clock::NANOS_PER_SEC
    }

    /// The textual form of the key, which is the same in every process.
    pub fn l2_key(&self) -> (k: String)
        ensures
            k@ == self.text(),
    {
        let mut k = text::owned(self.source);
        k.push(SEPARATOR);
        k.append(text::number::to_decimal(self.limit as u64).as_str());
        k.push(SEPARATOR);
        if let Some(i) = self.instrument {
            k.append(i.slug());
        }
        k.push(SEPARATOR);
        k.append(self.query.as_str());
        assert(k@ =~= self.text());
        k
    }

    /// How long the entry lasts, in seconds.
    pub fn ttl(&self) -> (secs: u64)
        ensures
            secs == ttl_of(self.source@),
    {
        if text::same(self.source, "musescore") {
            MUSESCORE_CACHE_TTL_SECS
        } else {
            CACHE_TTL_SECS
        }
    }
}

/// `c` does not occur in `s`.
pub open spec fn free_of(s: Seq<char>, c: char) -> bool {
    forall|i: int| 0 <= i < s.len() ==> #[trigger] s[i] != c
}

/// A text up to its first separator, and the text behind it, can be told.
proof fn first_field(a: Seq<char>, x: Seq<char>, b: Seq<char>, y: Seq<char>, c: char)
    requires
        free_of(a, c),
        free_of(b, c),
        a + seq![c] + x == b + seq![c] + y,
    ensures
        a == b,
        x == y,
{
    let s = a + seq![c] + x;
    let t = b + seq![c] + y;
    assert(s[a.len() as int] == c);
    assert(t[b.len() as int] == c);
    if a.len() < b.len() {
        assert(t[a.len() as int] == b[a.len() as int]);
    }
    if b.len() < a.len() {
        assert(s[b.len() as int] == a[b.len() as int]);
    }
    assert(a =~= s.take(a.len() as int));
    assert(b =~= t.take(b.len() as int));
    assert(x =~= s.skip(a.len() as int + 1));
    assert(y =~= t.skip(b.len() as int + 1));
}

proof fn slug_is_free(i: Option<Instrument>)
    ensures
        free_of(instrument_text(i), SEPARATOR),
{
    reveal_strlit("piano");
    reveal_strlit("guitar");
    reveal_strlit("violin");
    reveal_strlit("viola");
    reveal_strlit("cello");
    reveal_strlit("flute");
    reveal_strlit("clarinet");
    reveal_strlit("voice");
    reveal_strlit("choral");
    reveal_strlit("organ");
}

/// Two keys with the same textual form agree in every field, whatever their
/// queries hold. Only the sources must be free of the separator.
pub proof fn keys_are_distinguished(
    s1: Seq<char>,
    n1: nat,
    i1: Option<Instrument>,
    q1: Seq<char>,
    s2: Seq<char>,
    n2: nat,
    i2: Option<Instrument>,
    q2: Seq<char>,
)
    requires
        free_of(s1, SEPARATOR),
        free_of(s2, SEPARATOR),
        key_text(s1, n1, i1, q1) == key_text(s2, n2, i2, q2),
    ensures
        s1 == s2,
        n1 == n2,
        i1 == i2,
        q1 == q2,
{
    let sep = seq![SEPARATOR];
    let r1 = instrument_text(i1) + sep + q1;
    let r2 = instrument_text(i2) + sep + q2;
    let d1 = text::number::decimal(n1);
    let d2 = text::number::decimal(n2);
    first_field(s1, d1 + sep + r1, s2, d2 + sep + r2, SEPARATOR);
    text::number::decimal_is_digits(n1);
    text::number::decimal_is_digits(n2);
    assert forall|i: int| 0 <= i < d1.len() implies #[trigger] d1[i] != SEPARATOR by {
        assert(text::is_digit(d1[i]));
    }
    assert forall|i: int| 0 <= i < d2.len() implies #[trigger] d2[i] != SEPARATOR by {
        assert(text::is_digit(d2[i]));
    }
    first_field(d1, r1, d2, r2, SEPARATOR);
    text::number::decimal_injective(n1, n2);
    slug_is_free(i1);
    slug_is_free(i2);
    first_field(instrument_text(i1), q1, instrument_text(i2), q2, SEPARATOR);
    Instrument::slugs_differ();
    reveal_strlit("piano");
    reveal_strlit("guitar");
    reveal_strlit("violin");
    reveal_strlit("viola");
    reveal_strlit("cello");
    reveal_strlit("flute");
    reveal_strlit("clarinet");
    reveal_strlit("voice");
    reveal_strlit("choral");
    reveal_strlit("organ");
    match (i1, i2) {
        (Some(a), Some(b)) => assert(a.slug_of() == b.slug_of()),
        (Some(a), None) => assert(a.slug_of().len() > 0),
        (None, Some(b)) => assert(b.slug_of().len() > 0),
        (None, None) => {},
    }
}

// ----- The durable tier -----

/// How old a row of the durable tier is.
#[derive(Debug, Clone, Copy, PartialEq, Eq, Structural)]
pub enum Age {
    /// Within its time.
    Fresh,
    /// Past its time, but within one more.
    Stale,
    /// Older, or of an unknown age.
    Dead,
}

/// How old a row is at the instant `now` that expires at `expires`.
pub open spec fn age_of(expires: Option<i128>, ttl_nanos: int, now: i128) -> Age {
    match expires {
        Some(t) => if now > t + ttl_nanos {
            Age::Dead
        } else if now < t {
            Age::Fresh
        } else {
            Age::Stale
        },
        None => Age::Dead,
    }
}

/// A row of the durable tier.
#[derive(Debug)]
pub struct Row {
    /// When it expires, in the form of RFC 3339.
    pub expires_at: String,
    /// The results in it; none where they cannot be read.
    pub results: Option<Vec<SearchResult>>,
}

/// What a look into the durable tier gives.
#[derive(Debug)]
pub enum L2Lookup {
    Fresh(Vec<SearchResult>),
    Stale(Vec<SearchResult>),
    /// Nothing that can be served. `sweep` asks for the row to be deleted.
    Miss { sweep: bool },
}

/// What a look into the durable tier gives for a row: its results where it is
/// fresh or stale and they can be read, and nothing otherwise. A row that
/// gives nothing is to be deleted.
pub open spec fn looked_up(row: Option<Row>, ttl_nanos: int, now: i128) -> L2Lookup {
    match row {
        None => L2Lookup::Miss { sweep: false },
        Some(row) => match (age_of(clock::instant_of(row.expires_at@), ttl_nanos, now), row.results) {
            (Age::Fresh, Some(results)) => L2Lookup::Fresh(results),
            (Age::Stale, Some(results)) => L2Lookup::Stale(results),
            _ => L2Lookup::Miss { sweep: true },
        },
    }
}

/// How old a row is.
pub fn age(expires: Option<i128>, ttl_secs: u64, now: i128) -> (a: Age)
    requires
        expires matches Some(t) ==> clock::can_be_written(t),
    ensures
        a == age_of(expires, ttl_secs * clock::NANOS_PER_SEC, now),
{
    match expires {
        Some(t) => {
            let grace: i128 = ttl_secs as i128 * clock::NANOS_PER_SEC;
            if now > t + grace {
                Age::Dead
            } else if now < t {
                Age::Fresh
            } else {
                Age::Stale
            }
        },
        None => Age::Dead,
    }
}

/// What a look into the durable tier gives at the instant `now`.
pub fn get_at(key: &CacheKey, row: Option<Row>, now: i128) -> (r: L2Lookup)
    ensures
        r == looked_up(row, key.ttl_nanos(), now),
{
    match row {
        None => L2Lookup::Miss { sweep: false },
        Some(row) => {
            let expires = clock::parse_rfc3339(row.expires_at.as_str());
            match (age(expires, key.ttl(), now), row.results) {
                (Age::Fresh, Some(results)) => L2Lookup::Fresh(results),
                (Age::Stale, Some(results)) => L2Lookup::Stale(results),
                _ => L2Lookup::Miss { sweep: true },
            }
        },
    }
}

/// What a look into the durable tier gives.
pub fn get(key: &CacheKey, row: Option<Row>) -> (r: L2Lookup)
    ensures
        exists|now: i128|
            clock::in_calendar(now) && r == #[trigger] looked_up(row, key.ttl_nanos(), now),
{
    let now = clock::now();
    get_at(key, row, now)
}

/// When a new row was made and when it expires, in the form of RFC 3339.
#[derive(Debug)]
pub struct Stamps {
    pub created_at: String,
    pub expires_at: String,
}

/// The stamps of a row that is made at the instant `now`: it expires when the
/// time of its source is over. None where an instant has no such form.
pub open spec fn stamped(r: Option<Stamps>, ttl_nanos: int, now: i128) -> bool {
    match r {
        Some(s) => {
            &&& clock::YEAR_ZERO <= now
            &&& now + ttl_nanos < clock::YEAR_TEN_THOUSAND
            &&& s.created_at@ == clock::rfc3339(now)
            &&& clock::instant_of(s.created_at@) == Some(now)
            &&& s.expires_at@ == clock::rfc3339((now + ttl_nanos) as i128)
            &&& clock::instant_of(s.expires_at@) == Some((now + ttl_nanos) as i128)
        },
        None => now < clock::YEAR_ZERO || now + ttl_nanos >= clock::YEAR_TEN_THOUSAND,
    }
}

/// The stamps of a row that is made at the instant `now`.
pub fn stamps_at(key: &CacheKey, now: i128) -> (r: Option<Stamps>)
    requires
        clock::in_calendar(now),
    ensures
        stamped(r, key.ttl_nanos(), now),
{
    let expires: i128 = now + key.ttl() as i128 * clock::NANOS_PER_SEC;
    match (clock::format_rfc3339(now), clock::format_rfc3339(expires)) {
        (Some(created_at), Some(expires_at)) => Some(Stamps { created_at, expires_at }),
        _ => None,
    }
}

/// What is written for new results.
#[derive(Debug)]
pub struct Entry {
    /// The textual form of the key. The table has one row for each.
    pub cache_key: String,
    pub source: &'static str,
    pub stamps: Stamps,
    pub results: Vec<SearchResult>,
}

/// What is written for the results that came at the instant `now`; nothing
/// where an instant of its stamps has no form.
pub open spec fn entered(
    r: Option<Entry>,
    key: CacheKey,
    results: Vec<SearchResult>,
    now: i128,
) -> bool {
    match r {
        Some(e) => {
            &&& e.cache_key@ == key.text()
            &&& e.source@ == key.source@
            &&& e.results == results
            &&& stamped(Some(e.stamps), key.ttl_nanos(), now)
        },
        None => stamped(None, key.ttl_nanos(), now),
    }
}

/// What is written for the results that came at the instant `now`.
pub fn entry_at(key: &CacheKey, results: Vec<SearchResult>, now: i128) -> (r: Option<Entry>)
    requires
        clock::in_calendar(now),
    ensures
        entered(r, *key, results, now),
{
    match stamps_at(key, now) {
        Some(stamps) => Some(
            Entry { cache_key: key.l2_key(), source: key.source, stamps, results },
        ),
        None => None,
    }
}

/// What is written for new results.
pub fn entry(key: &CacheKey, results: Vec<SearchResult>) -> (r: Option<Entry>)
    ensures
        exists|now: i128| clock::in_calendar(now) && #[trigger] entered(r, *key, results, now),
{
    let now = clock::now();
    entry_at(key, results, now)
}

/// What a look finds of an entry, where its results can be read.
pub open spec fn row_of(entry: Entry) -> Row {
    Row { expires_at: entry.stamps.expires_at, results: Some(entry.results) }
}

/// The table after an entry was written: in place of the row of its key, where
/// there is one.
pub open spec fn written(table: Map<Seq<char>, Row>, entry: Entry) -> Map<Seq<char>, Row> {
    table.insert(entry.cache_key@, row_of(entry))
}

/// Of two entries for one key only the second is left, in the one row of the
/// key, and a look within its time gives its results as fresh. The rows of
/// other keys are as they were.
pub proof fn last_entry_is_served(
    table: Map<Seq<char>, Row>,
    key: CacheKey,
    earlier: Vec<SearchResult>,
    results: Vec<SearchResult>,
    first: Entry,
    second: Entry,
    made_first: i128,
    made: i128,
    now: i128,
)
    requires
        entered(Some(first), key, earlier, made_first),
        entered(Some(second), key, results, made),
        now < made + key.ttl_nanos(),
    ensures
        ({
            let after = written(written(table, first), second);
            &&& after == written(table, second)
            &&& after.dom() == table.dom().insert(key.text())
            &&& looked_up(Some(after[key.text()]), key.ttl_nanos(), now) == L2Lookup::Fresh(
                results,
            )
            &&& forall|k: Seq<char>|
                k != key.text() ==> #[trigger] after.contains_key(k) == table.contains_key(k)
                    && after[k] == table[k]
        }),
{
    let after = written(written(table, first), second);
    assert(after =~= written(table, second));
    assert(after.dom() =~= table.dom().insert(key.text()));
}

/// A row that was made at `made` is served as fresh until its time is over,
/// as stale for as long again, and not after that.
pub proof fn rows_age(
    row: Row,
    results: Vec<SearchResult>,
    stamps: Stamps,
    ttl_nanos: int,
    made: i128,
    now: i128,
)
    requires
        row.results == Some(results),
        row.expires_at@ == stamps.expires_at@,
        stamped(Some(stamps), ttl_nanos, made),
        ttl_nanos >= 0,
    ensures
        now < made + ttl_nanos ==> looked_up(Some(row), ttl_nanos, now) == L2Lookup::Fresh(results),
        made + ttl_nanos <= now <= made + 2 * ttl_nanos ==> looked_up(Some(row), ttl_nanos, now)
            == L2Lookup::Stale(results),
        now > made + 2 * ttl_nanos ==> looked_up(Some(row), ttl_nanos, now) == (L2Lookup::Miss {
            sweep: true,
        }),
{
}

// ----- A request -----

/// What a request does.
#[derive(Debug)]
pub enum Plan {
    /// Serve what the first tier holds.
    Serve(Vec<SearchResult>),
    /// Serve what the durable tier holds, and put it into the first tier.
    Warm(Vec<SearchResult>),
    /// Serve what the durable tier holds, and refresh it in the background.
    Refresh(Vec<SearchResult>),
    /// Ask the source, once for all who wait for the same results.
    Fetch,
}

/// What a request does, given what the first tier holds and what a look into
/// the durable tier gave, where there is one.
pub open spec fn planned(first: Option<Vec<SearchResult>>, durable: Option<L2Lookup>) -> Plan {
    match first {
        Some(results) => Plan::Serve(results),
        None => match durable {
            Some(L2Lookup::Fresh(results)) => Plan::Warm(results),
            Some(L2Lookup::Stale(results)) => Plan::Refresh(results),
            _ => Plan::Fetch,
        },
    }
}

/// What a request does.
pub fn cached_search(first: Option<Vec<SearchResult>>, durable: Option<L2Lookup>) -> (p: Plan)
    ensures
        p == planned(first, durable),
{
    match first {
        Some(results) => Plan::Serve(results),
        None => match durable {
            Some(L2Lookup::Fresh(results)) => Plan::Warm(results),
            Some(L2Lookup::Stale(results)) => Plan::Refresh(results),
            _ => Plan::Fetch,
        },
    }
}

/// A request waits for the source only where no tier has anything to serve.
pub proof fn waits_only_on_a_miss(first: Option<Vec<SearchResult>>, durable: Option<L2Lookup>)
    ensures
        planned(first, durable) is Fetch <==> first is None && !(durable matches Some(l)
            && l !is Miss),
{
}

/// Results of MuseScore last a week, those of every other source a minute.
pub proof fn musescore_lasts_a_week(source: Seq<char>)
    ensures
        ttl_of("musescore"@) == 7 * 24 * 60 * 60,
        source != "musescore"@ ==> ttl_of(source) == 60,
        THUMBNAIL_CACHE_TTL_SECS == 24 * 60 * 60,
{
}

/// What is served is what the tier holds: the first tier's where it holds
/// anything, else the durable tier's, put into the first tier where it is
/// fresh and asked for anew where it is stale.
pub proof fn what_is_held_is_served(
    results: Vec<SearchResult>,
    durable: Option<L2Lookup>,
    sweep: bool,
)
    ensures
        planned(Some(results), durable) == Plan::Serve(results),
        planned(None, Some(L2Lookup::Fresh(results))) == Plan::Warm(results),
        planned(None, Some(L2Lookup::Stale(results))) == Plan::Refresh(results),
        planned(None, Some(L2Lookup::Miss { sweep })) == Plan::Fetch,
        planned(None, None) == Plan::Fetch,
{
}

/// A row that cannot be read, or whose time cannot, gives nothing and is to be
/// deleted; where there is no row, nothing is.
pub proof fn unreadable_rows_are_swept(row: Row, ttl_nanos: int, now: i128)
    ensures
        row.results is None || clock::instant_of(row.expires_at@) is None ==> looked_up(
            Some(row),
            ttl_nanos,
            now,
        ) == (L2Lookup::Miss { sweep: true }),
        looked_up(None, ttl_nanos, now) == (L2Lookup::Miss { sweep: false }),
{
}

/// The textual form of a key starts with the source and ends with the query,
/// and the limit stands next to the source.
pub proof fn keys_stand_in_order(
    source: Seq<char>,
    limit: nat,
    instrument: Option<Instrument>,
    query: Seq<char>,
)
    ensures
        (source + seq!['\u{1f}'] + text::number::decimal(limit) + seq!['\u{1f}']).is_prefix_of(
            key_text(source, limit, instrument, query),
        ),
        (seq!['\u{1f}'] + query).is_suffix_of(key_text(source, limit, instrument, query)),
        instrument is None ==> key_text(source, limit, instrument, query) == source + seq![
            '\u{1f}',
        ] + text::number::decimal(limit) + seq!['\u{1f}', '\u{1f}'] + query,
{
    let k = key_text(source, limit, instrument, query);
    let p = source + seq!['\u{1f}'] + text::number::decimal(limit) + seq!['\u{1f}'];
    assert(k.subrange(0, p.len() as int) =~= p);
    let q = seq!['\u{1f}'] + query;
    assert(k.subrange(k.len() - q.len(), k.len() as int) =~= q);
}

} // verus!
