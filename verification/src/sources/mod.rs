//! The catalogs: what a search asks for, what it gives, and what every
//! catalog has in common.

use crate::codec;
use crate::text;
use vstd::prelude::*;

pub mod download;
pub mod flaresolverr;
pub mod health;
pub mod imslp;
pub mod musescore;
pub mod mutopia;
pub mod ultimate_guitar;

verus! {

/// User-selectable instrument filter. Each source decides how to apply it:
/// Mutopia has an `Instrument` facet, MuseScore an `&instrument=` parameter,
/// and the answers of IMSLP are looked through for its name.
#[derive(Debug, Clone, Copy, Hash, PartialEq, Eq, Structural)]
pub enum Instrument {
    Piano,
    Guitar,
    Violin,
    Viola,
    Cello,
    Flute,
    Clarinet,
    Voice,
    Choral,
    Organ,
}

impl Instrument {
    /// The URL-safe lower-case identifier.
    pub open spec fn slug_of(self) -> Seq<char> {
        match self {
            Instrument::Piano => "piano"@,
            Instrument::Guitar => "guitar"@,
            Instrument::Violin => "violin"@,
            Instrument::Viola => "viola"@,
            Instrument::Cello => "cello"@,
            Instrument::Flute => "flute"@,
            Instrument::Clarinet => "clarinet"@,
            Instrument::Voice => "voice"@,
            Instrument::Choral => "choral"@,
            Instrument::Organ => "organ"@,
        }
    }

    /// The title-case label.
    pub open spec fn display_of(self) -> Seq<char> {
        match self {
            Instrument::Piano => "Piano"@,
            Instrument::Guitar => "Guitar"@,
            Instrument::Violin => "Violin"@,
            Instrument::Viola => "Viola"@,
            Instrument::Cello => "Cello"@,
            Instrument::Flute => "Flute"@,
            Instrument::Clarinet => "Clarinet"@,
            Instrument::Voice => "Voice"@,
            Instrument::Choral => "Choral"@,
            Instrument::Organ => "Organ"@,
        }
    }

    /// What Mutopia's `Instrument` field expects: the title-case label, but
    /// `Choir` for choral music.
    pub open spec fn mutopia_value_of(self) -> Seq<char> {
        match self {
            Instrument::Choral => "Choir"@,
            _ => self.display_of(),
        }
    }

    /// Fixed display order for the dropdown.
    pub const ALL: [Instrument; 10] = [
        Instrument::Piano,
        Instrument::Guitar,
        Instrument::Violin,
        Instrument::Viola,
        Instrument::Cello,
        Instrument::Flute,
        Instrument::Clarinet,
        Instrument::Voice,
        Instrument::Choral,
        Instrument::Organ,
    ];

    /// The URL-safe lower-case identifier.
    pub fn slug(&self) -> (s: &'static str)
        ensures
            s@ == self.slug_of(),
    {
        match self {
            Instrument::Piano => "piano",
            Instrument::Guitar => "guitar",
            Instrument::Violin => "violin",
            Instrument::Viola => "viola",
            Instrument::Cello => "cello",
            Instrument::Flute => "flute",
            Instrument::Clarinet => "clarinet",
            Instrument::Voice => "voice",
            Instrument::Choral => "choral",
            Instrument::Organ => "organ",
        }
    }

    /// The title-case label for the dropdown.
    pub fn display(&self) -> (s: &'static str)
        ensures
            s@ == self.display_of(),
    {
        match self {
            Instrument::Piano => "Piano",
            Instrument::Guitar => "Guitar",
            Instrument::Violin => "Violin",
            Instrument::Viola => "Viola",
            Instrument::Cello => "Cello",
            Instrument::Flute => "Flute",
            Instrument::Clarinet => "Clarinet",
            Instrument::Voice => "Voice",
            Instrument::Choral => "Choral",
            Instrument::Organ => "Organ",
        }
    }

    /// What Mutopia's `Instrument` field expects.
    pub fn mutopia_value(&self) -> (s: &'static str)
        ensures
            s@ == self.mutopia_value_of(),
    {
        match self {
            Instrument::Choral => "Choir",
            _ => self.display(),
        }
    }

    /// The value whose identifier is `s`.
    pub fn from_slug(s: &str) -> (r: Option<Self>)
        ensures
            forall|x: Self| #[trigger] x.slug_of() == s@ <==> r == Some(x),
    {
        proof {
            Self::slugs_differ();
        }
        let mut k: usize = 0;
        while k < Self::ALL.len()
            invariant
                forall|a: Self, b: Self|
                    #[trigger] a.slug_of() == #[trigger] b.slug_of() ==> a == b,
                forall|j: int| 0 <= j < k ==> (#[trigger] Self::ALL@[j]).slug_of() != s@,
            decreases Self::ALL@.len() - k,
        {
            let x = Self::ALL[k];
            if text::same(x.slug(), s) {
                return Some(x);
            }
            k = k + 1;
        }
        assert forall|x: Self| #[trigger] x.slug_of() != s@ by {
            match x {
                Instrument::Piano => assert(Self::ALL@[0] == x),
                Instrument::Guitar => assert(Self::ALL@[1] == x),
                Instrument::Violin => assert(Self::ALL@[2] == x),
                Instrument::Viola => assert(Self::ALL@[3] == x),
                Instrument::Cello => assert(Self::ALL@[4] == x),
                Instrument::Flute => assert(Self::ALL@[5] == x),
                Instrument::Clarinet => assert(Self::ALL@[6] == x),
                Instrument::Voice => assert(Self::ALL@[7] == x),
                Instrument::Choral => assert(Self::ALL@[8] == x),
                Instrument::Organ => assert(Self::ALL@[9] == x),
            }
        }
        None
    }

    /// No two values have the same identifier, so an identifier leads back to
    /// the value that it came from.
    pub proof fn slugs_differ()
        ensures
            forall|a: Self, b: Self|
                #[trigger] a.slug_of() == #[trigger] b.slug_of() ==> a == b,
    {
        reveal_strlit("piano");
        reveal_strlit("guitar");
        reveal_strlit("violin");
        reveal_strlit("viola");
        reveal_strlit("cello");
        reveal_strlit("flute");
        reveal_strlit("clarinet");
        reveal_strlit("voice");
        reveal_strlit("choral");
        reveal_strlit("organ");
        assert forall|a: Self, b: Self|
            #[trigger] a.slug_of() == #[trigger] b.slug_of() implies a == b by {
            let s = a.slug_of();
            let t = b.slug_of();
            assert(s.len() == t.len() && s[0] == t[0] && s[1] == t[1] && s[2] == t[2] && s[3] == t[3]
                && s[4] == t[4]);
        }
    }
}

/// User-selectable difficulty filter.
#[derive(Debug, Clone, Copy, Hash, PartialEq, Eq, Structural)]
pub enum Difficulty {
    Beginner,
    Intermediate,
    Advanced,
}

impl Difficulty {
    /// The URL-safe lower-case identifier.
    pub open spec fn slug_of(self) -> Seq<char> {
        match self {
            Difficulty::Beginner => "beginner"@,
            Difficulty::Intermediate => "intermediate"@,
            Difficulty::Advanced => "advanced"@,
        }
    }

    /// The title-case label.
    pub open spec fn display_of(self) -> Seq<char> {
        match self {
            Difficulty::Beginner => "Beginner"@,
            Difficulty::Intermediate => "Intermediate"@,
            Difficulty::Advanced => "Advanced"@,
        }
    }

    /// Fixed display order for the dropdown.
    pub const ALL: [Difficulty; 3] = [
        Difficulty::Beginner,
        Difficulty::Intermediate,
        Difficulty::Advanced,
    ];

    /// The URL-safe lower-case identifier.
    pub fn slug(&self) -> (s: &'static str)
        ensures
            s@ == self.slug_of(),
    {
        match self {
            Difficulty::Beginner => "beginner",
            Difficulty::Intermediate => "intermediate",
            Difficulty::Advanced => "advanced",
        }
    }

    /// The title-case label for the dropdown.
    pub fn display(&self) -> (s: &'static str)
        ensures
            s@ == self.display_of(),
    {
        match self {
            Difficulty::Beginner => "Beginner",
            Difficulty::Intermediate => "Intermediate",
            Difficulty::Advanced => "Advanced",
        }
    }

    /// MuseScore's `complexity` field, 1 to 3, as a difficulty.
    pub fn from_complexity(c: u8) -> (r: Option<Self>)
        ensures
            r == (match c {
                1u8 => Some(Difficulty::Beginner),
                2u8 => Some(Difficulty::Intermediate),
                3u8 => Some(Difficulty::Advanced),
                _ => None,
            }),
    {
        match c {
            1 => Some(Difficulty::Beginner),
            2 => Some(Difficulty::Intermediate),
            3 => Some(Difficulty::Advanced),
            _ => None,
        }
    }

    /// The value whose identifier is `s`.
    pub fn from_slug(s: &str) -> (r: Option<Self>)
        ensures
            forall|x: Self| #[trigger] x.slug_of() == s@ <==> r == Some(x),
    {
        proof {
            Self::slugs_differ();
        }
        let mut k: usize = 0;
        while k < Self::ALL.len()
            invariant
                forall|a: Self, b: Self|
                    #[trigger] a.slug_of() == #[trigger] b.slug_of() ==> a == b,
                forall|j: int| 0 <= j < k ==> (#[trigger] Self::ALL@[j]).slug_of() != s@,
            decreases Self::ALL@.len() - k,
        {
            let x = Self::ALL[k];
            if text::same(x.slug(), s) {
                return Some(x);
            }
            k = k + 1;
        }
        assert forall|x: Self| #[trigger] x.slug_of() != s@ by {
            match x {
                Difficulty::Beginner => assert(Self::ALL@[0] == x),
                Difficulty::Intermediate => assert(Self::ALL@[1] == x),
                Difficulty::Advanced => assert(Self::ALL@[2] == x),
            }
        }
        None
    }

    /// No two values have the same identifier, so an identifier leads back to
    /// the value that it came from.
    pub proof fn slugs_differ()
        ensures
            forall|a: Self, b: Self|
                #[trigger] a.slug_of() == #[trigger] b.slug_of() ==> a == b,
    {
        reveal_strlit("beginner");
        reveal_strlit("intermediate");
        reveal_strlit("advanced");
        assert forall|a: Self, b: Self|
            #[trigger] a.slug_of() == #[trigger] b.slug_of() implies a == b by {
            let s = a.slug_of();
            let t = b.slug_of();
            assert(s.len() == t.len() && s[0] == t[0] && s[1] == t[1] && s[2] == t[2] && s[3] == t[3]
                && s[4] == t[4]);
        }
    }
}

/// Publisher engravings ("official") or uploads of the community.
#[derive(Debug, Clone, Copy, Hash, PartialEq, Eq, Structural)]
pub enum ScoreType {
    Official,
    Community,
}

impl ScoreType {
    /// The URL-safe lower-case identifier.
    pub open spec fn slug_of(self) -> Seq<char> {
        match self {
            ScoreType::Official => "official"@,
            ScoreType::Community => "community"@,
        }
    }

    /// The title-case label.
    pub open spec fn display_of(self) -> Seq<char> {
        match self {
            ScoreType::Official => "Official"@,
            ScoreType::Community => "Community"@,
        }
    }

    /// Fixed display order for the dropdown.
    pub const ALL: [ScoreType; 2] = [
        ScoreType::Official,
        ScoreType::Community,
    ];

    /// The URL-safe lower-case identifier.
    pub fn slug(&self) -> (s: &'static str)
        ensures
            s@ == self.slug_of(),
    {
        match self {
            ScoreType::Official => "official",
            ScoreType::Community => "community",
        }
    }

    /// The title-case label for the dropdown.
    pub fn display(&self) -> (s: &'static str)
        ensures
            s@ == self.display_of(),
    {
        match self {
            ScoreType::Official => "Official",
            ScoreType::Community => "Community",
        }
    }

    /// The value whose identifier is `s`.
    pub fn from_slug(s: &str) -> (r: Option<Self>)
        ensures
            forall|x: Self| #[trigger] x.slug_of() == s@ <==> r == Some(x),
    {
        proof {
            Self::slugs_differ();
        }
        let mut k: usize = 0;
        while k < Self::ALL.len()
            invariant
                forall|a: Self, b: Self|
                    #[trigger] a.slug_of() == #[trigger] b.slug_of() ==> a == b,
                forall|j: int| 0 <= j < k ==> (#[trigger] Self::ALL@[j]).slug_of() != s@,
            decreases Self::ALL@.len() - k,
        {
            let x = Self::ALL[k];
            if text::same(x.slug(), s) {
                return Some(x);
            }
            k = k + 1;
        }
        assert forall|x: Self| #[trigger] x.slug_of() != s@ by {
            match x {
                ScoreType::Official => assert(Self::ALL@[0] == x),
                ScoreType::Community => assert(Self::ALL@[1] == x),
            }
        }
        None
    }

    /// No two values have the same identifier, so an identifier leads back to
    /// the value that it came from.
    pub proof fn slugs_differ()
        ensures
            forall|a: Self, b: Self|
                #[trigger] a.slug_of() == #[trigger] b.slug_of() ==> a == b,
    {
        reveal_strlit("official");
        reveal_strlit("community");
        assert forall|a: Self, b: Self|
            #[trigger] a.slug_of() == #[trigger] b.slug_of() implies a == b by {
            let s = a.slug_of();
            let t = b.slug_of();
            assert(s.len() == t.len() && s[0] == t[0] && s[1] == t[1] && s[2] == t[2] && s[3] == t[3]
                && s[4] == t[4]);
        }
    }
}

/// The facets of a search. `instrument` goes to the catalogs; the others are
/// applied to the assembled results.
#[derive(Debug, Clone, Copy, Hash, PartialEq, Eq, Structural)]
pub struct SearchFilters {
    pub instrument: Option<Instrument>,
    pub difficulty: Option<Difficulty>,
    /// Only works that are known to be in the public domain.
    pub public_domain_only: bool,
    pub score_type: Option<ScoreType>,
}

impl Default for SearchFilters {
    fn default() -> (f: Self)
        ensures
            f == (SearchFilters {
                instrument: None,
                difficulty: None,
                public_domain_only: false,
                score_type: None,
            }),
    {
        SearchFilters {
            instrument: None,
            difficulty: None,
            public_domain_only: false,
            score_type: None,
        }
    }
}

/// The visual style of a [`MetadataBadge`].
#[derive(Debug, Clone, Copy, PartialEq, Eq, Structural)]
pub enum BadgeKind {
    Pages,
    Key,
    Year,
    Instrument,
    Difficulty,
    Generic,
}

/// A small piece of context under the title of a result, already formatted:
/// "12 pages", "C minor", "1823".
#[derive(Debug)]
pub struct MetadataBadge {
    pub label: String,
    pub kind: BadgeKind,
}

/// The view of a [`MetadataBadge`].
pub struct BadgeView {
    pub label: Seq<char>,
    pub kind: BadgeKind,
}

impl View for MetadataBadge {
    type V = BadgeView;

    open spec fn view(&self) -> BadgeView {
        BadgeView { label: self.label@, kind: self.kind }
    }
}

impl Clone for MetadataBadge {
    fn clone(&self) -> (b: Self)
        ensures
            b@ == self@,
    {
        MetadataBadge { label: text::owned(self.label.as_str()), kind: self.kind }
    }
}

/// The views of a list of badges.
pub open spec fn badge_views(badges: Seq<MetadataBadge>) -> Seq<BadgeView> {
    badges.map_values(|b: MetadataBadge| b@)
}

/// One work that a search found.
#[derive(Debug)]
pub struct SearchResult {
    /// Identifier of the source that the result came from.
    pub source: String,
    /// The source's own id for the work.
    pub id: String,
    pub title: String,
    pub description: Option<String>,
    /// Where the work can be viewed on the source.
    pub external_url: String,
    /// A preview image, where the source gives one away with the search.
    pub thumbnail_url: Option<String>,
    pub metadata: Vec<MetadataBadge>,
    /// 1 is beginner, 2 intermediate, 3 advanced.
    pub complexity: Option<u8>,
    /// Whether the work is in the public domain; `None` where it is not
    /// known.
    pub is_public_domain: Option<bool>,
    /// Whether a publisher engraved the score; `None` where the source does
    /// not tell.
    pub is_official: Option<bool>,
}

/// The view of a [`SearchResult`].
pub struct ResultView {
    pub source: Seq<char>,
    pub id: Seq<char>,
    pub title: Seq<char>,
    pub description: Option<Seq<char>>,
    pub external_url: Seq<char>,
    pub thumbnail_url: Option<Seq<char>>,
    pub metadata: Seq<BadgeView>,
    pub complexity: Option<u8>,
    pub is_public_domain: Option<bool>,
    pub is_official: Option<bool>,
}

impl View for SearchResult {
    type V = ResultView;

    open spec fn view(&self) -> ResultView {
        ResultView {
            source: self.source@,
            id: self.id@,
            title: self.title@,
            description: text::view_opt(self.description),
            external_url: self.external_url@,
            thumbnail_url: text::view_opt(self.thumbnail_url),
            metadata: badge_views(self.metadata@),
            complexity: self.complexity,
            is_public_domain: self.is_public_domain,
            is_official: self.is_official,
        }
    }
}

impl Clone for SearchResult {
    fn clone(&self) -> (r: Self)
        ensures
            r@ == self@,
    {
        let mut metadata: Vec<MetadataBadge> = Vec::new();
        let ghost all = badge_views(self.metadata@);
        for i in 0..self.metadata.len()
            invariant
                all == badge_views(self.metadata@),
                badge_views(metadata@) == all.take(i as int),
        {
            let ghost before = badge_views(metadata@);
            let b = self.metadata[i].clone();
            metadata.push(b);
            assert(badge_views(metadata@) =~= before.push(all[i as int]));
            assert(all.take(i + 1) =~= before.push(all[i as int]));
        }
        assert(all.take(all.len() as int) =~= all);
        let description = match &self.description {
            Some(d) => Some(text::owned(d.as_str())),
            None => None,
        };
        let thumbnail_url = match &self.thumbnail_url {
            Some(t) => Some(text::owned(t.as_str())),
            None => None,
        };
        SearchResult {
            source: text::owned(self.source.as_str()),
            id: text::owned(self.id.as_str()),
            title: text::owned(self.title.as_str()),
            description,
            external_url: text::owned(self.external_url.as_str()),
            thumbnail_url,
            metadata,
            complexity: self.complexity,
            is_public_domain: self.is_public_domain,
            is_official: self.is_official,
        }
    }
}

/// The views of a list of results.
pub open spec fn result_views(results: Seq<SearchResult>) -> Seq<ResultView> {
    results.map_values(|r: SearchResult| r@)
}

/// Every result has an id that may stand in one segment of a path.
pub open spec fn ids_are_path_safe(results: Seq<SearchResult>) -> bool {
    forall|i: int| 0 <= i < results.len() ==> codec::path_safe((#[trigger] results[i]).id@)
}

/// How a catalog that is open to programs is told who asks.
pub const USER_AGENT: &'static str = "sheet-music-browsarr/0.1.0 (+https://github.com/georgexu99/sheet-music-browsarr)";

/// How long a request to such a catalog may take, in seconds.
pub const TIMEOUT_SECS: u64 = 20;

/// How the requests to a catalog are made.
#[derive(Debug, Clone)]
pub struct ClientSettings {
    pub user_agent: &'static str,
    pub timeout_secs: u64,
    /// Answers may come compressed.
    pub gzip: bool,
    /// The cookies that are there from the start, each in the form of a
    /// `Set-Cookie` header.
    pub cookies: Vec<&'static str>,
}

impl ClientSettings {
    /// The settings that every such catalog has, with these cookies.
    pub open spec fn has_cookies(self, cookies: Seq<Seq<char>>) -> bool {
        &&& self.user_agent@ == USER_AGENT@
        &&& self.timeout_secs == TIMEOUT_SECS
        &&& self.gzip
        &&& self.cookies@.map_values(|c: &'static str| c@) == cookies
    }
}

/// A catalog of sheet music.
pub trait Source {
    /// The stable identifier, as it stands in routes and in
    /// [`SearchResult::source`].
    spec fn source_id(&self) -> Seq<char>;

    /// The name for the user.
    spec fn name(&self) -> Seq<char>;

    /// `url` is where the work `id` can be viewed on the source.
    spec fn is_external_url(&self, id: Seq<char>, url: Seq<char>) -> bool;

    fn id(&self) -> (s: &'static str)
        ensures
            s@ == self.source_id(),
    ;

    fn display_name(&self) -> (s: &'static str)
        ensures
            s@ == self.name(),
    ;

    fn external_url(&self, id: &str) -> (url: String)
        ensures
            self.is_external_url(id@, url@),
    ;
}

/// The label of every choice is its identifier with a capital, and Mutopia
/// knows every instrument by its label, but choral music as a choir.
pub proof fn labels_are_identifiers_with_a_capital(i: Instrument, d: Difficulty, s: ScoreType)
    ensures
        text::ascii_lowered(i.display_of()) == i.slug_of(),
        text::ascii_lowered(d.display_of()) == d.slug_of(),
        text::ascii_lowered(s.display_of()) == s.slug_of(),
        'A' <= i.display_of()[0] <= 'Z',
        'A' <= d.display_of()[0] <= 'Z',
        'A' <= s.display_of()[0] <= 'Z',
        i != Instrument::Choral ==> i.mutopia_value_of() == i.display_of(),
        Instrument::Choral.mutopia_value_of() == "Choir"@,
{
    instrument_labels(i);
    reveal_strlit("beginner");
    reveal_strlit("intermediate");
    reveal_strlit("advanced");
    reveal_strlit("Beginner");
    reveal_strlit("Intermediate");
    reveal_strlit("Advanced");
    reveal_strlit("official");
    reveal_strlit("community");
    reveal_strlit("Official");
    reveal_strlit("Community");
    assert(text::ascii_lowered(d.display_of()) =~= d.slug_of());
    assert(text::ascii_lowered(s.display_of()) =~= s.slug_of());
}

proof fn instrument_labels(i: Instrument)
    ensures
        text::ascii_lowered(i.display_of()) == i.slug_of(),
        'A' <= i.display_of()[0] <= 'Z',
{
    reveal_strlit("piano");
    reveal_strlit("guitar");
    reveal_strlit("violin");
    reveal_strlit("viola");
    reveal_strlit("cello");
    reveal_strlit("flute");
    reveal_strlit("clarinet");
    reveal_strlit("voice");
    reveal_strlit("choral");
    reveal_strlit("organ");
    reveal_strlit("Piano");
    reveal_strlit("Guitar");
    reveal_strlit("Violin");
    reveal_strlit("Viola");
    reveal_strlit("Cello");
    reveal_strlit("Flute");
    reveal_strlit("Clarinet");
    reveal_strlit("Voice");
    reveal_strlit("Choral");
    reveal_strlit("Organ");
    assert(text::ascii_lowered(i.display_of()) =~= i.slug_of());
}

/// The view of a result has every field of it, and that of a list every result
/// in order.
pub proof fn views_show_every_field(r: SearchResult, list: Seq<SearchResult>)
    ensures
        r@.source == r.source@,
        r@.id == r.id@,
        r@.title == r.title@,
        r@.description == text::view_opt(r.description),
        r@.external_url == r.external_url@,
        r@.thumbnail_url == text::view_opt(r.thumbnail_url),
        r@.complexity == r.complexity,
        r@.is_public_domain == r.is_public_domain,
        r@.is_official == r.is_official,
        r@.metadata.len() == r.metadata@.len(),
        forall|i: int|
            0 <= i < r.metadata@.len() ==> (#[trigger] r@.metadata[i]).label
                == r.metadata@[i].label@ && r@.metadata[i].kind == r.metadata@[i].kind,
        result_views(list).len() == list.len(),
        forall|i: int| 0 <= i < list.len() ==> (#[trigger] result_views(list)[i]) == list[i]@,
{
}

/// A catalog is told who asks, waited for twenty seconds, and may answer
/// compressed.
pub proof fn catalogs_are_told_who_asks(s: ClientSettings, cookies: Seq<Seq<char>>)
    requires
        s.has_cookies(cookies),
    ensures
        s.timeout_secs == 20,
        s.gzip,
        s.user_agent@
            == "sheet-music-browsarr/0.1.0 (+https://github.com/georgexu99/sheet-music-browsarr)"@,
        s.cookies@.len() == cookies.len(),
        forall|i: int| 0 <= i < cookies.len() ==> (#[trigger] s.cookies@[i])@ == cookies[i],
{
    let f = |c: &'static str| c@;
    assert forall|i: int| 0 <= i < cookies.len() implies (#[trigger] s.cookies@[i])@ == cookies[i] by {
        assert(s.cookies@.map_values(f)[i] == cookies[i]);
    }
}

/// Ids that may stand in a path do so in every part of a list.
pub proof fn every_id_is_path_safe(a: Seq<SearchResult>, b: Seq<SearchResult>)
    ensures
        ids_are_path_safe(a + b) <==> ids_are_path_safe(a) && ids_are_path_safe(b),
        a.len() == 1 ==> (ids_are_path_safe(a) <==> codec::path_safe(a[0].id@)),
{
    if ids_are_path_safe(a + b) {
        assert forall|i: int| 0 <= i < a.len() implies codec::path_safe((#[trigger] a[i]).id@) by {
            assert((a + b)[i] == a[i]);
        }
        assert forall|i: int| 0 <= i < b.len() implies codec::path_safe((#[trigger] b[i]).id@) by {
            assert((a + b)[a.len() + i] == b[i]);
        }
    }
}

} // verus!
