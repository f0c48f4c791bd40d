//! The dictionary of names, and the expansion of queries with it.

use crate::text;
use vstd::hash_map::StringHashMap;
use vstd::prelude::*;

verus! {

/// The dictionary. Columns: English, simplified, traditional, Pinyin.
pub const ALIASES_CSV: &'static str = "en,simplified,traditional,pinyin
Chopin,肖邦,蕭邦,xiaobang
Bach,巴赫,巴赫,bahe
Beethoven,贝多芬,貝多芬,beiduofen
Mozart,莫扎特,莫扎特,mozhate
piano,钢琴,鋼琴,gangqin
violin,小提琴,小提琴,xiaotiqin
cello,大提琴,大提琴,datiqin
nocturne,夜曲,夜曲,yequ
sonata,奏鸣曲,奏鳴曲,zoumingqu
";

/// The scripts, in the order of the dictionary's columns.
#[derive(Debug, Clone, Copy, PartialEq, Eq, Structural)]
pub enum Script {
    En,
    Simplified,
    Traditional,
    Pinyin,
}

pub const SCRIPTS: [Script; 4] = [
    Script::En,
    Script::Simplified,
    Script::Traditional,
    Script::Pinyin,
];

/// One name in every script.
#[derive(Debug)]
pub struct AliasRow {
    pub en: String,
    pub simplified: String,
    pub traditional: String,
    pub pinyin: String,
}

/// The view of an [`AliasRow`].
pub struct RowView {
    pub en: Seq<char>,
    pub simplified: Seq<char>,
    pub traditional: Seq<char>,
    pub pinyin: Seq<char>,
}

impl View for AliasRow {
    type V = RowView;

    open spec fn view(&self) -> RowView {
        RowView {
            en: self.en@,
            simplified: self.simplified@,
            traditional: self.traditional@,
            pinyin: self.pinyin@,
        }
    }
}

impl RowView {
    /// The name in one script.
    pub open spec fn variant(self, script: Script) -> Seq<char> {
        match script {
            Script::En => self.en,
            Script::Simplified => self.simplified,
            Script::Traditional => self.traditional,
            Script::Pinyin => self.pinyin,
        }
    }

    /// The row answers to `key` in one of its first `n` scripts: one of the
    /// names, not an empty one, has `key` as its lower-case form.
    pub open spec fn answers(self, key: Seq<char>, n: int) -> bool {
        ||| n > 0 && self.en.len() > 0 && text::lowercase(self.en) == key
        ||| n > 1 && self.simplified.len() > 0 && text::lowercase(self.simplified) == key
        ||| n > 2 && self.traditional.len() > 0 && text::lowercase(self.traditional) == key
        ||| n > 3 && self.pinyin.len() > 0 && text::lowercase(self.pinyin) == key
    }
}

/// The views of a list of rows.
pub open spec fn row_views(rows: Seq<AliasRow>) -> Seq<RowView> {
    rows.map_values(|r: AliasRow| r@)
}

/// The row in a line of the dictionary: none in an empty line, a comment, or
/// a line with fewer than four columns.
pub open spec fn row_in(line: Seq<char>) -> Option<RowView> {
    let line = text::trim::trimmed(line);
    let cols = text::split::pieces(line, |c: char| c == ',');
    if line.len() == 0 || line[0] == '#' || cols.len() < 4 {
        None
    } else {
        Some(
            RowView {
                en: text::trim::trimmed(cols[0]),
                simplified: text::trim::trimmed(cols[1]),
                traditional: text::trim::trimmed(cols[2]),
                pinyin: text::trim::trimmed(cols[3]),
            },
        )
    }
}

/// The rows in a list of lines.
pub open spec fn rows_in(lines: Seq<Seq<char>>) -> Seq<RowView>
    decreases lines.len(),
{
    if lines.len() == 0 {
        Seq::empty()
    } else {
        match row_in(lines.last()) {
            Some(r) => rows_in(lines.drop_last()).push(r),
            None => rows_in(lines.drop_last()),
        }
    }
}

/// The rows of a dictionary: those of its lines behind the first.
pub open spec fn rows_of(csv: Seq<char>) -> Seq<RowView> {
    rows_in(text::split::pieces(csv, |c: char| c == '\n').skip(1))
}

/// The first row that answers to `key`.
pub open spec fn first_row(rows: Seq<RowView>, key: Seq<char>) -> Option<int>
    decreases rows.len(),
{
    if rows.len() == 0 {
        None
    } else {
        match first_row(rows.drop_last(), key) {
            Some(i) => Some(i),
            None => if rows.last().answers(key, 4) {
                Some(rows.len() - 1)
            } else {
                None
            },
        }
    }
}

/// The row that a token stands for, in any case.
pub open spec fn row_for(rows: Seq<RowView>, token: Seq<char>) -> Option<RowView> {
    match first_row(rows, text::lowercase(token)) {
        Some(i) => Some(rows[i]),
        None => None,
    }
}

/// The first row that answers to `key` among the first `i` rows, and the
/// first `n` scripts of the row after them.
pub open spec fn first_row_upto(rows: Seq<RowView>, i: int, n: int, key: Seq<char>) -> Option<int> {
    match first_row(rows.take(i), key) {
        Some(k) => Some(k),
        None => if i < rows.len() && rows[i].answers(key, n) {
            Some(i)
        } else {
            None
        },
    }
}

/// `map` leads every key to the first row that answers to it.
pub open spec fn leads(map: Map<Seq<char>, usize>, rows: Seq<RowView>) -> bool {
    forall|key: Seq<char>|
        match first_row(rows, key) {
            Some(i) => #[trigger] map.contains_key(key) && map[key] == i,
            None => !map.contains_key(key),
        }
}

/// `map` leads every key to the first row that answers to it among the first
/// `i` rows and the first `n` scripts of the row after them.
spec fn leads_upto(map: Map<Seq<char>, usize>, rows: Seq<RowView>, i: int, n: int) -> bool {
    forall|key: Seq<char>|
        match first_row_upto(rows, i, n, key) {
            Some(k) => #[trigger] map.contains_key(key) && map[key] == k,
            None => !map.contains_key(key),
        }
}

/// The first row is one of the rows, and it answers.
pub proof fn first_row_answers(rows: Seq<RowView>, key: Seq<char>)
    ensures
        match first_row(rows, key) {
            Some(i) => {
                &&& 0 <= i < rows.len()
                &&& rows[i].answers(key, 4)
                &&& forall|j: int| 0 <= j < i ==> !(#[trigger] rows[j]).answers(key, 4)
            },
            None => forall|j: int| 0 <= j < rows.len() ==> !(#[trigger] rows[j]).answers(key, 4),
        },
    decreases rows.len(),
{
    if rows.len() > 0 {
        first_row_answers(rows.drop_last(), key);
        assert(forall|j: int| 0 <= j < rows.len() - 1 ==> rows.drop_last()[j] == #[trigger] rows[j]);
    }
}

impl AliasRow {
    /// The name in one script.
    pub fn variant(&self, script: Script) -> (s: &str)
        ensures
            s@ == self@.variant(script),
    {
        match script {
            Script::En => self.en.as_str(),
            Script::Simplified => self.simplified.as_str(),
            Script::Traditional => self.traditional.as_str(),
            Script::Pinyin => self.pinyin.as_str(),
        }
    }
}

/// The rows, and the row that each name leads to, whatever its case.
pub struct AliasIndex {
    rows: Vec<AliasRow>,
    by_token: StringHashMap<usize>,
}

fn comma(c: char) -> (b: bool)
    ensures
        b == (c == ','),
{
    c == ','
}

fn newline(c: char) -> (b: bool)
    ensures
        b == (c == '\n'),
{
    c == '\n'
}

fn read_row(line: &str) -> (r: Option<AliasRow>)
    ensures
        row_in(line@) == (match r {
            Some(row) => Some(row@),
            None => None,
        }),
{
    let line = text::trim::trim(line);
    let chars = text::chars_of(line.as_str());
    if chars.len() == 0 || chars[0] == '#' {
        return None;
    }
    let cols = text::split::split(line.as_str(), comma, Ghost(|c: char| c == ','));
    let ghost fields = text::views(cols@);
    if cols.len() < 4 {
        return None;
    }
    assert(fields[0] == cols@[0]@ && fields[1] == cols@[1]@ && fields[2] == cols@[2]@ && fields[3]
        == cols@[3]@);
    Some(
        AliasRow {
            en: text::trim::trim(cols[0].as_str()),
            simplified: text::trim::trim(cols[1].as_str()),
            traditional: text::trim::trim(cols[2].as_str()),
            pinyin: text::trim::trim(cols[3].as_str()),
        },
    )
}

fn read_rows(csv: &str) -> (rows: Vec<AliasRow>)
    ensures
        row_views(rows@) == rows_of(csv@),
{
    let lines = text::split::split(csv, newline, Ghost(|c: char| c == '\n'));
    let ghost all = text::views(lines@);
    let ghost body = all.skip(1);
    let mut rows: Vec<AliasRow> = Vec::new();
    assert(row_views(rows@) =~= rows_in(body.take(0)));
    for i in 1..lines.len()
        invariant
            all == text::views(lines@),
            body == all.skip(1),
            row_views(rows@) == rows_in(body.take(i - 1)),
    {
        let ghost before = row_views(rows@);
        assert(body.take(i as int).drop_last() =~= body.take(i - 1));
        assert(body.take(i as int).last() == lines@[i as int]@);
        if let Some(row) = read_row(lines[i].as_str()) {
            let ghost r = row@;
            rows.push(row);
            assert(row_views(rows@) =~= before.push(r));
        }
    }
    assert(body.take(body.len() as int) =~= body);
    rows
}

impl AliasIndex {
    /// The rows.
    pub closed spec fn rows(self) -> Seq<RowView> {
        row_views(self.rows@)
    }

    /// The invariant: each name leads to the first row that answers to it, and
    /// the empty text leads nowhere.
    pub closed spec fn wf(self) -> bool {
        &&& leads(self.by_token@, self.rows())
        &&& !self.by_token@.contains_key(Seq::empty())
    }

    /// The index of a dictionary. Where two rows have the same name, the
    /// earlier one is found.
    pub fn from_csv(csv: &str) -> (idx: Self)
        ensures
            idx.wf(),
            idx.rows() == rows_of(csv@),
    {
        let rows = read_rows(csv);
        let ghost all = row_views(rows@);
        let mut by_token: StringHashMap<usize> = StringHashMap::new();
        for i in 0..rows.len()
            invariant
                all == row_views(rows@),
                leads(by_token@, all.take(i as int)),
                !by_token@.contains_key(Seq::empty()),
        {
            let row = &rows[i];
            assert(all[i as int] == row@);
            for n in 0..4usize
                invariant
                    all == row_views(rows@),
                    i < rows@.len(),
                    row == &rows@[i as int],
                    all[i as int] == row@,
                    leads_upto(by_token@, all, i as int, n as int),
                    !by_token@.contains_key(Seq::empty()),
            {
                let name = row.variant(SCRIPTS[n]);
                let lower = name.to_lowercase();
                let ghost before = by_token@;
                assert(name@ == row@.variant(SCRIPTS@[n as int]));
                let ghost l = lower@;
                assert(SCRIPTS@ =~= seq![
                    Script::En,
                    Script::Simplified,
                    Script::Traditional,
                    Script::Pinyin,
                ]);
                assert forall|key: Seq<char>| #[trigger]
                    row@.answers(key, n + 1) <==> row@.answers(key, n as int) || (name@.len() > 0
                        && l == key) by {
                    assert(n == 0 || n == 1 || n == 2 || n == 3);
                }
                if !text::is_empty(name) && !by_token.contains_key(lower.as_str()) {
                    by_token.insert(lower, i);
                }
                assert forall|key: Seq<char>|
                    match first_row_upto(all, i as int, n + 1, key) {
                        Some(k) => #[trigger] by_token@.contains_key(key) && by_token@[key] == k,
                        None => !by_token@.contains_key(key),
                    } by {
                    let found = first_row_upto(all, i as int, n as int, key);
                    assert(before.contains_key(key) <==> found is Some);
                    assert(before.contains_key(key) ==> Some(before[key] as int) == found);
                    assert(row@.answers(key, n + 1) <==> row@.answers(key, n as int) || (
                    name@.len() > 0 && l == key));
                }
                assert(leads_upto(by_token@, all, i as int, n + 1));
            }
            assert forall|key: Seq<char>|
                match first_row(all.take(i + 1), key) {
                    Some(k) => #[trigger] by_token@.contains_key(key) && by_token@[key] == k,
                    None => !by_token@.contains_key(key),
                } by {
                assert(all.take(i + 1).drop_last() =~= all.take(i as int));
                assert(all.take(i + 1).last() == all[i as int]);
            }
        }
        assert(all.take(all.len() as int) =~= all);
        AliasIndex { rows, by_token }
    }

    /// The index of the dictionary.
    pub fn load() -> (idx: Self)
        ensures
            idx.wf(),
            idx.rows() == rows_of(ALIASES_CSV@),
    {
        Self::from_csv(ALIASES_CSV)
    }

    /// The row that a token stands for. The empty token stands for none.
    pub fn lookup(&self, token: &str) -> (r: Option<&AliasRow>)
        requires
            self.wf(),
        ensures
            row_for(self.rows(), token@) == (match r {
                Some(row) => Some(row@),
                None => None,
            }),
            token@.len() == 0 ==> r is None,
    {
        let lower = token.to_lowercase();
        proof {
            first_row_answers(self.rows(), lower@);
            assert(lower@.len() == 0 ==> lower@ =~= Seq::empty());
        }
        match self.by_token.get(lower.as_str()) {
            Some(i) => {
                assert(self.rows()[*i as int] == self.rows@[*i as int]@);
                Some(&self.rows[*i])
            },
            None => None,
        }
    }
}

/// The index of the dictionary.
pub fn aliases() -> (idx: AliasIndex)
    ensures
        idx.wf(),
        idx.rows() == rows_of(ALIASES_CSV@),
{
    AliasIndex::load()
}

/// A character between tokens: white space or light punctuation.
pub open spec fn separates(c: char) -> bool {
    text::is_white_space(c) || c == ',' || c == '.' || c == ';' || c == ':' || c == '!' || c == '?'
        || c == '(' || c == ')'
}

fn separator(c: char) -> (b: bool)
    ensures
        b == separates(c),
{
    text::white_space(c) || c == ',' || c == '.' || c == ';' || c == ':' || c == '!' || c == '?'
        || c == '(' || c == ')'
}

/// The tokens of a query.
pub open spec fn tokens_of(query: Seq<char>) -> Seq<Seq<char>> {
    text::split::nonempty(text::split::pieces(query, |c: char| separates(c)))
}

/// The tokens of a query.
pub fn tokenize(query: &str) -> (out: Vec<String>)
    ensures
        text::views(out@) == tokens_of(query@),
{
    let pieces = text::split::split(query, separator, Ghost(|c: char| separates(c)));
    text::split::keep_nonempty(&pieces)
}

/// A token in a script: the name in it where the token is known, and the
/// token itself where it is not.
pub open spec fn in_script(rows: Seq<RowView>, token: Seq<char>, script: Script) -> Seq<char> {
    match row_for(rows, token) {
        Some(r) => r.variant(script),
        None => token,
    }
}

/// A query in a script.
pub open spec fn rendered(rows: Seq<RowView>, tokens: Seq<Seq<char>>, script: Script) -> Seq<char> {
    text::joined(tokens.map_values(|t: Seq<char>| in_script(rows, t, script)), " "@)
}

/// One of the tokens is known.
pub open spec fn any_known(rows: Seq<RowView>, tokens: Seq<Seq<char>>) -> bool {
    exists|i: int| 0 <= i < tokens.len() && row_for(rows, #[trigger] tokens[i]) is Some
}

/// `list` with `s` behind it, unless it holds `s`.
pub open spec fn with(list: Seq<Seq<char>>, s: Seq<char>) -> Seq<Seq<char>> {
    if list.contains(s) {
        list
    } else {
        list.push(s)
    }
}

/// The variants of a query: one per script, each once; the query alone where
/// nothing in it is known.
pub open spec fn expanded(rows: Seq<RowView>, query: Seq<char>) -> Seq<Seq<char>> {
    let tokens = tokens_of(query);
    if any_known(rows, tokens) {
        with(
            with(
                with(
                    with(Seq::empty(), rendered(rows, tokens, Script::En)),
                    rendered(rows, tokens, Script::Simplified),
                ),
                rendered(rows, tokens, Script::Traditional),
            ),
            rendered(rows, tokens, Script::Pinyin),
        )
    } else {
        seq![query]
    }
}

fn render(idx: &AliasIndex, tokens: &Vec<String>, script: Script) -> (out: String)
    requires
        idx.wf(),
    ensures
        out@ == rendered(idx.rows(), text::views(tokens@), script),
{
    let ghost all = text::views(tokens@);
    let ghost want = all.map_values(|t: Seq<char>| in_script(idx.rows(), t, script));
    let mut parts: Vec<String> = Vec::new();
    for i in 0..tokens.len()
        invariant
            idx.wf(),
            all == text::views(tokens@),
            want == all.map_values(|t: Seq<char>| in_script(idx.rows(), t, script)),
            text::views(parts@) == want.take(i as int),
    {
        let ghost before = text::views(parts@);
        let token = tokens[i].as_str();
        assert(all[i as int] == token@);
        let part = match idx.lookup(token) {
            Some(row) => text::owned(row.variant(script)),
            None => text::owned(token),
        };
        let ghost p = part@;
        parts.push(part);
        assert(text::views(parts@) =~= before.push(p));
        assert(want.take(i + 1) =~= before.push(want[i as int]));
    }
    assert(want.take(want.len() as int) =~= want);
    text::join(&parts, " ")
}

fn knows_any(idx: &AliasIndex, tokens: &Vec<String>) -> (b: bool)
    requires
        idx.wf(),
    ensures
        b == any_known(idx.rows(), text::views(tokens@)),
{
    let ghost all = text::views(tokens@);
    for i in 0..tokens.len()
        invariant
            idx.wf(),
            all == text::views(tokens@),
            forall|j: int| 0 <= j < i ==> row_for(idx.rows(), #[trigger] all[j]) is None,
    {
        assert(all[i as int] == tokens@[i as int]@);
        if idx.lookup(tokens[i].as_str()).is_some() {
            assert(row_for(idx.rows(), all[i as int]) is Some);
            return true;
        }
    }
    false
}

/// The variants of a query under an index.
pub fn expand_with(idx: &AliasIndex, query: &str) -> (out: Vec<String>)
    requires
        idx.wf(),
    ensures
        text::views(out@) == expanded(idx.rows(), query@),
{
    let tokens = tokenize(query);
    let ghost all = text::views(tokens@);
    if !knows_any(idx, &tokens) {
        let out = vec![text::owned(query)];
        assert(text::views(out@) =~= seq![query@]);
        return out;
    }
    let mut out: Vec<String> = Vec::new();
    let ghost r0 = rendered(idx.rows(), all, Script::En);
    let ghost r1 = rendered(idx.rows(), all, Script::Simplified);
    let ghost r2 = rendered(idx.rows(), all, Script::Traditional);
    let ghost r3 = rendered(idx.rows(), all, Script::Pinyin);
    let ghost w0 = with(Seq::empty(), r0);
    let ghost w1 = with(w0, r1);
    let ghost w2 = with(w1, r2);
    let ghost w3 = with(w2, r3);
    assert(text::views(out@) =~= Seq::<Seq<char>>::empty());
    for n in 0..4usize
        invariant
            idx.wf(),
            all == text::views(tokens@),
            r0 == rendered(idx.rows(), all, Script::En),
            r1 == rendered(idx.rows(), all, Script::Simplified),
            r2 == rendered(idx.rows(), all, Script::Traditional),
            r3 == rendered(idx.rows(), all, Script::Pinyin),
            w0 == with(Seq::empty(), r0),
            w1 == with(w0, r1),
            w2 == with(w1, r2),
            w3 == with(w2, r3),
            text::views(out@) == (if n == 0 {
                Seq::empty()
            } else if n == 1 {
                w0
            } else if n == 2 {
                w1
            } else if n == 3 {
                w2
            } else {
                w3
            }),
    {
        let ghost before = text::views(out@);
        let variant = render(idx, &tokens, SCRIPTS[n]);
        if !text::among(&out, variant.as_str()) {
            let ghost v = variant@;
            out.push(variant);
            assert(text::views(out@) =~= before.push(v));
        }
    }
    out
}

/// The variants of a query: up to four, one per script. A query in which
/// nothing is known is its only variant.
pub fn expand_query(query: &str) -> (out: Vec<String>)
    ensures
        text::views(out@) == expanded(rows_of(ALIASES_CSV@), query@),
{
    let idx = aliases();
    expand_with(&idx, query)
}

/// A query has one to four variants, no two of them the same.
pub proof fn one_to_four_variants(rows: Seq<RowView>, query: Seq<char>)
    ensures
        1 <= expanded(rows, query).len() <= 4,
        expanded(rows, query).no_duplicates(),
{
    let tokens = tokens_of(query);
    if any_known(rows, tokens) {
        let w0 = with(Seq::empty(), rendered(rows, tokens, Script::En));
        let w1 = with(w0, rendered(rows, tokens, Script::Simplified));
        let w2 = with(w1, rendered(rows, tokens, Script::Traditional));
        assert(w0.no_duplicates() && w0.len() == 1);
        assert(w1.no_duplicates() && 1 <= w1.len() <= 2);
        assert(w2.no_duplicates() && 1 <= w2.len() <= 3);
    }
}

/// A query in which no token is known, or that has none, stays as it is.
pub proof fn unknown_queries_stay(rows: Seq<RowView>, query: Seq<char>)
    requires
        forall|i: int|
            0 <= i < tokens_of(query).len() ==> row_for(rows, #[trigger] tokens_of(query)[i]) is None,
    ensures
        expanded(rows, query) == seq![query],
{
}

/// Two queries whose tokens stand one by one for the same names, and agree
/// where they stand for none, have the same variants, whatever scripts they
/// are written in.
pub proof fn scripts_do_not_matter(rows: Seq<RowView>, a: Seq<char>, b: Seq<char>)
    requires
        any_known(rows, tokens_of(a)),
        tokens_of(a).len() == tokens_of(b).len(),
        forall|i: int|
            0 <= i < tokens_of(a).len() ==> {
                &&& row_for(rows, #[trigger] tokens_of(a)[i]) == row_for(rows, tokens_of(b)[i])
                &&& row_for(rows, tokens_of(a)[i]) is None ==> tokens_of(a)[i] == tokens_of(b)[i]
            },
    ensures
        expanded(rows, a) == expanded(rows, b),
{
    let s = tokens_of(a);
    let t = tokens_of(b);
    let k = choose|k: int| 0 <= k < s.len() && row_for(rows, #[trigger] s[k]) is Some;
    assert(row_for(rows, t[k]) is Some);
    assert forall|script: Script| rendered(rows, s, script) == #[trigger] rendered(
        rows,
        t,
        script,
    ) by {
        let f = |x: Seq<char>| in_script(rows, x, script);
        assert forall|i: int| 0 <= i < s.len() implies s.map_values(f)[i] == t.map_values(f)[i] by {
            assert(row_for(rows, s[i]) == row_for(rows, t[i]));
        }
        assert(s.map_values(f) =~= t.map_values(f));
    }
}

/// A token stands for what its lower-case form stands for, wherever that form
/// is in lower case itself: where lower-casing it again changes nothing.
pub proof fn lower_case_finds_the_same(rows: Seq<RowView>, token: Seq<char>)
    requires
        text::lowercase(text::lowercase(token)) == text::lowercase(token),
    ensures
        row_for(rows, text::lowercase(token)) == row_for(rows, token),
{
    case_does_not_matter(rows, text::lowercase(token), token);
}

/// Tokens with the same lower-case form stand for the same row: the earliest
/// that answers to it.
pub proof fn case_does_not_matter(rows: Seq<RowView>, a: Seq<char>, b: Seq<char>)
    requires
        text::lowercase(a) == text::lowercase(b),
    ensures
        row_for(rows, a) == row_for(rows, b),
        row_for(rows, a) matches Some(r) ==> exists|i: int|
            {
                &&& 0 <= i < rows.len()
                &&& #[trigger] rows[i] == r
                &&& r.answers(text::lowercase(a), 4)
                &&& forall|j: int|
                    0 <= j < i ==> !(#[trigger] rows[j]).answers(text::lowercase(a), 4)
            },
{
    first_row_answers(rows, text::lowercase(a));
    if let Some(i) = first_row(rows, text::lowercase(a)) {
        assert(rows[i] == row_for(rows, a)->0);
    }
}

/// Every name of a row leads to that row, unless an earlier row answers to
/// it.
pub proof fn names_lead_home(rows: Seq<RowView>, i: int, script: Script)
    requires
        0 <= i < rows.len(),
        rows[i].variant(script).len() > 0,
        forall|j: int|
            0 <= j < i ==> !(#[trigger] rows[j]).answers(
                text::lowercase(rows[i].variant(script)),
                4,
            ),
    ensures
        row_for(rows, rows[i].variant(script)) == Some(rows[i]),
{
    let key = text::lowercase(rows[i].variant(script));
    first_row_answers(rows, key);
    assert(rows[i].answers(key, 4));
}

/// A name of one token finds the same in each of its scripts: the name in all
/// of them.
pub proof fn every_script_finds(rows: Seq<RowView>, i: int, a: Script, b: Script)
    requires
        0 <= i < rows.len(),
        tokens_of(rows[i].variant(a)) == seq![rows[i].variant(a)],
        tokens_of(rows[i].variant(b)) == seq![rows[i].variant(b)],
        row_for(rows, rows[i].variant(a)) == Some(rows[i]),
        row_for(rows, rows[i].variant(b)) == Some(rows[i]),
    ensures
        expanded(rows, rows[i].variant(a)) == expanded(rows, rows[i].variant(b)),
        forall|script: Script|
            expanded(rows, rows[i].variant(a)).contains(#[trigger] rows[i].variant(script)),
{
    let x = rows[i].variant(a);
    let tokens = tokens_of(x);
    assert(row_for(rows, tokens[0]) is Some);
    scripts_do_not_matter(rows, x, rows[i].variant(b));
    assert forall|script: Script| #[trigger] rendered(rows, tokens, script) == rows[i].variant(
        script,
    ) by {
        let parts = tokens.map_values(|t: Seq<char>| in_script(rows, t, script));
        assert(parts =~= seq![rows[i].variant(script)]);
    }
    let r0 = rendered(rows, tokens, Script::En);
    let r1 = rendered(rows, tokens, Script::Simplified);
    let r2 = rendered(rows, tokens, Script::Traditional);
    let r3 = rendered(rows, tokens, Script::Pinyin);
    let w0 = with(Seq::empty(), r0);
    let w1 = with(w0, r1);
    let w2 = with(w1, r2);
    let w3 = with(w2, r3);
    with_holds(Seq::empty(), r0);
    with_holds(w0, r1);
    with_holds(w1, r2);
    with_holds(w2, r3);
    assert(w3 == expanded(rows, x));
    assert forall|script: Script| w3.contains(#[trigger] rows[i].variant(script)) by {
        assert(rendered(rows, tokens, script) == rows[i].variant(script));
    }
}

proof fn with_holds(list: Seq<Seq<char>>, s: Seq<char>)
    ensures
        with(list, s).contains(s),
        forall|x: Seq<char>| #[trigger] list.contains(x) ==> with(list, s).contains(x),
{
    if !list.contains(s) {
        let more = list.push(s);
        assert(more[list.len() as int] == s);
        assert forall|x: Seq<char>| #[trigger] list.contains(x) implies more.contains(x) by {
            let k = choose|k: int| 0 <= k < list.len() && list[k] == x;
            assert(more[k] == x);
        }
    }
}

// ----- What the dictionary holds -----

/// A line holds a name in four scripts, in the order of its columns, with
/// commas between them; further columns do not count, nor does white space
/// around a name.
pub proof fn lines_hold_four_columns(
    a: Seq<char>,
    b: Seq<char>,
    c: Seq<char>,
    d: Seq<char>,
    more: Seq<Seq<char>>,
)
    requires
        a.len() > 0,
        a[0] != '#',
        !a.contains(','),
        !b.contains(','),
        !c.contains(','),
        !d.contains(','),
        forall|k: int| 0 <= k < more.len() ==> !(#[trigger] more[k]).contains(','),
        text::trim::is_trimmed(text::joined(seq![a, b, c, d] + more, seq![','])),
    ensures
        row_in(text::joined(seq![a, b, c, d] + more, seq![','])) == Some(
            RowView {
                en: text::trim::trimmed(a),
                simplified: text::trim::trimmed(b),
                traditional: text::trim::trimmed(c),
                pinyin: text::trim::trimmed(d),
            },
        ),
{
    let f = |x: char| x == ',';
    let cols = seq![a, b, c, d] + more;
    let line = text::joined(cols, seq![',']);
    assert forall|k: int, i: int| 0 <= k < cols.len() && 0 <= i < cols[k].len() implies !f(
        #[trigger] cols[k][i],
    ) by {
        let col = cols[k];
        if k >= 4 {
            assert(col == more[k - 4]);
        }
        assert(!col.contains(','));
        assert(col.contains(col[i]));
    }
    text::split::pieces_are_found_again(cols, ',', f);
    text::trim::trimmed_stays(line);
    text::joined_lists_are_put_together(seq![a], cols.drop_first(), seq![',']);
    assert(seq![a] + cols.drop_first() =~= cols);
    assert(line[0] == a[0]);
    assert(cols[0] == a && cols[1] == b && cols[2] == c && cols[3] == d);
}

/// Lines that are blank, comments, or too short hold nothing.
pub proof fn some_lines_hold_nothing(line: Seq<char>, cols: Seq<Seq<char>>)
    ensures
        text::trim::trimmed(line).len() == 0 ==> row_in(line) is None,
        text::trim::trimmed(line).len() > 0 && text::trim::trimmed(line)[0] == '#' ==> row_in(line)
            is None,
        0 < cols.len() < 4 && (forall|k: int|
            0 <= k < cols.len() ==> !(#[trigger] cols[k]).contains(',')) && text::trim::is_trimmed(
            text::joined(cols, seq![',']),
        ) ==> row_in(text::joined(cols, seq![','])) is None,
{
    if 0 < cols.len() < 4 && (forall|k: int|
        0 <= k < cols.len() ==> !(#[trigger] cols[k]).contains(',')) && text::trim::is_trimmed(
        text::joined(cols, seq![',']),
    ) {
        let f = |x: char| x == ',';
        assert forall|k: int, i: int| 0 <= k < cols.len() && 0 <= i < cols[k].len() implies !f(
            #[trigger] cols[k][i],
        ) by {
            let col = cols[k];
            assert(!col.contains(','));
            assert(col.contains(col[i]));
        }
        text::split::pieces_are_found_again(cols, ',', f);
        text::trim::trimmed_stays(text::joined(cols, seq![',']));
    }
}

/// The rows come in the order of their lines, one for each line that holds
/// one; the first line names the columns and holds none.
pub proof fn rows_come_in_order(a: Seq<Seq<char>>, b: Seq<Seq<char>>, header: Seq<char>)
    ensures
        rows_in(a + b) == rows_in(a) + rows_in(b),
        forall|line: Seq<char>| #[trigger]
            row_in(line) is Some ==> rows_in(seq![line]) == seq![row_in(line)->0],
        forall|line: Seq<char>| #[trigger] row_in(line) is None ==> rows_in(seq![line]).len() == 0,
        !header.contains('\n') && (forall|k: int|
            0 <= k < a.len() ==> !(#[trigger] a[k]).contains('\n')) ==> rows_of(
            text::joined(seq![header] + a, seq!['\n']),
        ) == rows_in(a),
    decreases b.len(),
{
    assert(rows_in(Seq::empty()) =~= Seq::empty());
    assert forall|line: Seq<char>| #[trigger] row_in(line) is Some implies rows_in(seq![line])
        == seq![row_in(line)->0] by {
        assert(seq![line].drop_last() =~= Seq::<Seq<char>>::empty());
        assert(seq![line].last() == line);
    }
    assert forall|line: Seq<char>| #[trigger] row_in(line) is None implies rows_in(
        seq![line],
    ).len() == 0 by {
        assert(seq![line].drop_last() =~= Seq::<Seq<char>>::empty());
        assert(seq![line].last() == line);
    }
    if b.len() == 0 {
        assert(a + b =~= a);
        assert(rows_in(a) + rows_in(b) =~= rows_in(a));
    } else {
        assert((a + b).drop_last() =~= a + b.drop_last());
        assert((a + b).last() == b.last());
        rows_come_in_order(a, b.drop_last(), header);
        assert(rows_in(a + b) =~= rows_in(a) + rows_in(b));
    }
    if !header.contains('\n') && (forall|k: int|
        0 <= k < a.len() ==> !(#[trigger] a[k]).contains('\n')) {
        let f = |x: char| x == '\n';
        let lines = seq![header] + a;
        assert forall|k: int, i: int| 0 <= k < lines.len() && 0 <= i < lines[k].len() implies !f(
            #[trigger] lines[k][i],
        ) by {
            let line = lines[k];
            if k > 0 {
                assert(line == a[k - 1]);
            }
            assert(!line.contains('\n'));
            assert(line.contains(line[i]));
        }
        text::split::pieces_are_found_again(lines, '\n', f);
        assert(lines.skip(1) =~= a);
    }
}

/// The tokens of a query are what stands between separators: tokens put
/// together with a separator between them are found again, in order.
pub proof fn tokens_are_found_again(tokens: Seq<Seq<char>>, c: char)
    requires
        tokens.len() > 0,
        separates(c),
        forall|k: int| 0 <= k < tokens.len() ==> (#[trigger] tokens[k]).len() > 0,
        forall|k: int, i: int|
            0 <= k < tokens.len() && 0 <= i < tokens[k].len() ==> !separates(
                #[trigger] tokens[k][i],
            ),
    ensures
        tokens_of(text::joined(tokens, seq![c])) == tokens,
{
    let f = |x: char| separates(x);
    text::split::pieces_are_found_again(tokens, c, f);
    text::split::nonempty_stays(tokens);
}

/// White space and eight marks separate tokens; letters, digits, hyphens and
/// apostrophes do not.
pub proof fn marks_separate_tokens(c: char)
    ensures
        text::is_white_space(c) ==> separates(c),
        c == ',' || c == '.' || c == ';' || c == ':' || c == '!' || c == '?' || c == '(' || c == ')'
            ==> separates(c),
        'a' <= c <= 'z' || 'A' <= c <= 'Z' || '0' <= c <= '9' || c == '-' || c == '\'' || c == '_'
            ==> !separates(c),
        '\u{4e00}' <= c <= '\u{9fff}' ==> !separates(c),
{
}

/// A query is put into a script token by token, in order: a known token as its
/// name in that script, any other as it is.
pub proof fn tokens_are_put_into_a_script(
    rows: Seq<RowView>,
    a: Seq<Seq<char>>,
    b: Seq<Seq<char>>,
    token: Seq<char>,
    script: Script,
)
    requires
        a.len() > 0,
        b.len() > 0,
    ensures
        rendered(rows, a + b, script) == rendered(rows, a, script) + " "@ + rendered(
            rows,
            b,
            script,
        ),
        row_for(rows, token) is None ==> rendered(rows, seq![token], script) == token,
        row_for(rows, token) matches Some(r) ==> {
            &&& rendered(rows, seq![token], Script::En) == r.en
            &&& rendered(rows, seq![token], Script::Simplified) == r.simplified
            &&& rendered(rows, seq![token], Script::Traditional) == r.traditional
            &&& rendered(rows, seq![token], Script::Pinyin) == r.pinyin
        },
{
    let f = |t: Seq<char>| in_script(rows, t, script);
    assert((a + b).map_values(f) =~= a.map_values(f) + b.map_values(f));
    text::joined_lists_are_put_together(a.map_values(f), b.map_values(f), " "@);
    assert forall|s: Script| #[trigger] rendered(rows, seq![token], s) == in_script(rows, token, s) by {
        assert(seq![token].map_values(|t: Seq<char>| in_script(rows, t, s)) =~= seq![
            in_script(rows, token, s),
        ]);
    }
}

/// The variants of a query stand in the order of the scripts, English first;
/// where no two are the same, there are all four.
pub proof fn variants_stand_in_script_order(rows: Seq<RowView>, query: Seq<char>)
    requires
        any_known(rows, tokens_of(query)),
    ensures
        expanded(rows, query)[0] == rendered(rows, tokens_of(query), Script::En),
        ({
            let e = rendered(rows, tokens_of(query), Script::En);
            let s = rendered(rows, tokens_of(query), Script::Simplified);
            let t = rendered(rows, tokens_of(query), Script::Traditional);
            let p = rendered(rows, tokens_of(query), Script::Pinyin);
            &&& e != s && e != t && e != p && s != t && s != p && t != p ==> expanded(rows, query)
                == seq![e, s, t, p]
            &&& e != s && s == t && e != p && s != p ==> expanded(rows, query) == seq![e, s, p]
            &&& e == s && s == t && t == p ==> expanded(rows, query) == seq![e]
        }),
{
    let tokens = tokens_of(query);
    let e = rendered(rows, tokens, Script::En);
    let s = rendered(rows, tokens, Script::Simplified);
    let t = rendered(rows, tokens, Script::Traditional);
    let p = rendered(rows, tokens, Script::Pinyin);
    let w0 = with(Seq::empty(), e);
    let w1 = with(w0, s);
    let w2 = with(w1, t);
    assert(w0 =~= seq![e]);
    assert(w0[0] == e);
    assert(w1[0] == e);
    assert(w2[0] == e);
    if e != s {
        assert(w1 =~= seq![e, s]);
        assert(w1[1] == s);
        if e != t && s != t {
            assert(w2 =~= seq![e, s, t]);
        }
    }
}

/// The view of a row has the name in every script, each in its own place.
pub proof fn rows_show_every_script(row: AliasRow)
    ensures
        row@.variant(Script::En) == row.en@,
        row@.variant(Script::Simplified) == row.simplified@,
        row@.variant(Script::Traditional) == row.traditional@,
        row@.variant(Script::Pinyin) == row.pinyin@,
{
}

} // verus!
