//! JSON documents.
//!
//! A document is a tree of [`Json`] values. Contracts speak of its view, a
//! [`JsonView`], in which texts are character sequences.

use crate::text;
use vstd::prelude::*;

verus! {

/// A JSON value. Numbers that do not fit `u64` (negative ones, fractions)
/// keep only the fact that they are numbers.
#[derive(Debug)]
pub enum Json {
    Null,
    Bool(bool),
    Unsigned(u64),
    Number,
    Text(String),
    List(Vec<Json>),
    /// The members in the order of the document's map.
    Object(Vec<(String, Json)>),
}

/// The view of a [`Json`] value.
pub enum JsonView {
    Null,
    Bool(bool),
    Unsigned(u64),
    Number,
    Text(Seq<char>),
    List(Seq<JsonView>),
    Object(Seq<(Seq<char>, JsonView)>),
}

/// What a document says: its texts as character sequences, its lists and
/// objects as sequences.
pub open spec fn view_of(j: Json) -> JsonView
    decreases j,
{
    match j {
        Json::Null => JsonView::Null,
        Json::Bool(b) => JsonView::Bool(b),
        Json::Unsigned(n) => JsonView::Unsigned(n),
        Json::Number => JsonView::Number,
        Json::Text(s) => JsonView::Text(s@),
        Json::List(items) => JsonView::List(
            Seq::new(
                items@.len(),
                |i: int|
                    if 0 <= i < items@.len() {
                        view_of(items@[i])
                    } else {
                        JsonView::Null
                    },
            ),
        ),
        Json::Object(members) => JsonView::Object(
            Seq::new(
                members@.len(),
                |i: int|
                    if 0 <= i < members@.len() {
                        (members@[i].0@, view_of(members@[i].1))
                    } else {
                        (Seq::<char>::empty(), JsonView::Null)
                    },
            ),
        ),
    }
}

impl View for Json {
    type V = JsonView;

    open spec fn view(&self) -> JsonView {
        view_of(*self)
    }
}

/// The views of a list of documents.
pub open spec fn views(items: Seq<Json>) -> Seq<JsonView> {
    items.map_values(|j: Json| j@)
}

/// The view of an optional document.
pub open spec fn view_opt(j: Option<&Json>) -> Option<JsonView> {
    match j {
        Some(v) => Some(v@),
        None => None,
    }
}

/// The first value under `key` among `members`.
pub open spec fn member(members: Seq<(Seq<char>, JsonView)>, key: Seq<char>) -> Option<JsonView>
    decreases members.len(),
{
    if members.len() == 0 {
        None
    } else if members[0].0 == key {
        Some(members[0].1)
    } else {
        member(members.drop_first(), key)
    }
}

impl JsonView {
    /// The member `key` of an object.
    pub open spec fn get(self, key: Seq<char>) -> Option<JsonView> {
        match self {
            JsonView::Object(members) => member(members, key),
            _ => None,
        }
    }

    /// The value reached by taking the members `path` one after the other.
    pub open spec fn descend(self, path: Seq<Seq<char>>) -> Option<JsonView>
        decreases path.len(),
    {
        if path.len() == 0 {
            Some(self)
        } else {
            match self.get(path[0]) {
                Some(v) => v.descend(path.drop_first()),
                None => None,
            }
        }
    }

    pub open spec fn text(self) -> Option<Seq<char>> {
        match self {
            JsonView::Text(s) => Some(s),
            _ => None,
        }
    }

    pub open spec fn unsigned(self) -> Option<u64> {
        match self {
            JsonView::Unsigned(n) => Some(n),
            _ => None,
        }
    }

    pub open spec fn boolean(self) -> Option<bool> {
        match self {
            JsonView::Bool(b) => Some(b),
            _ => None,
        }
    }

    pub open spec fn list(self) -> Option<Seq<JsonView>> {
        match self {
            JsonView::List(items) => Some(items),
            _ => None,
        }
    }
}

/// The text under `key` of an object.
pub open spec fn text_member(j: JsonView, key: Seq<char>) -> Option<Seq<char>> {
    match j.get(key) {
        Some(v) => v.text(),
        None => None,
    }
}

/// The unsigned number under `key` of an object.
pub open spec fn unsigned_member(j: JsonView, key: Seq<char>) -> Option<u64> {
    match j.get(key) {
        Some(v) => v.unsigned(),
        None => None,
    }
}

impl Json {
    /// The member `key` of an object.
    pub fn get(&self, key: &str) -> (r: Option<&Json>)
        ensures
            view_opt(r) == self@.get(key@),
            r matches Some(v) ==> decreases_to!(self => v),
    {
        match self {
            Json::Object(members) => {
                let ghost all = self@->Object_0;
                assert(all.skip(0) =~= all);
                for i in 0..members.len()
                    invariant
                        self == Json::Object(*members),
                        all == self@->Object_0,
                        all.len() == members@.len(),
                        self@.get(key@) == member(all.skip(i as int), key@),
                {
                    let (name, value) = &members[i];
                    assert(all[i as int] == (name@, value@));
                    assert(all.skip(i as int)[0] == all[i as int]);
                    if text::same(name.as_str(), key) {
                        return Some(value);
                    }
                    assert(all.skip(i as int).drop_first() =~= all.skip(i + 1));
                }
                None
            },
            _ => None,
        }
    }

    /// The value reached by taking the members `path` one after the other.
    pub fn descend(&self, path: &[&str]) -> (r: Option<&Json>)
        ensures
            view_opt(r) == self@.descend(path@.map_values(|s: &str| s@)),
    {
        let mut at: &Json = self;
        let ghost keys = path@.map_values(|s: &str| s@);
        assert(keys.skip(0) =~= keys);
        for i in 0..path.len()
            invariant
                keys == path@.map_values(|s: &str| s@),
                self@.descend(keys) == at@.descend(keys.skip(i as int)),
        {
            assert(keys.skip(i as int)[0] == path@[i as int]@);
            assert(keys.skip(i as int).drop_first() =~= keys.skip(i + 1));
            match at.get(path[i]) {
                Some(next) => {
                    at = next;
                },
                None => {
                    return None;
                },
            }
        }
        Some(at)
    }

    pub fn text(&self) -> (r: Option<&str>)
        ensures
            self@.text() == (match r {
                Some(s) => Some(s@),
                None => None,
            }),
    {
        match self {
            Json::Text(s) => Some(s.as_str()),
            _ => None,
        }
    }

    pub fn unsigned(&self) -> (r: Option<u64>)
        ensures
            r == self@.unsigned(),
    {
        match self {
            Json::Unsigned(n) => Some(*n),
            _ => None,
        }
    }

    pub fn boolean(&self) -> (r: Option<bool>)
        ensures
            r == self@.boolean(),
    {
        match self {
            Json::Bool(b) => Some(*b),
            _ => None,
        }
    }

    pub fn list(&self) -> (r: Option<&Vec<Json>>)
        ensures
            self@.list() == (match r {
                Some(items) => Some(views(items@)),
                None => None,
            }),
            r matches Some(items) ==> *self == Json::List(*items),
    {
        match self {
            Json::List(items) => {
                assert(self@->List_0 =~= views(items@));
                Some(items)
            },
            _ => None,
        }
    }

    /// The text under `key` of an object.
    pub fn text_member(&self, key: &str) -> (r: Option<&str>)
        ensures
            text_member(self@, key@) == (match r {
                Some(s) => Some(s@),
                None => None,
            }),
    {
        match self.get(key) {
            Some(v) => v.text(),
            None => None,
        }
    }

    /// The unsigned number under `key` of an object.
    pub fn unsigned_member(&self, key: &str) -> (r: Option<u64>)
        ensures
            r == unsigned_member(self@, key@),
    {
        match self.get(key) {
            Some(v) => v.unsigned(),
            None => None,
        }
    }
}

/// A document as `serde_json` holds it.
#[verifier::external_type_specification]
#[verifier::external_body]
pub struct ExValue(serde_json::Value);

/// What a `serde_json::Value` holds.
pub uninterp spec fn value_contents(v: serde_json::Value) -> JsonView;

/// The document that `serde_json::from_str` reads from a text, if the text is
/// one JSON value.
pub uninterp spec fn parsed(s: Seq<char>) -> Option<JsonView>;

/// `serde_json::from_str` into a `serde_json::Value`. Whether it succeeds,
/// and what the value holds, depends on the text alone.
#[verifier::external_body]
fn parse_value(s: &str) -> (r: Option<serde_json::Value>)
    ensures
        parsed(s@) == (match r {
            Some(v) => Some(value_contents(v)),
            None => None,
        }),
{
    serde_json::from_str(s).ok()
}

/// The variants of `serde_json::Value` one by one: the result holds what the
/// value held.
#[verifier::external_body]
fn from_value(v: serde_json::Value) -> (j: Json)
    ensures
        j@ == value_contents(v),
{
    match v {
        serde_json::Value::Null => Json::Null,
        serde_json::Value::Bool(b) => Json::Bool(b),
        serde_json::Value::Number(n) => match n.as_u64() {
            Some(u) => Json::Unsigned(u),
            None => Json::Number,
        },
        serde_json::Value::String(s) => Json::Text(s),
        serde_json::Value::Array(items) => Json::List(items.into_iter().map(from_value).collect()),
        serde_json::Value::Object(members) => Json::Object(
            members.into_iter().map(|(k, v)| (k, from_value(v))).collect(),
        ),
    }
}

/// Reads one JSON document.
pub fn parse(s: &str) -> (r: Option<Json>)
    ensures
        parsed(s@) == (match r {
            Some(j) => Some(j@),
            None => None,
        }),
{
    match parse_value(s) {
        Some(v) => Some(from_value(v)),
        None => None,
    }
}

/// A member is the first of its name: where `members[i]` is named `key` and
/// none before it is, it is the one that is found, and nothing is found where
/// none is so named.
pub proof fn first_member_is_found(members: Seq<(Seq<char>, JsonView)>, key: Seq<char>)
    ensures
        forall|i: int|
            0 <= i < members.len() && (#[trigger] members[i]).0 == key && (forall|j: int|
                0 <= j < i ==> (#[trigger] members[j]).0 != key) ==> JsonView::Object(members).get(
                key,
            ) == Some(members[i].1),
        (forall|i: int| 0 <= i < members.len() ==> (#[trigger] members[i]).0 != key)
            ==> JsonView::Object(members).get(key) is None,
    decreases members.len(),
{
    if members.len() > 0 {
        let rest = members.drop_first();
        first_member_is_found(rest, key);
        assert(JsonView::Object(rest).get(key) == member(rest, key));
        assert forall|i: int|
            0 <= i < members.len() && (#[trigger] members[i]).0 == key && (forall|j: int|
                0 <= j < i ==> (#[trigger] members[j]).0 != key) implies JsonView::Object(
            members,
        ).get(key) == Some(members[i].1) by {
            if i > 0 {
                assert(members[0].0 != key);
                assert(rest[i - 1] == members[i]);
                assert forall|j: int| 0 <= j < i - 1 implies (#[trigger] rest[j]).0 != key by {
                    assert(rest[j] == members[j + 1]);
                }
            }
        }
        if forall|i: int| 0 <= i < members.len() ==> (#[trigger] members[i]).0 != key {
            assert(members[0].0 != key);
            assert forall|j: int| 0 <= j < rest.len() implies (#[trigger] rest[j]).0 != key by {
                assert(rest[j] == members[j + 1]);
            }
        }
    }
}

/// Only an object has members, and only a value of its own kind gives a text,
/// a number, a truth value or a list.
pub proof fn values_have_one_kind(v: JsonView, key: Seq<char>)
    ensures
        v !is Object ==> v.get(key) is None,
        forall|s: Seq<char>| v.text() == Some(s) <==> v == JsonView::Text(s),
        forall|n: u64| v.unsigned() == Some(n) <==> v == JsonView::Unsigned(n),
        forall|b: bool| v.boolean() == Some(b) <==> v == JsonView::Bool(b),
        forall|l: Seq<JsonView>| v.list() == Some(l) <==> v == JsonView::List(l),
        forall|s: Seq<char>|
            text_member(v, key) == Some(s) <==> v.get(key) == Some(JsonView::Text(s)),
        forall|n: u64|
            unsigned_member(v, key) == Some(n) <==> v.get(key) == Some(JsonView::Unsigned(n)),
{
}

/// Going down a path is going down its front part, and from there down the
/// rest; one step is taking a member.
pub proof fn paths_are_walked_in_order(v: JsonView, front: Seq<Seq<char>>, rest: Seq<Seq<char>>)
    ensures
        v.descend(front + rest) == (match v.descend(front) {
            Some(w) => w.descend(rest),
            None => None,
        }),
        forall|key: Seq<char>| v.descend(seq![key]) == #[trigger] v.get(key),
    decreases front.len(),
{
    assert forall|key: Seq<char>| v.descend(seq![key]) == #[trigger] v.get(key) by {
        assert(seq![key].drop_first() =~= Seq::<Seq<char>>::empty());
        if let Some(w) = v.get(key) {
            assert(w.descend(Seq::<Seq<char>>::empty()) == Some(w));
        }
    }
    if front.len() == 0 {
        assert(front + rest =~= rest);
    } else {
        assert((front + rest)[0] == front[0]);
        assert((front + rest).drop_first() =~= front.drop_first() + rest);
        if let Some(w) = v.get(front[0]) {
            paths_are_walked_in_order(w, front.drop_first(), rest);
        }
    }
}

/// The view of a document says what it holds: values as they are, and lists
/// and objects item by item, in order.
pub proof fn views_say_what_documents_hold(
    s: String,
    n: u64,
    b: bool,
    items: Vec<Json>,
    members: Vec<(String, Json)>,
)
    ensures
        Json::Null@ == JsonView::Null,
        Json::Number@ == JsonView::Number,
        Json::Bool(b)@ == JsonView::Bool(b),
        Json::Unsigned(n)@ == JsonView::Unsigned(n),
        Json::Text(s)@ == JsonView::Text(s@),
        Json::List(items)@ matches JsonView::List(v) && v.len() == items@.len() && forall|i: int|
            0 <= i < v.len() ==> (#[trigger] v[i]) == items@[i]@,
        Json::Object(members)@ matches JsonView::Object(v) && v.len() == members@.len() && forall|
            i: int,
        |
            0 <= i < v.len() ==> (#[trigger] v[i]).0 == members@[i].0@ && v[i].1 == members@[i].1@,
{
}

} // verus!
