//! JSON values, as far as the queries to the search index and its answers need them.
use vstd::prelude::*;
use crate::text::same_text;

verus! {

/// A JSON value.
#[derive(Debug, PartialEq, Eq)]
pub enum Json {
    Null,
    Bool(bool),
    /// A number that is a whole number from 0 to 2^64 - 1.
    Count(u64),
    /// Any other number, as JSON writes it.
    Number(String),
    Text(String),
    Array(Vec<Json>),
    /// The members of an object, each with its name.
    Object(Vec<(String, Json)>),
}

/// A JSON value, with its texts as sequences of characters.
pub ghost enum JsonView {
    Null,
    Bool(bool),
    Count(u64),
    Number(Seq<char>),
    Text(Seq<char>),
    Array(Seq<JsonView>),
    Object(Seq<(Seq<char>, JsonView)>),
}

/// The view of a value: that of each of its parts, in their order.
pub open spec fn json_view(value: Json) -> JsonView
    decreases value,
{
    match value {
        Json::Null => JsonView::Null,
        Json::Bool(b) => JsonView::Bool(b),
        Json::Count(n) => JsonView::Count(n),
        Json::Number(text) => JsonView::Number(text@),
        Json::Text(text) => JsonView::Text(text@),
        Json::Array(items) => JsonView::Array(
            Seq::new(
                items@.len(),
                |i: int|
                    if 0 <= i < items@.len() {
                        json_view(items@[i])
                    } else {
                        JsonView::Null
                    },
            ),
        ),
        Json::Object(members) => JsonView::Object(
            Seq::new(
                members@.len(),
                |i: int|
                    if 0 <= i < members@.len() {
                        (members@[i].0@, json_view(members@[i].1))
                    } else {
                        (Seq::empty(), JsonView::Null)
                    },
            ),
        ),
    }
}

impl View for Json {
    type V = JsonView;

    open spec fn view(&self) -> JsonView {
        json_view(*self)
    }
}

impl DeepView for Json {
    type V = JsonView;

    open spec fn deep_view(&self) -> JsonView {
        json_view(*self)
    }
}

/// The first member called `key` among the first `end` of `members`.
pub open spec fn member(members: Seq<(Seq<char>, JsonView)>, key: Seq<char>, end: int) -> Option<
    JsonView,
>
    decreases end,
{
    if end <= 0 || end > members.len() {
        None
    } else {
        match member(members, key, end - 1) {
            Some(value) => Some(value),
            None => if members[end - 1].0 == key {
                Some(members[end - 1].1)
            } else {
                None
            },
        }
    }
}

impl JsonView {
    /// The member called `key`, where the value is an object that has one; the first, if
    /// it has several.
    pub open spec fn lookup(self, key: Seq<char>) -> Option<JsonView> {
        match self {
            JsonView::Object(members) => member(members, key, members.len() as int),
            _ => None,
        }
    }

    /// The items of the value, where it is an array.
    pub open spec fn items(self) -> Option<Seq<JsonView>> {
        match self {
            JsonView::Array(items) => Some(items),
            _ => None,
        }
    }

    /// The text of the value, where it is a string.
    pub open spec fn text(self) -> Option<Seq<char>> {
        match self {
            JsonView::Text(text) => Some(text),
            _ => None,
        }
    }

    /// The number of the value, where it is a whole number from 0 to 2^64 - 1.
    pub open spec fn count(self) -> Option<u64> {
        match self {
            JsonView::Count(n) => Some(n),
            _ => None,
        }
    }
}

/// The first member called `key` among the first `at`, if there is none before it, is
/// the first among any more.
pub proof fn lemma_member_found(
    members: Seq<(Seq<char>, JsonView)>,
    key: Seq<char>,
    at: int,
    end: int,
)
    requires
        0 <= at < end <= members.len(),
        member(members, key, at).is_none(),
        members[at].0 == key,
    ensures
        member(members, key, end) == Some(members[at].1),
    decreases end - at,
{
    if end > at + 1 {
        lemma_member_found(members, key, at, end - 1);
    }
}

impl Json {
    /// The member called `key` of an object.
    #[verifier::loop_isolation(false)]
    pub fn get(&self, key: &str) -> (r: Option<&Json>)
        ensures
            match r {
                Some(value) => self@.lookup(key@) == Some(value@),
                None => self@.lookup(key@).is_none(),
            },
    {
        match self {
            Json::Object(members) => {
                let ghost views = self@->Object_0;
                let mut i: usize = 0;
                while i < members.len()
                    invariant
                        i <= members.len(),
                        member(views, key@, i as int).is_none(),
                    decreases members.len() - i,
                {
                    assert(views[i as int] == (members[i as int].0@, members[i as int].1@));
                    if same_text(members[i].0.as_str(), key) {
                        proof {
                            lemma_member_found(views, key@, i as int, members.len() as int);
                        }
                        return Some(&members[i].1);
                    }
                    i += 1;
                }
                None
            },
            _ => None,
        }
    }

    /// The items of an array.
    pub fn as_array(&self) -> (r: Option<&Vec<Json>>)
        ensures
            match r {
                Some(items) => self@.items() == Some(items.deep_view()),
                None => self@.items().is_none(),
            },
    {
        match self {
            Json::Array(items) => {
                assert(self@->Array_0 =~= items.deep_view());
                Some(items)
            },
            _ => None,
        }
    }

    /// The text of a string.
    pub fn as_str(&self) -> (r: Option<&str>)
        ensures
            match r {
                Some(text) => self@.text() == Some(text@),
                None => self@.text().is_none(),
            },
    {
        match self {
            Json::Text(text) => Some(text.as_str()),
            _ => None,
        }
    }

    /// The number of a whole number from 0 to 2^64 - 1.
    pub fn as_u64(&self) -> (r: Option<u64>)
        ensures
            r == self@.count(),
    {
        match self {
            Json::Count(n) => Some(*n),
            _ => None,
        }
    }

    /// The string that holds `text`.
    pub fn text(text: &str) -> (r: Json)
        ensures
            r@ == JsonView::Text(text@),
    {
        Json::Text(String::from_str(text))
    }

    /// The array of `items`.
    pub fn array(items: Vec<Json>) -> (r: Json)
        ensures
            r@ == JsonView::Array(items.deep_view()),
    {
        let r = Json::Array(items);
        assert(r@->Array_0 =~= items.deep_view());
        r
    }

    /// The object of `members`.
    pub fn object(members: Vec<(String, Json)>) -> (r: Json)
        ensures
            r@ == JsonView::Object(members.deep_view()),
    {
        let r = Json::Object(members);
        assert(r@->Object_0 =~= members.deep_view());
        r
    }
}

/// Puts one more member behind those of an object that is being made.
pub fn put(members: &mut Vec<(String, Json)>, name: &str, value: Json)
    ensures
        final(members).deep_view() == old(members).deep_view().push((name@, value@)),
{
    let ghost before = members.deep_view();
    members.push((String::from_str(name), value));
    assert(members.deep_view() =~= before.push((name@, value@)));
}

} // verus!
