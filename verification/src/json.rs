//! JSON values as the rest of the library reads them.
use vstd::prelude::*;

use crate::codec::OtherNumber;
use crate::text::same_text;

verus! {

/// What a JSON number is: a natural number that fits 64 bits, or any other
/// number, known by the text it is written as.
pub enum NumberView {
    Natural(u64),
    Other(Seq<char>),
}

/// What a JSON value is. An object is a map: the order of its members is not
/// part of the value.
pub enum JsonView {
    Null,
    Bool(bool),
    Number(NumberView),
    Text(Seq<char>),
    Array(Seq<JsonView>),
    Object(Map<Seq<char>, JsonView>),
}

/// A JSON number. Numbers other than 64-bit naturals come from decoding only.
#[derive(Debug)]
pub enum JsonNumber {
    Natural(u64),
    Other(OtherNumber),
}

/// A JSON value. In `Object`, a later member replaces an earlier one of the
/// same name.
#[derive(Debug)]
pub enum Json {
    Null,
    Bool(bool),
    Number(JsonNumber),
    Text(String),
    Array(Vec<Json>),
    Object(Vec<(String, Json)>),
}

impl View for JsonNumber {
    type V = NumberView;

    open spec fn view(&self) -> NumberView {
        match *self {
            JsonNumber::Natural(n) => NumberView::Natural(n),
            JsonNumber::Other(other) => NumberView::Other(other@),
        }
    }
}

impl View for Json {
    type V = JsonView;

    open spec fn view(&self) -> JsonView {
        self.tree()
    }
}

impl Json {
    /// The value that `self` holds.
    pub open spec fn tree(self) -> JsonView
        decreases self,
    {
        match self {
            Json::Null => JsonView::Null,
            Json::Bool(b) => JsonView::Bool(b),
            Json::Number(n) => JsonView::Number(n@),
            Json::Text(s) => JsonView::Text(s@),
            Json::Array(items) => JsonView::Array(
                Seq::new(
                    items@.len(),
                    |i: int| if 0 <= i < items@.len() { items@[i].tree() } else { JsonView::Null },
                ),
            ),
            Json::Object(members) => JsonView::Object(members_tree(members@)),
        }
    }
}

/// The map that a list of members stands for, the later ones replacing the
/// earlier ones.
pub open spec fn members_tree(members: Seq<(String, Json)>) -> Map<Seq<char>, JsonView>
    decreases members,
{
    if members.len() == 0 {
        Map::empty()
    } else {
        members_tree(members.drop_last()).insert(members.last().0@, members.last().1.tree())
    }
}

/// The member of an object by its name; nothing for a value that is no object.
pub open spec fn member(value: JsonView, key: Seq<char>) -> Option<JsonView> {
    match value {
        JsonView::Object(members) => if members.dom().contains(key) {
            Some(members[key])
        } else {
            None
        },
        _ => None,
    }
}

/// Some value behind a reference, as a value of the model.
pub open spec fn tree_of(value: Option<&Json>) -> Option<JsonView> {
    match value {
        Some(json) => Some(json@),
        None => None,
    }
}

impl Json {
    /// Whether the value is an object.
    pub fn is_object(&self) -> (r: bool)
        ensures
            r == (self@ is Object),
    {
        match self {
            Json::Object(_) => true,
            _ => false,
        }
    }

    /// The member of an object by its name.
    pub fn get(&self, key: &str) -> (r: Option<&Json>)
        ensures
            tree_of(r) == member(self@, key@),
    {
        match self {
            Json::Object(members) => {
                let mut i: usize = members.len();
                assert(members@.take(i as int) =~= members@);
                while i > 0
                    invariant
                        i <= members@.len(),
                        self@ == JsonView::Object(members_tree(members@)),
                        members_tree(members@).dom().contains(key@) == members_tree(
                            members@.take(i as int),
                        ).dom().contains(key@),
                        members_tree(members@).dom().contains(key@) ==> members_tree(members@)[key@]
                            == members_tree(members@.take(i as int))[key@],
                    decreases i,
                {
                    assert(members@.take(i as int).drop_last() =~= members@.take(i - 1));
                    assert(members@.take(i as int).last() == members@[i - 1]);
                    i = i - 1;
                    if same_text(members[i].0.as_str(), key) {
                        return Some(&members[i].1);
                    }
                }
                None
            },
            _ => None,
        }
    }

    /// The items of an array.
    pub fn as_array(&self) -> (r: Option<&Vec<Json>>)
        ensures
            r is Some <==> self@ is Array,
            r matches Some(items) ==> self@ == JsonView::Array(trees(items@)),
    {
        match self {
            Json::Array(items) => {
                assert(self@->Array_0 =~= trees(items@));
                Some(items)
            },
            _ => None,
        }
    }
}

/// The values that a list of JSON values holds.
pub open spec fn trees(items: Seq<Json>) -> Seq<JsonView> {
    Seq::new(items.len(), |i: int| items[i]@)
}

/// An array holds the values of its items.
pub proof fn lemma_array_tree(items: Vec<Json>)
    ensures
        Json::Array(items)@ == JsonView::Array(trees(items@)),
{
    assert(Json::Array(items)@->Array_0 =~= trees(items@));
}

/// A member at the end of a list replaces one of the same name.
pub broadcast proof fn lemma_member_pushed(members: Seq<(String, Json)>, last: (String, Json))
    ensures
        #[trigger] members_tree(members.push(last)) == members_tree(members).insert(
            last.0@,
            last.1@,
        ),
{
    assert(members.push(last).drop_last() =~= members);
}

/// A value in the model is the value: of the same kind, with every character,
/// every item in its place, and every number as it is.
pub proof fn values_keep_what_they_hold(
    b: bool,
    n: u64,
    other: OtherNumber,
    text: String,
    items: Vec<Json>,
)
    ensures
        Json::Null@ == JsonView::Null,
        Json::Bool(b)@ == JsonView::Bool(b),
        Json::Number(JsonNumber::Natural(n))@ == JsonView::Number(NumberView::Natural(n)),
        Json::Number(JsonNumber::Other(other))@ == JsonView::Number(NumberView::Other(other@)),
        Json::Text(text)@ == JsonView::Text(text@),
        Json::Array(items)@ is Array,
        Json::Array(items)@->Array_0.len() == items@.len(),
        forall|i: int|
            0 <= i < items@.len() ==> #[trigger] Json::Array(items)@->Array_0[i] == items@[i]@,
{
}

/// An object has under each name the last of its members of that name, and
/// nothing under any other name.
pub proof fn last_member_of_a_name_counts(members: Vec<(String, Json)>, key: Seq<char>)
    ensures
        forall|i: int|
            #![trigger members@[i]]
            0 <= i < members@.len() && members@[i].0@ == key && (forall|j: int|
                i < j < members@.len() ==> (#[trigger] members@[j]).0@ != key) ==> member(
                Json::Object(members)@,
                key,
            ) == Some(members@[i].1@),
        (forall|i: int| 0 <= i < members@.len() ==> (#[trigger] members@[i]).0@ != key) ==> member(
            Json::Object(members)@,
            key,
        ) is None,
{
    assert forall|i: int|
        #![trigger members@[i]]
        0 <= i < members@.len() && members@[i].0@ == key && (forall|j: int|
            i < j < members@.len() ==> (#[trigger] members@[j]).0@ != key) implies member(
        Json::Object(members)@,
        key,
    ) == Some(members@[i].1@) by {
        lemma_last_member(members@, i);
    }
    if forall|i: int| 0 <= i < members@.len() ==> (#[trigger] members@[i]).0@ != key {
        lemma_no_member(members@, key);
    }
}

proof fn lemma_last_member(members: Seq<(String, Json)>, i: int)
    requires
        0 <= i < members.len(),
        forall|j: int| i < j < members.len() ==> (#[trigger] members[j]).0@ != members[i].0@,
    ensures
        members_tree(members).dom().contains(members[i].0@),
        members_tree(members)[members[i].0@] == members[i].1@,
    decreases members.len(),
{
    if i < members.len() - 1 {
        let earlier = members.drop_last();
        assert(members[members.len() - 1].0@ != members[i].0@);
        assert forall|j: int| i < j < earlier.len() implies (#[trigger] earlier[j]).0@
            != earlier[i].0@ by {
            assert(members[j].0@ != members[i].0@);
        }
        lemma_last_member(earlier, i);
    }
}

proof fn lemma_no_member(members: Seq<(String, Json)>, key: Seq<char>)
    requires
        forall|i: int| 0 <= i < members.len() ==> (#[trigger] members[i]).0@ != key,
    ensures
        !members_tree(members).dom().contains(key),
    decreases members.len(),
{
    if members.len() > 0 {
        let earlier = members.drop_last();
        assert(members[members.len() - 1].0@ != key);
        assert forall|i: int| 0 <= i < earlier.len() implies (#[trigger] earlier[i]).0@ != key by {
            assert(members[i].0@ != key);
        }
        lemma_no_member(earlier, key);
    }
}

/// Only an object has members: those of its map. A reference leads to the value,
/// and a list of values has each in its place.
pub proof fn members_are_looked_up(
    members: Map<Seq<char>, JsonView>,
    key: Seq<char>,
    value: JsonView,
    json: &Json,
    items: Seq<Json>,
)
    ensures
        members.dom().contains(key) ==> member(JsonView::Object(members), key) == Some(
            members[key],
        ),
        !members.dom().contains(key) ==> member(JsonView::Object(members), key) is None,
        !(value is Object) ==> member(value, key) is None,
        tree_of(Some(json)) == Some(json@),
        tree_of(None) is None,
        trees(items).len() == items.len(),
        forall|i: int| 0 <= i < items.len() ==> #[trigger] trees(items)[i] == items[i]@,
{
}

} // verus!
