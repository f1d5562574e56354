//! Reading JSON text and writing it, by `serde_json`.
use vstd::prelude::*;
use vstd::string::StringExecFns;

use crate::json::{lemma_array_tree, members_tree, trees, Json, JsonNumber, JsonView, NumberView};
use crate::text::{decimal, trimmed};

verus! {

/// `serde_json::Value`, carried through without a look inside.
#[verifier::external_type_specification]
#[verifier::external_body]
pub struct ExValue(serde_json::Value);

/// `serde_json::Map`, known by what `map_tree` says of it.
#[verifier::external_type_specification]
#[verifier::external_body]
#[verifier::reject_recursive_types(K)]
#[verifier::reject_recursive_types(V)]
pub struct ExMap<K, V>(serde_json::Map<K, V>);

/// `<serde_json::Value as Clone>::clone` gives back a value that holds the same.
pub assume_specification[ <serde_json::Value as Clone>::clone ](value: &serde_json::Value) -> (r:
    serde_json::Value)
    ensures
        value_tree(r) == value_tree(*value),
;

/// A number that is no 64-bit natural: as `serde_json` holds it, and the text
/// that `serde_json` displays it as.
#[derive(Debug)]
pub struct OtherNumber {
    text: String,
    value: serde_json::Value,
}

impl View for OtherNumber {
    type V = Seq<char>;

    closed spec fn view(&self) -> Seq<char> {
        self.text@
    }
}

impl OtherNumber {
    /// The text is the one of the number.
    #[verifier::type_invariant]
    spec fn inv(self) -> bool {
        value_tree(self.value) == JsonView::Number(NumberView::Other(self.text@))
    }

    /// The text of the number.
    pub fn text(&self) -> (r: String)
        ensures
            r@ == self@,
    {
        self.text.clone()
    }

    /// The number as `serde_json` holds it.
    fn to_value(&self) -> (r: serde_json::Value)
        ensures
            value_tree(r) == JsonView::Number(NumberView::Other(self@)),
    {
        proof {
            use_type_invariant(self);
        }
        self.value.clone()
    }
}

/// The outermost level of a `serde_json::Value` that is taken apart.
pub(crate) enum Level {
    Null,
    Bool(bool),
    /// A number: the natural number that it is, if any, its text, and the value
    /// that holds it.
    Number(Option<u64>, String, serde_json::Value),
    Text(String),
    Items(Vec<serde_json::Value>),
    Members(Vec<(String, serde_json::Value)>),
}

/// The outermost level of a `serde_json::Value` that is put together.
pub(crate) enum Parts {
    Null,
    Bool(bool),
    Natural(u64),
    Text(String),
    Items(Vec<serde_json::Value>),
    Members(serde_json::Map<String, serde_json::Value>),
}

/// Whether a text is that of a negative integer which fits 64 bits.
pub open spec fn is_negative(text: Seq<char>) -> bool {
    exists|n: nat|
        1 <= n <= 0x8000_0000_0000_0000 && text == seq!['-'] + #[trigger] decimal(n)
}

/// Whether a value is nested at most `depth` levels deep and every number in it
/// is an integer that fits 64 bits.
pub open spec fn plain_within(value: JsonView, depth: nat) -> bool
    decreases depth,
{
    match value {
        JsonView::Number(NumberView::Natural(_)) => true,
        JsonView::Number(NumberView::Other(text)) => is_negative(text),
        JsonView::Array(items) => depth > 0 && forall|i: int|
            0 <= i < items.len() ==> plain_within(#[trigger] items[i], (depth - 1) as nat),
        JsonView::Object(members) => depth > 0 && forall|key: Seq<char>|
            #[trigger]
            members.dom().contains(key) ==> plain_within(members[key], (depth - 1) as nat),
        _ => true,
    }
}

/// The values that come back unchanged when their text is read again: the
/// reader stops at 128 levels, and may miss a real number by its last digit.
pub open spec fn survives(value: JsonView) -> bool {
    plain_within(value, 127)
}

/// What a `serde_json::Value` holds.
pub uninterp spec fn value_tree(value: serde_json::Value) -> JsonView;

/// What a `serde_json::Map` holds.
pub uninterp spec fn map_tree(map: serde_json::Map<String, serde_json::Value>) -> Map<
    Seq<char>,
    JsonView,
>;

/// What `serde_json::from_str` makes of a text: a value, or the message of the
/// error.
pub uninterp spec fn json_decoded(text: Seq<char>) -> Result<JsonView, Seq<char>>;

/// The text that `serde_json::to_string` writes for a value.
pub uninterp spec fn json_compact(value: JsonView) -> Seq<char>;

/// The text that `serde_json::to_string_pretty` writes for a value.
pub uninterp spec fn json_pretty(value: JsonView) -> Seq<char>;

/// What a list of `serde_json::Value`s holds.
pub(crate) open spec fn value_trees(values: Seq<serde_json::Value>) -> Seq<JsonView> {
    Seq::new(values.len(), |i: int| value_tree(values[i]))
}

/// The map that a list of members stands for, the later ones replacing the
/// earlier ones.
pub(crate) open spec fn value_members(members: Seq<(String, serde_json::Value)>) -> Map<
    Seq<char>,
    JsonView,
>
    decreases members.len(),
{
    if members.len() == 0 {
        Map::empty()
    } else {
        value_members(members.drop_last()).insert(members.last().0@, value_tree(members.last().1))
    }
}

/// Whether no two members have the same name.
pub(crate) open spec fn distinct_names(members: Seq<(String, serde_json::Value)>) -> bool {
    forall|i: int, j: int|
        0 <= i < j < members.len() ==> (#[trigger] members[i]).0@ != (#[trigger] members[j]).0@
}

impl Level {
    /// The value that the level and what hangs below it hold.
    pub(crate) open spec fn tree(self) -> JsonView {
        match self {
            Level::Null => JsonView::Null,
            Level::Bool(b) => JsonView::Bool(b),
            Level::Number(Some(n), _, _) => JsonView::Number(NumberView::Natural(n)),
            Level::Number(None, text, _) => JsonView::Number(NumberView::Other(text@)),
            Level::Text(s) => JsonView::Text(s@),
            Level::Items(items) => JsonView::Array(value_trees(items@)),
            Level::Members(members) => JsonView::Object(value_members(members@)),
        }
    }
}

impl Parts {
    /// The value that the level and what hangs below it hold.
    pub(crate) open spec fn tree(self) -> JsonView {
        match self {
            Parts::Null => JsonView::Null,
            Parts::Bool(b) => JsonView::Bool(b),
            Parts::Natural(n) => JsonView::Number(NumberView::Natural(n)),
            Parts::Text(s) => JsonView::Text(s@),
            Parts::Items(items) => JsonView::Array(value_trees(items@)),
            Parts::Members(map) => JsonView::Object(map_tree(map)),
        }
    }
}

/// `serde_json::from_str` into a `serde_json::Value`. The outcome depends on the
/// text alone: it is named `json_decoded`, and holds the value, or the error as
/// `serde_json` displays it.
#[verifier::external_body]
fn parse_value(text: &str) -> (r: Result<serde_json::Value, String>)
    ensures
        match r {
            Ok(value) => json_decoded(text@) == Ok::<JsonView, Seq<char>>(value_tree(value)),
            Err(message) => json_decoded(text@) == Err::<JsonView, Seq<char>>(message@),
        },
{
    match serde_json::from_str::<serde_json::Value>(text) {
        Ok(value) => Ok(value),
        Err(error) => Err(error.to_string()),
    }
}

/// The variants of `serde_json::Value`, one level deep. A number comes with the
/// natural number that `Number::as_u64` gives, if any, with the text that its
/// `Display` gives, and with the value itself: it is the natural number if there
/// is one, and known by its text otherwise. The members of an object come with
/// distinct names, since `serde_json::Map` is a map.
#[verifier::external_body]
fn open_value(value: serde_json::Value) -> (r: Level)
    ensures
        r.tree() == value_tree(value),
        r matches Level::Number(_, _, same) ==> value_tree(same) == value_tree(value),
        r matches Level::Members(members) ==> distinct_names(members@),
{
    match value {
        serde_json::Value::Null => Level::Null,
        serde_json::Value::Bool(b) => Level::Bool(b),
        serde_json::Value::Number(n) => {
            Level::Number(n.as_u64(), n.to_string(), serde_json::Value::Number(n))
        },
        serde_json::Value::String(s) => Level::Text(s),
        serde_json::Value::Array(items) => Level::Items(items),
        serde_json::Value::Object(members) => Level::Members(members.into_iter().collect()),
    }
}

/// The variants of `serde_json::Value`, built from one level. A natural number
/// becomes a number by `Number::from`.
#[verifier::external_body]
fn close_value(parts: Parts) -> (r: serde_json::Value)
    ensures
        value_tree(r) == parts.tree(),
{
    match parts {
        Parts::Null => serde_json::Value::Null,
        Parts::Bool(b) => serde_json::Value::Bool(b),
        Parts::Natural(n) => serde_json::Value::Number(serde_json::Number::from(n)),
        Parts::Text(s) => serde_json::Value::String(s),
        Parts::Items(items) => serde_json::Value::Array(items),
        Parts::Members(map) => serde_json::Value::Object(map),
    }
}

/// `serde_json::Map::new` makes a map without members.
#[verifier::external_body]
fn new_map() -> (r: serde_json::Map<String, serde_json::Value>)
    ensures
        map_tree(r) == value_members(Seq::empty()),
{
    serde_json::Map::new()
}

/// `serde_json::Map::insert` puts a value under a name, in the place of the value
/// that was there, if any, and leaves the other members as they are.
#[verifier::external_body]
fn put_member(
    map: &mut serde_json::Map<String, serde_json::Value>,
    name: String,
    value: serde_json::Value,
)
    ensures
        map_tree(*final(map)) == map_tree(*old(map)).insert(name@, value_tree(value)),
{
    map.insert(name, value);
}

/// `serde_json::to_string` of a `serde_json::Value`. It succeeds: the names of
/// members are strings, no number is infinite, and the text is written to
/// memory. The text depends on the value alone (a `serde_json::Map` is sorted by
/// name) and is named `json_compact`. It is never blank: every value is written
/// with at least a letter, a digit, a quote or a bracket. Read again it gives back
/// the value, if that is nested less than 128 levels deep and its numbers are
/// integers that fit 64 bits; of other numbers and of deeper values nothing is
/// said.
#[verifier::external_body]
fn write_compact(value: &serde_json::Value) -> (r: Result<String, String>)
    ensures
        r is Ok,
        r->Ok_0@ == json_compact(value_tree(*value)),
        trimmed(r->Ok_0@).len() > 0,
        survives(value_tree(*value)) ==> json_decoded(r->Ok_0@) is Ok && json_decoded(
            r->Ok_0@,
        )->Ok_0 == value_tree(*value),
{
    match serde_json::to_string(value) {
        Ok(text) => Ok(text),
        Err(error) => Err(error.to_string()),
    }
}

/// `serde_json::to_string_pretty` of a `serde_json::Value`. It succeeds as
/// `to_string` does; the text depends on the value alone and is named
/// `json_pretty`.
#[verifier::external_body]
fn write_pretty(value: &serde_json::Value) -> (r: Result<String, String>)
    ensures
        r is Ok,
        r->Ok_0@ == json_pretty(value_tree(*value)),
{
    match serde_json::to_string_pretty(value) {
        Ok(text) => Ok(text),
        Err(error) => Err(error.to_string()),
    }
}

/// With distinct names, each member of the list is a member of the object.
proof fn lemma_value_members(members: Seq<(String, serde_json::Value)>, i: int)
    requires
        distinct_names(members),
        0 <= i < members.len(),
    ensures
        value_members(members).dom().contains(members[i].0@),
        value_members(members)[members[i].0@] == value_tree(members[i].1),
        value_members(members).dom().finite(),
    decreases members.len(),
{
    if i < members.len() - 1 {
        assert(members.drop_last()[i] == members[i]);
        assert(distinct_names(members.drop_last()));
        lemma_value_members(members.drop_last(), i);
    } else {
        lemma_value_members_finite(members.drop_last());
    }
}

proof fn lemma_value_members_finite(members: Seq<(String, serde_json::Value)>)
    ensures
        value_members(members).dom().finite(),
    decreases members.len(),
{
    if members.len() > 0 {
        lemma_value_members_finite(members.drop_last());
    }
}

/// The value that a `serde_json::Value` holds.
fn from_value(value: serde_json::Value) -> (r: Json)
    ensures
        r@ == value_tree(value),
    decreases value_tree(value),
{
    match open_value(value) {
        Level::Null => Json::Null,
        Level::Bool(b) => Json::Bool(b),
        Level::Number(Some(n), _, _) => Json::Number(JsonNumber::Natural(n)),
        Level::Number(None, text, value) => Json::Number(
            JsonNumber::Other(OtherNumber { text, value }),
        ),
        Level::Text(s) => Json::Text(s),
        Level::Items(items) => {
            let ghost all = items@;
            let mut out: Vec<Json> = Vec::new();
            for item in it: items
                invariant
                    it.seq() == all,
                    value_tree(value) == JsonView::Array(value_trees(all)),
                    trees(out@) =~= value_trees(all).take(it.index() as int),
            {
                proof {
                    let i = it.index() as int;
                    assert(value_trees(all)[i] == value_tree(item));
                    let whole = value_tree(value);
                    assert(decreases_to!(whole => whole->Array_0));
                    assert(decreases_to!(whole->Array_0 => whole->Array_0[i]));
                    assert(value_trees(all).take(i + 1) =~= value_trees(all).take(i).push(
                        value_tree(item),
                    ));
                }
                let ghost before = out@;
                out.push(from_value(item));
                assert(trees(out@) =~= trees(before).push(value_tree(item)));
            }
            proof {
                lemma_array_tree(out);
                assert(value_trees(all).take(all.len() as int) =~= value_trees(all));
            }
            Json::Array(out)
        },
        Level::Members(members) => {
            let ghost all = members@;
            let mut out: Vec<(String, Json)> = Vec::new();
            for entry in it: members
                invariant
                    it.seq() == all,
                    distinct_names(all),
                    value_tree(value) == JsonView::Object(value_members(all)),
                    members_tree(out@) == value_members(all.take(it.index() as int)),
            {
                let ghost i = it.index() as int;
                let ghost before = out@;
                proof {
                    lemma_value_members(all, i);
                    let whole = value_tree(value);
                    assert(decreases_to!(whole => whole->Object_0));
                    assert(decreases_to!(whole->Object_0 => whole->Object_0[all[i].0@]));
                    assert(all.take(i + 1).drop_last() =~= all.take(i));
                }
                let (key, item) = entry;
                out.push((key, from_value(item)));
                assert(out@.drop_last() =~= before);
            }
            assert(all.take(all.len() as int) =~= all);
            Json::Object(out)
        },
    }
}

impl Json {
    /// The value as `serde_json` holds it.
    fn to_value(&self) -> (r: serde_json::Value)
        ensures
            value_tree(r) == self@,
        decreases self,
    {
        match self {
            Json::Null => close_value(Parts::Null),
            Json::Bool(b) => close_value(Parts::Bool(*b)),
            Json::Number(JsonNumber::Natural(n)) => close_value(Parts::Natural(*n)),
            Json::Number(JsonNumber::Other(other)) => other.to_value(),
            Json::Text(s) => close_value(Parts::Text(s.clone())),
            Json::Array(items) => {
                let mut out: Vec<serde_json::Value> = Vec::new();
                for i in 0..items.len()
                    invariant
                        *self == Json::Array(*items),
                        value_trees(out@) =~= trees(items@).take(i as int),
                {
                    let ghost before = out@;
                    assert(decreases_to!(*self => self->Array_0));
                    assert(decreases_to!(*items => items@[i as int]));
                    out.push(items[i].to_value());
                    assert(value_trees(out@) =~= value_trees(before).push(items@[i as int]@));
                }
                proof {
                    lemma_array_tree(*items);
                    assert(trees(items@).take(items.len() as int) =~= trees(items@));
                }
                close_value(Parts::Items(out))
            },
            Json::Object(members) => {
                let mut out = new_map();
                assert(members@.take(0) =~= Seq::empty());
                assert(map_tree(out) =~= members_tree(members@.take(0)));
                for i in 0..members.len()
                    invariant
                        *self == Json::Object(*members),
                        map_tree(out) == members_tree(members@.take(i as int)),
                {
                    assert(decreases_to!(*self => self->Object_0));
                    assert(decreases_to!(*members => members@[i as int]));
                    let name = members[i].0.clone();
                    let value = members[i].1.to_value();
                    put_member(&mut out, name, value);
                    assert(members@.take(i + 1).drop_last() =~= members@.take(i as int));
                }
                assert(members@.take(members.len() as int) =~= members@);
                close_value(Parts::Members(out))
            },
        }
    }
}

/// The outcome of decoding as a value of the model.
pub open spec fn decoded_of(r: Result<Json, String>) -> Result<JsonView, Seq<char>> {
    match r {
        Ok(value) => Ok(value@),
        Err(message) => Err(message@),
    }
}

/// Whether a text is one of a value: it is not blank, and the reader makes that
/// value of it.
pub open spec fn is_text_of(text: Seq<char>, value: JsonView) -> bool {
    trimmed(text).len() > 0 && json_decoded(text) is Ok && json_decoded(text)->Ok_0 == value
}

/// Reads a JSON text: its value, or the reader's message.
pub fn decode_json(text: &str) -> (r: Result<Json, String>)
    ensures
        decoded_of(r) == json_decoded(text@),
{
    match parse_value(text) {
        Ok(value) => Ok(from_value(value)),
        Err(message) => Err(message),
    }
}

/// Writes a value as JSON text on one line.
pub fn encode_json(value: &Json) -> (r: String)
    ensures
        r@ == json_compact(value@),
        trimmed(r@).len() > 0,
        survives(value@) ==> is_text_of(r@, value@),
{
    match write_compact(&value.to_value()) {
        Ok(text) => text,
        Err(_) => String::new(),
    }
}

/// Writes a value as JSON text for the reader's eye.
pub fn pretty_json(value: &Json) -> (r: Result<String, String>)
    ensures
        r is Ok,
        r->Ok_0@ == json_pretty(value@),
{
    match write_pretty(&value.to_value()) {
        Ok(text) => Ok(text),
        Err(error) => Err("format JSON response: ".to_owned().concat(error.as_str())),
    }
}

/// The outcome of decoding is in the model what it is.
pub proof fn decoding_outcome_is_kept(r: Result<Json, String>)
    ensures
        r is Ok <==> decoded_of(r) is Ok,
        r is Ok ==> decoded_of(r)->Ok_0 == r->Ok_0@,
        r is Err ==> decoded_of(r)->Err_0 == r->Err_0@,
{
}

/// A text of a value is one that is not blank and that the reader makes the value
/// of.
pub proof fn text_of_a_value(text: Seq<char>, value: JsonView)
    ensures
        is_text_of(text, value) <==> !(trimmed(text) =~= Seq::empty()) && json_decoded(text) is Ok
            && json_decoded(text)->Ok_0 == value,
{
}

/// Integers of 64 bits, truth values, texts and nothing come back unchanged, and so
/// do lists and objects of such values, as deep as the reader goes.
pub proof fn plain_values_survive(
    n: u64,
    k: nat,
    b: bool,
    text: Seq<char>,
    items: Seq<JsonView>,
    members: Map<Seq<char>, JsonView>,
    depth: nat,
)
    ensures
        plain_within(JsonView::Null, depth),
        plain_within(JsonView::Bool(b), depth),
        plain_within(JsonView::Text(text), depth),
        plain_within(JsonView::Number(NumberView::Natural(n)), depth),
        1 <= k <= 0x8000_0000_0000_0000 ==> plain_within(
            JsonView::Number(NumberView::Other(seq!['-'] + decimal(k))),
            depth,
        ),
        (forall|i: int| 0 <= i < items.len() ==> plain_within(#[trigger] items[i], depth))
            ==> plain_within(JsonView::Array(items), depth + 1),
        (forall|key: Seq<char>|
            members.dom().contains(key) ==> plain_within(#[trigger] members[key], depth))
            ==> plain_within(JsonView::Object(members), depth + 1),
        plain_within(JsonView::Number(NumberView::Other(text)), depth) ==> exists|j: nat|
            1 <= j <= 0x8000_0000_0000_0000 && text == seq!['-'] + #[trigger] decimal(j),
        plain_within(JsonView::Array(items), depth + 1) ==> forall|i: int|
            0 <= i < items.len() ==> plain_within(#[trigger] items[i], depth),
        plain_within(JsonView::Object(members), depth + 1) ==> forall|key: Seq<char>|
            members.dom().contains(key) ==> plain_within(#[trigger] members[key], depth),
        !plain_within(JsonView::Array(items), 0) && !plain_within(JsonView::Object(members), 0),
        survives(JsonView::Array(items)) <==> plain_within(JsonView::Array(items), 127),
        survives(JsonView::Object(members)) <==> plain_within(JsonView::Object(members), 127),
        survives(JsonView::Text(text)) && survives(JsonView::Bool(b)) && survives(JsonView::Null),
        survives(JsonView::Number(NumberView::Natural(n))),
        survives(JsonView::Number(NumberView::Other(text))) <==> plain_within(
            JsonView::Number(NumberView::Other(text)),
            depth,
        ),
{
    if forall|key: Seq<char>|
        members.dom().contains(key) ==> plain_within(#[trigger] members[key], depth) {
        assert forall|key: Seq<char>| #[trigger]
            members.dom().contains(key) implies plain_within(members[key], depth) by {}
    }
    if plain_within(JsonView::Object(members), depth + 1) {
        assert forall|key: Seq<char>| members.dom().contains(key) implies plain_within(
            #[trigger] members[key],
            depth,
        ) by {
            assert(JsonView::Object(members)->Object_0.dom().contains(key));
        }
    }
    if plain_within(JsonView::Array(items), depth + 1) {
        assert forall|i: int| 0 <= i < items.len() implies plain_within(
            #[trigger] items[i],
            depth,
        ) by {
            assert(JsonView::Array(items)->Array_0[i] == items[i]);
        }
    }
}

} // verus!
