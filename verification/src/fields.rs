//! Reading the members of a JSON object under any of several names.
use vstd::prelude::*;

use crate::json::{member, trees, Json, JsonNumber, JsonView, NumberView};
use crate::text::{
    decimal, decimal_text, non_blank, non_empty, parse_usize, text_of, trimmed, usize_value,
};

verus! {

/// The texts of a list of names.
pub open spec fn names(keys: Seq<&str>) -> Seq<Seq<char>> {
    Seq::new(keys.len(), |i: int| keys[i]@)
}

/// A scalar as text: a string without the white space around it unless it is
/// blank, a number or a truth value as it is written.
pub open spec fn scalar_text(value: JsonView) -> Option<Seq<char>> {
    match value {
        JsonView::Text(s) => non_blank(s),
        JsonView::Number(NumberView::Natural(n)) => Some(decimal(n as nat)),
        JsonView::Number(NumberView::Other(text)) => Some(text),
        JsonView::Bool(true) => Some("true"@),
        JsonView::Bool(false) => Some("false"@),
        _ => None,
    }
}

/// The member under the first of the names that the object has.
pub open spec fn first_member(value: JsonView, keys: Seq<Seq<char>>) -> Option<JsonView>
    decreases keys.len(),
{
    if keys.len() == 0 {
        None
    } else if member(value, keys.first()) is Some {
        member(value, keys.first())
    } else {
        first_member(value, keys.drop_first())
    }
}

/// The member under the first of the names that the object has, as text. A
/// blank or composite member hides those under later names.
pub open spec fn text_member(value: JsonView, keys: Seq<Seq<char>>) -> Option<Seq<char>> {
    match first_member(value, keys) {
        Some(field) => scalar_text(field),
        None => None,
    }
}

/// The count that a member gives, if it settles the matter: a natural number
/// does, whether or not it fits, and so does a text that writes a number.
pub open spec fn count_in(field: JsonView) -> Option<Option<usize>> {
    match field {
        JsonView::Number(NumberView::Natural(n)) => Some(
            if n <= usize::MAX {
                Some(n as usize)
            } else {
                None
            },
        ),
        JsonView::Text(s) => match usize_value(s) {
            Some(n) => Some(Some(n)),
            None => None,
        },
        _ => None,
    }
}

/// The count under the first of the names whose member settles the matter.
pub open spec fn count_member(value: JsonView, keys: Seq<Seq<char>>) -> Option<usize>
    decreases keys.len(),
{
    if keys.len() == 0 {
        None
    } else {
        match member(value, keys.first()) {
            Some(field) => match count_in(field) {
                Some(count) => count,
                None => count_member(value, keys.drop_first()),
            },
            None => count_member(value, keys.drop_first()),
        }
    }
}

/// The items of an array, or of the array under the first of the names that has
/// one; no items if there is none.
pub open spec fn items_under(value: JsonView, keys: Seq<Seq<char>>) -> Seq<JsonView>
    decreases keys.len(),
{
    if value is Array {
        value->Array_0
    } else if keys.len() == 0 {
        Seq::empty()
    } else {
        match member(value, keys.first()) {
            Some(JsonView::Array(items)) => items,
            _ => items_under(value, keys.drop_first()),
        }
    }
}

/// The names under which a memory carries its identifier.
pub open spec fn id_names() -> Seq<Seq<char>> {
    seq!["id"@, "memory_id"@, "memoryId"@]
}

/// The identifier of a memory.
pub open spec fn id_of(value: JsonView) -> Option<Seq<char>> {
    text_member(value, id_names())
}

/// The identifier that the answer to a creation gives: of the answer itself, or
/// else of the memory it wraps.
pub open spec fn created_id(value: JsonView) -> Option<Seq<char>> {
    match id_of(value) {
        Some(id) => Some(id),
        None => match wrapped_id(value, "memory"@) {
            Some(id) => Some(id),
            None => wrapped_id(value, "data"@),
        },
    }
}

/// The identifier of the memory that is the member `key`.
pub open spec fn wrapped_id(value: JsonView, key: Seq<char>) -> Option<Seq<char>> {
    match member(value, key) {
        Some(inner) => id_of(inner),
        None => None,
    }
}

/// The number of rows that a page says there are in all.
pub open spec fn total_of(value: JsonView) -> Option<usize> {
    count_member(
        value,
        seq!["total"@, "total_count"@, "totalCount"@, "count"@, "total_results"@],
    )
}

/// The memories on a page.
pub open spec fn memories_of(value: JsonView) -> Seq<JsonView> {
    items_under(value, seq!["memories"@, "results"@, "items"@, "data"@])
}

/// The peers in an answer.
pub open spec fn peers_of(value: JsonView) -> Seq<JsonView> {
    items_under(value, seq!["peers"@, "results"@, "items"@, "data"@])
}

/// A scalar as text.
pub fn scalar_to_string(value: &Json) -> (r: Option<String>)
    ensures
        text_of(r) == scalar_text(value@),
{
    match value {
        Json::Text(s) => non_empty(s.clone()),
        Json::Number(JsonNumber::Natural(n)) => Some(decimal_text(*n)),
        Json::Number(JsonNumber::Other(other)) => Some(other.text()),
        Json::Bool(true) => Some("true".to_owned()),
        Json::Bool(false) => Some("false".to_owned()),
        _ => None,
    }
}

/// The member under the first of the names that the object has, as text.
pub fn string_field(value: &Json, keys: &[&str]) -> (r: Option<String>)
    ensures
        text_of(r) == text_member(value@, names(keys@)),
{
    assert(names(keys@).skip(0) =~= names(keys@));
    for i in 0..keys.len()
        invariant
            first_member(value@, names(keys@)) == first_member(
                value@,
                names(keys@).skip(i as int),
            ),
    {
        assert(names(keys@).skip(i as int).drop_first() =~= names(keys@).skip(i + 1));
        if let Some(field) = value.get(keys[i]) {
            return scalar_to_string(field);
        }
    }
    None
}

/// The count under the first of the names whose member settles the matter.
pub fn usize_field(value: &Json, keys: &[&str]) -> (r: Option<usize>)
    ensures
        r == count_member(value@, names(keys@)),
{
    assert(names(keys@).skip(0) =~= names(keys@));
    for i in 0..keys.len()
        invariant
            count_member(value@, names(keys@)) == count_member(
                value@,
                names(keys@).skip(i as int),
            ),
    {
        assert(names(keys@).skip(i as int).drop_first() =~= names(keys@).skip(i + 1));
        match value.get(keys[i]) {
            Some(Json::Number(JsonNumber::Natural(n))) => {
                return if *n <= usize::MAX as u64 { Some(*n as usize) } else { None };
            },
            Some(Json::Text(text)) => {
                let count = parse_usize(text.as_str());
                if count.is_some() {
                    return count;
                }
            },
            _ => {},
        }
    }
    None
}

/// The values behind a list of references.
pub open spec fn trees_behind(items: Seq<&Json>) -> Seq<JsonView> {
    Seq::new(items.len(), |i: int| items[i]@)
}

fn references<'a>(items: &'a Vec<Json>) -> (r: Vec<&'a Json>)
    ensures
        trees_behind(r@) == trees(items@),
{
    let mut out: Vec<&'a Json> = Vec::new();
    for i in 0..items.len()
        invariant
            out@.len() == i,
            forall|j: int| 0 <= j < i ==> (#[trigger] out@[j])@ == items@[j]@,
    {
        out.push(&items[i]);
    }
    assert(trees_behind(out@) =~= trees(items@));
    out
}

/// The items of an array, or of the array under the first of the names that has
/// one.
pub fn array_items<'a>(value: &'a Json, keys: &[&str]) -> (r: Vec<&'a Json>)
    ensures
        trees_behind(r@) == items_under(value@, names(keys@)),
{
    if let Some(items) = value.as_array() {
        return references(items);
    }
    assert(names(keys@).skip(0) =~= names(keys@));
    for i in 0..keys.len()
        invariant
            !(value@ is Array),
            items_under(value@, names(keys@)) == items_under(
                value@,
                names(keys@).skip(i as int),
            ),
    {
        assert(names(keys@).skip(i as int).drop_first() =~= names(keys@).skip(i + 1));
        if let Some(field) = value.get(keys[i]) {
            if let Some(items) = field.as_array() {
                return references(items);
            }
        }
    }
    let out: Vec<&'a Json> = Vec::new();
    assert(trees_behind(out@) =~= Seq::empty());
    out
}

/// The identifier of a memory.
pub fn memory_id(value: &Json) -> (r: Option<String>)
    ensures
        text_of(r) == id_of(value@),
{
    let keys = ["id", "memory_id", "memoryId"];
    assert(names(keys@) =~= id_names());
    string_field(value, &keys)
}

/// The identifier that the answer to a creation gives.
pub fn memory_id_from_create_response(value: &Json) -> (r: Option<String>)
    ensures
        text_of(r) == created_id(value@),
{
    let id = memory_id(value);
    if id.is_some() {
        return id;
    }
    if let Some(inner) = value.get("memory") {
        let id = memory_id(inner);
        if id.is_some() {
            return id;
        }
    }
    match value.get("data") {
        Some(inner) => memory_id(inner),
        None => None,
    }
}

/// The number of rows that a page says there are in all.
pub fn total_count(value: &Json) -> (r: Option<usize>)
    ensures
        r == total_of(value@),
{
    let keys = ["total", "total_count", "totalCount", "count", "total_results"];
    assert(names(keys@) =~= seq![
        "total"@,
        "total_count"@,
        "totalCount"@,
        "count"@,
        "total_results"@,
    ]);
    usize_field(value, &keys)
}

/// The memories on a page.
pub fn memory_items(value: &Json) -> (r: Vec<&Json>)
    ensures
        trees_behind(r@) == memories_of(value@),
{
    let keys = ["memories", "results", "items", "data"];
    assert(names(keys@) =~= seq!["memories"@, "results"@, "items"@, "data"@]);
    array_items(value, &keys)
}

/// The peers in an answer.
pub fn peer_items(value: &Json) -> (r: Vec<&Json>)
    ensures
        trees_behind(r@) == peers_of(value@),
{
    let keys = ["peers", "results", "items", "data"];
    assert(names(keys@) =~= seq!["peers"@, "results"@, "items"@, "data"@]);
    array_items(value, &keys)
}

/// What a member that may be missing says, or a text in its place: a string that
/// is not blank without the white space around it, a number or a truth value as it
/// is written; the text in its place if there is no member, or if it is blank or
/// composite.
pub open spec fn said(field: Option<JsonView>, default: Seq<char>) -> Seq<char> {
    match field {
        Some(JsonView::Text(s)) => if trimmed(s).len() > 0 {
            trimmed(s)
        } else {
            default
        },
        Some(JsonView::Number(NumberView::Natural(n))) => decimal(n as nat),
        Some(JsonView::Number(NumberView::Other(text))) => text,
        Some(JsonView::Bool(b)) => if b {
            "true"@
        } else {
            "false"@
        },
        _ => default,
    }
}

/// Whether a member says anything.
pub open spec fn says_something(field: Option<JsonView>) -> bool {
    match field {
        Some(JsonView::Text(s)) => trimmed(s).len() > 0,
        Some(JsonView::Number(_)) => true,
        Some(JsonView::Bool(_)) => true,
        _ => false,
    }
}

/// Whether an object has a member under the name at `i` and none under those
/// before it.
pub open spec fn stands_first(value: JsonView, keys: Seq<Seq<char>>, i: int) -> bool {
    &&& 0 <= i < keys.len()
    &&& member(value, keys[i]) is Some
    &&& forall|j: int| 0 <= j < i ==> member(value, #[trigger] keys[j]) is None
}

/// A scalar is shown in full: a string without the white space around it, a
/// natural number in decimal, any other number as it is written, a truth value by
/// its name. A blank string and a composite value are not shown.
pub proof fn scalars_are_shown_in_full(value: JsonView)
    ensures
        value matches JsonView::Text(s) ==> (scalar_text(value) is Some <==> trimmed(s).len() > 0),
        value matches JsonView::Text(s) ==> scalar_text(value) is Some ==> scalar_text(value)->0
            == trimmed(s),
        value matches JsonView::Number(NumberView::Natural(n)) ==> scalar_text(value) == Some(
            decimal(n as nat),
        ),
        value matches JsonView::Number(NumberView::Other(text)) ==> scalar_text(value) == Some(text),
        value == JsonView::Bool(true) ==> scalar_text(value) == Some("true"@),
        value == JsonView::Bool(false) ==> scalar_text(value) == Some("false"@),
        value is Null || value is Array || value is Object ==> scalar_text(value) is None,
{
}

/// The first name that the object has decides what is read, and what is read is
/// the whole of that member; without any of the names there is nothing to read.
pub proof fn first_name_decides(value: JsonView, keys: Seq<Seq<char>>, default: Seq<char>)
    ensures
        forall|i: int|
            #![trigger keys[i]]
            stands_first(value, keys, i) ==> {
                &&& first_member(value, keys) == member(value, keys[i])
                &&& text_member(value, keys) is Some <==> says_something(member(value, keys[i]))
                &&& text_member(value, keys) is Some ==> text_member(value, keys)->0 == said(
                    member(value, keys[i]),
                    default,
                )
            },
        (forall|i: int| 0 <= i < keys.len() ==> member(value, #[trigger] keys[i]) is None)
            ==> text_member(value, keys) is None && first_member(value, keys) is None,
    decreases keys.len(),
{
    if keys.len() > 0 {
        let rest = keys.drop_first();
        first_name_decides(value, rest, default);
        assert forall|i: int|
            #![trigger keys[i]]
            stands_first(value, keys, i) implies {
            &&& first_member(value, keys) == member(value, keys[i])
            &&& text_member(value, keys) is Some <==> says_something(member(value, keys[i]))
            &&& text_member(value, keys) is Some ==> text_member(value, keys)->0 == said(
                member(value, keys[i]),
                default,
            )
        } by {
            if i > 0 {
                assert(member(value, keys[0]) is None);
                assert(rest[i - 1] == keys[i]);
                assert forall|j: int| 0 <= j < i - 1 implies member(
                    value,
                    #[trigger] rest[j],
                ) is None by {
                    assert(member(value, keys[j + 1]) is None);
                }
                assert(stands_first(value, rest, i - 1));
            } else {
                scalars_are_shown_in_full(member(value, keys[0])->0);
            }
        }
        if forall|i: int| 0 <= i < keys.len() ==> member(value, #[trigger] keys[i]) is None {
            assert(member(value, keys[0]) is None);
            assert forall|i: int| 0 <= i < rest.len() implies member(
                value,
                #[trigger] rest[i],
            ) is None by {
                assert(member(value, keys[i + 1]) is None);
            }
        }
    }
}

/// The member under the first of up to three names.
pub open spec fn first_of(
    value: JsonView,
    first: Seq<char>,
    second: Seq<char>,
    third: Seq<char>,
) -> Option<JsonView> {
    if member(value, first) is Some {
        member(value, first)
    } else if member(value, second) is Some {
        member(value, second)
    } else {
        member(value, third)
    }
}

/// What is read under one, two or three names, name by name.
pub proof fn members_are_read_by_name(
    value: JsonView,
    first: Seq<char>,
    second: Seq<char>,
    third: Seq<char>,
    default: Seq<char>,
)
    ensures
        ({
            let text = text_member(value, seq![first]);
            let field = member(value, first);
            (text is Some <==> says_something(field)) && (text is Some ==> text->0 == said(
                field,
                default,
            ))
        }),
        ({
            let text = text_member(value, seq![first, second]);
            let field = first_of(value, first, second, second);
            (text is Some <==> says_something(field)) && (text is Some ==> text->0 == said(
                field,
                default,
            ))
        }),
        ({
            let text = text_member(value, seq![first, second, third]);
            let field = first_of(value, first, second, third);
            (text is Some <==> says_something(field)) && (text is Some ==> text->0 == said(
                field,
                default,
            ))
        }),
{
    let one = seq![first];
    let two = seq![first, second];
    let three = seq![first, second, third];
    reveal_with_fuel(first_member, 4);
    assert(one.drop_first() =~= Seq::empty());
    assert(two.drop_first() =~= seq![second]);
    assert(seq![second].drop_first() =~= Seq::empty());
    assert(three.drop_first() =~= seq![second, third]);
    assert(seq![second, third].drop_first() =~= seq![third]);
    assert(seq![third].drop_first() =~= Seq::empty());
    assert(first_member(value, Seq::empty()) is None);
    assert(first_member(value, seq![third]) == member(value, third));
    assert(first_member(value, seq![second]) == member(value, second));
    assert(first_member(value, one) == member(value, first));
    assert(first_member(value, two) == first_of(value, first, second, second));
    assert(first_member(value, three) == first_of(value, first, second, third));
}

/// A memory is known by what stands under `id`, or without that under `memory_id`,
/// or without both under `memoryId`: the whole of it.
pub proof fn memory_is_known_by_its_id(value: JsonView)
    ensures
        ({
            let field = first_of(value, "id"@, "memory_id"@, "memoryId"@);
            &&& id_of(value) is Some <==> says_something(field)
            &&& id_of(value) is Some ==> id_of(value)->0 == said(field, Seq::empty())
        }),
        member(value, "id"@) matches Some(JsonView::Text(s)) ==> trimmed(s).len() > 0 ==> id_of(
            value,
        ) == Some(trimmed(s)),
{
    members_are_read_by_name(value, "id"@, "memory_id"@, "memoryId"@, Seq::empty());
}

/// The answer to a creation names the memory itself, or else in its member
/// `memory`, or else in its member `data`.
pub proof fn answer_names_the_memory(value: JsonView)
    ensures
        id_of(value) is Some ==> created_id(value) == id_of(value),
        id_of(value) is None && member(value, "memory"@) is Some && id_of(
            member(value, "memory"@)->0,
        ) is Some ==> created_id(value) == id_of(member(value, "memory"@)->0),
        id_of(value) is None && (member(value, "memory"@) is None || id_of(
            member(value, "memory"@)->0,
        ) is None) && member(value, "data"@) is Some ==> created_id(value) == id_of(
            member(value, "data"@)->0,
        ),
        id_of(value) is None && (member(value, "memory"@) is None || id_of(
            member(value, "memory"@)->0,
        ) is None) && member(value, "data"@) is None ==> created_id(value) is None,
{
}

/// Whether a member gives a count, or rules one out by being too large.
pub open spec fn settles(field: Option<JsonView>) -> bool {
    match field {
        Some(JsonView::Number(NumberView::Natural(_))) => true,
        Some(JsonView::Text(s)) => usize_value(s) is Some,
        _ => false,
    }
}

/// Whether a count is the one that a settling member gives.
pub open spec fn counts(field: Option<JsonView>, count: Option<usize>) -> bool {
    match field {
        Some(JsonView::Number(NumberView::Natural(n))) => (count is Some <==> n <= usize::MAX) && (
        count is Some ==> count->0 == n),
        Some(JsonView::Text(s)) => count == usize_value(s),
        _ => false,
    }
}

/// The first member that settles a count gives it; without one there is none.
pub proof fn first_settling_member_counts(value: JsonView, keys: Seq<Seq<char>>)
    ensures
        forall|i: int|
            #![trigger keys[i]]
            0 <= i < keys.len() && settles(member(value, keys[i])) && (forall|j: int|
                0 <= j < i ==> !settles(member(value, #[trigger] keys[j]))) ==> counts(
                member(value, keys[i]),
                count_member(value, keys),
            ),
        (forall|i: int| 0 <= i < keys.len() ==> !settles(member(value, #[trigger] keys[i])))
            ==> count_member(value, keys) is None,
    decreases keys.len(),
{
    if keys.len() > 0 {
        let rest = keys.drop_first();
        first_settling_member_counts(value, rest);
        assert forall|i: int|
            #![trigger keys[i]]
            0 <= i < keys.len() && settles(member(value, keys[i])) && (forall|j: int|
                0 <= j < i ==> !settles(member(value, #[trigger] keys[j]))) implies counts(
            member(value, keys[i]),
            count_member(value, keys),
        ) by {
            if i > 0 {
                assert(!settles(member(value, keys[0])));
                assert(rest[i - 1] == keys[i]);
                assert forall|j: int| 0 <= j < i - 1 implies !settles(
                    member(value, #[trigger] rest[j]),
                ) by {
                    assert(!settles(member(value, keys[j + 1])));
                }
            }
        }
        if forall|i: int| 0 <= i < keys.len() ==> !settles(member(value, #[trigger] keys[i])) {
            assert(!settles(member(value, keys[0])));
            assert forall|i: int| 0 <= i < rest.len() implies !settles(
                member(value, #[trigger] rest[i]),
            ) by {
                assert(!settles(member(value, keys[i + 1])));
            }
        }
    }
}

/// A page says under one of five names how many rows there are in all; the first
/// of them that settles it counts.
pub proof fn total_stands_under_five_names(value: JsonView)
    ensures
        ({
            let keys = seq!["total"@, "total_count"@, "totalCount"@, "count"@, "total_results"@];
            &&& forall|i: int|
                #![trigger keys[i]]
                0 <= i < 5 && settles(member(value, keys[i])) && (forall|j: int|
                    0 <= j < i ==> !settles(member(value, #[trigger] keys[j]))) ==> counts(
                    member(value, keys[i]),
                    total_of(value),
                )
            &&& (forall|i: int| 0 <= i < 5 ==> !settles(member(value, #[trigger] keys[i])))
                ==> total_of(value) is None
        }),
{
    first_settling_member_counts(
        value,
        seq!["total"@, "total_count"@, "totalCount"@, "count"@, "total_results"@],
    );
}

/// The items of an array are all its items; of any other value they are all those
/// of the first array under one of the names.
pub proof fn items_are_taken_whole(value: JsonView, keys: Seq<Seq<char>>)
    ensures
        value matches JsonView::Array(items) ==> items_under(value, keys) == items,
        forall|i: int|
            #![trigger keys[i]]
            !(value is Array) && 0 <= i < keys.len() && (member(value, keys[i]) matches Some(
                JsonView::Array(_),
            )) && (forall|j: int|
                0 <= j < i ==> !(member(value, #[trigger] keys[j]) matches Some(
                    JsonView::Array(_),
                ))) ==> items_under(value, keys) == member(value, keys[i])->0->Array_0,
        !(value is Array) && (forall|i: int|
            0 <= i < keys.len() ==> !(member(value, #[trigger] keys[i]) matches Some(
                JsonView::Array(_),
            ))) ==> items_under(value, keys) == Seq::<JsonView>::empty(),
    decreases keys.len(),
{
    if keys.len() > 0 && !(value is Array) {
        let rest = keys.drop_first();
        items_are_taken_whole(value, rest);
        assert forall|i: int|
            #![trigger keys[i]]
            0 <= i < keys.len() && (member(value, keys[i]) matches Some(JsonView::Array(_)))
                && (forall|j: int|
                0 <= j < i ==> !(member(value, #[trigger] keys[j]) matches Some(
                    JsonView::Array(_),
                ))) implies items_under(value, keys) == member(value, keys[i])->0->Array_0 by {
            if i > 0 {
                assert(!(member(value, keys[0]) matches Some(JsonView::Array(_))));
                assert(rest[i - 1] == keys[i]);
                assert forall|j: int| 0 <= j < i - 1 implies !(member(
                    value,
                    #[trigger] rest[j],
                ) matches Some(JsonView::Array(_))) by {
                    assert(!(member(value, keys[j + 1]) matches Some(JsonView::Array(_))));
                }
            }
        }
        if forall|i: int|
            0 <= i < keys.len() ==> !(member(value, #[trigger] keys[i]) matches Some(
                JsonView::Array(_),
            )) {
            assert(!(member(value, keys[0]) matches Some(JsonView::Array(_))));
            assert forall|i: int| 0 <= i < rest.len() implies !(member(
                value,
                #[trigger] rest[i],
            ) matches Some(JsonView::Array(_))) by {
                assert(!(member(value, keys[i + 1]) matches Some(JsonView::Array(_))));
            }
        }
    }
}

/// The array among the members of four names, the first one first.
pub open spec fn first_array(
    value: JsonView,
    first: Seq<char>,
    second: Seq<char>,
    third: Seq<char>,
    fourth: Seq<char>,
) -> Seq<JsonView> {
    if member(value, first) matches Some(JsonView::Array(_)) {
        member(value, first)->0->Array_0
    } else if member(value, second) matches Some(JsonView::Array(_)) {
        member(value, second)->0->Array_0
    } else if member(value, third) matches Some(JsonView::Array(_)) {
        member(value, third)->0->Array_0
    } else if member(value, fourth) matches Some(JsonView::Array(_)) {
        member(value, fourth)->0->Array_0
    } else {
        Seq::empty()
    }
}

/// The memories on a page, and the peers in an answer, are all the items of an
/// array, or of the first array under one of four names.
pub proof fn pages_and_peers_are_taken_whole(value: JsonView)
    ensures
        value matches JsonView::Array(items) ==> memories_of(value) == items && peers_of(value)
            == items,
        !(value is Array) ==> memories_of(value) == first_array(
            value,
            "memories"@,
            "results"@,
            "items"@,
            "data"@,
        ),
        !(value is Array) ==> peers_of(value) == first_array(
            value,
            "peers"@,
            "results"@,
            "items"@,
            "data"@,
        ),
{
    lemma_four_names(value, "memories"@, "results"@, "items"@, "data"@);
    lemma_four_names(value, "peers"@, "results"@, "items"@, "data"@);
}

proof fn lemma_four_names(
    value: JsonView,
    first: Seq<char>,
    second: Seq<char>,
    third: Seq<char>,
    fourth: Seq<char>,
)
    ensures
        value matches JsonView::Array(items) ==> items_under(
            value,
            seq![first, second, third, fourth],
        ) == items,
        !(value is Array) ==> items_under(value, seq![first, second, third, fourth])
            == first_array(value, first, second, third, fourth),
{
    reveal_with_fuel(items_under, 5);
    assert(seq![first, second, third, fourth].drop_first() =~= seq![second, third, fourth]);
    assert(seq![second, third, fourth].drop_first() =~= seq![third, fourth]);
    assert(seq![third, fourth].drop_first() =~= seq![fourth]);
    assert(seq![fourth].drop_first() =~= Seq::empty());
    if !(value is Array) {
        assert(items_under(value, Seq::empty()) =~= Seq::empty());
    }
}

/// Lists of names and of references have each item in its place.
pub proof fn lists_keep_their_items(keys: Seq<&str>, items: Seq<&Json>)
    ensures
        names(keys).len() == keys.len(),
        forall|i: int| 0 <= i < keys.len() ==> #[trigger] names(keys)[i] == keys[i]@,
        trees_behind(items).len() == items.len(),
        forall|i: int| 0 <= i < items.len() ==> #[trigger] trees_behind(items)[i] == items[i]@,
{
}

/// What a member says is the whole of it: every character between the white space
/// around a string, every digit of a number. Only a member that is missing, blank
/// or composite gives way to the text in its place.
pub proof fn members_say_all_they_hold(
    s: Seq<char>,
    n: u64,
    number: Seq<char>,
    items: Seq<JsonView>,
    members: Map<Seq<char>, JsonView>,
    default: Seq<char>,
)
    ensures
        trimmed(s).len() > 0 ==> said(Some(JsonView::Text(s)), default) == trimmed(s),
        trimmed(s).len() == 0 ==> said(Some(JsonView::Text(s)), default) == default,
        said(Some(JsonView::Number(NumberView::Natural(n))), default) == decimal(n as nat),
        said(Some(JsonView::Number(NumberView::Other(number))), default) == number,
        said(Some(JsonView::Bool(true)), default) == "true"@,
        said(Some(JsonView::Bool(false)), default) == "false"@,
        said(Some(JsonView::Null), default) == default,
        said(Some(JsonView::Array(items)), default) == default,
        said(Some(JsonView::Object(members)), default) == default,
        said(None, default) == default,
        says_something(Some(JsonView::Text(s))) <==> trimmed(s).len() > 0,
        says_something(Some(JsonView::Number(NumberView::Natural(n)))),
        says_something(Some(JsonView::Number(NumberView::Other(number)))),
        says_something(Some(JsonView::Bool(true))) && says_something(Some(JsonView::Bool(false))),
        !says_something(Some(JsonView::Null)) && !says_something(None),
        !says_something(Some(JsonView::Array(items))),
        !says_something(Some(JsonView::Object(members))),
{
}

} // verus!
