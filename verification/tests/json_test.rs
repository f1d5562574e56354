use mnemosctl::codec::{decode_json, encode_json};
use mnemosctl::fields::{
    array_items, memory_id, memory_id_from_create_response, memory_items, peer_items,
    scalar_to_string, string_field, total_count, usize_field,
};
use mnemosctl::json::{Json, JsonNumber};
use mnemosctl::{format_peers, pretty_json};

fn json(text: &str) -> Json {
    decode_json(text).unwrap_or_else(|error| panic!("{text}: {error}"))
}

#[test]
fn values_survive_writing_and_reading() {
    for text in [
        "null", "true", "false", "0", "18446744073709551615", "\"\"", "\"a\\\"b\\n\\u0001\"", "[]",
        "{}", "[1,[2,{\"a\":null}]]", "{\"a\":1,\"b\":[true,false],\"c\":{\"d\":\"e\"}}", "-1",
        "1.5", "-0.25", "1e300",
    ] {
        assert_eq!(encode_json(&json(text)), json_text(text));
    }
}

/// What `serde_json` makes of a text by itself.
fn json_text(text: &str) -> String {
    serde_json::from_str::<serde_json::Value>(text).unwrap().to_string()
}

#[test]
fn members_are_written_sorted_and_the_last_of_a_name_counts() {
    let value = json("{ \"b\": 1, \"a\": 2, \"b\": 3 }");
    assert_eq!(encode_json(&value), "{\"a\":2,\"b\":3}");
    let twice = Json::Object(vec![
        ("k".to_string(), Json::Bool(false)),
        ("k".to_string(), Json::Null),
    ]);
    assert!(matches!(twice.get("k"), Some(Json::Null)));
    assert_eq!(encode_json(&twice), "{\"k\":null}");
}

#[test]
fn integers_of_64_bits_read_back() {
    for text in ["-1", "-9223372036854775808", "[-7,{\"a\":-10}]", "18446744073709551615"] {
        assert_eq!(encode_json(&json(text)), text);
        assert_eq!(encode_json(&json(&encode_json(&json(text)))), text);
    }
    // A negative zero is no integer.
    assert_eq!(encode_json(&json("-0")), "-0.0");
}

#[test]
fn the_last_of_many_members_of_a_name_is_written() {
    let mut members = Vec::new();
    for n in 0..100u64 {
        members.push((format!("k{}", n % 3), Json::Number(JsonNumber::Natural(n))));
    }
    assert_eq!(encode_json(&Json::Object(members)), "{\"k0\":99,\"k1\":97,\"k2\":98}");
    assert_eq!(encode_json(&Json::Object(Vec::new())), "{}");
}

#[test]
fn invalid_text_gives_the_message_of_the_reader() {
    for text in ["", "{", "nul", "[1,]", "{\"a\" 1}", "1 2", "\"\\x\""] {
        let expected = serde_json::from_str::<serde_json::Value>(text).unwrap_err().to_string();
        assert_eq!(decode_json(text).unwrap_err(), expected);
    }
}

#[test]
fn nesting_is_read_up_to_the_limit() {
    let nested = |depth: usize| format!("{}{}", "[".repeat(depth), "]".repeat(depth));
    assert_eq!(encode_json(&json(&nested(127))), nested(127));
    assert!(decode_json(&nested(128)).is_err());
}

#[test]
fn text_for_the_eye_is_indented() {
    assert_eq!(
        pretty_json(&json("{\"b\":[1,-2.5],\"a\":{}}")),
        Ok("{\n  \"a\": {},\n  \"b\": [\n    1,\n    -2.5\n  ]\n}".to_string())
    );
}

#[test]
fn numbers_are_natural_or_known_by_their_text() {
    assert!(matches!(json("7"), Json::Number(JsonNumber::Natural(7))));
    assert_eq!(json_text("-7"), "-7");
    assert_eq!(json_text("7.50"), "7.5");
    for text in ["-7", "7.0", "7.50", "18446744073709551616", "-1e-7"] {
        let shown = json_text(text);
        match json(text) {
            Json::Number(JsonNumber::Other(other)) => {
                assert_eq!(other.text(), shown);
                assert_eq!(encode_json(&Json::Number(JsonNumber::Other(other))), shown);
            }
            value => panic!("{value:?}"),
        }
    }
}

#[test]
fn only_objects_have_members_and_only_arrays_have_items() {
    let object = json("{\"a\":[1]}");
    assert!(object.is_object());
    assert!(object.as_array().is_none());
    assert_eq!(object.get("a").unwrap().as_array().unwrap().len(), 1);
    assert!(object.get("b").is_none());
    let array = json("[{\"a\":1}]");
    assert!(!array.is_object());
    assert!(array.get("a").is_none());
}

#[test]
fn scalars_become_text() {
    let shown = |text: &str| scalar_to_string(&json(text));
    assert_eq!(shown("\" x \""), Some("x".to_string()));
    assert_eq!(shown("\" \""), None);
    assert_eq!(shown("12"), Some("12".to_string()));
    assert_eq!(shown("-1.50"), Some("-1.5".to_string()));
    assert_eq!(shown("true"), Some("true".to_string()));
    assert_eq!(shown("false"), Some("false".to_string()));
    assert_eq!(shown("null"), None);
    assert_eq!(shown("[]"), None);
    assert_eq!(shown("{}"), None);
}

#[test]
fn the_first_name_that_is_there_decides() {
    let value = json("{\"b\":\" \",\"c\":\"x\"}");
    assert_eq!(string_field(&value, &["a", "c", "b"]), Some("x".to_string()));
    assert_eq!(string_field(&value, &["a", "b", "c"]), None);
    assert_eq!(string_field(&value, &[]), None);
    assert_eq!(string_field(&json("[]"), &["a"]), None);
}

#[test]
fn a_memory_is_identified_under_any_of_its_names() {
    assert_eq!(memory_id(&json("{\"memoryId\":3,\"memory_id\":\"m\"}")), Some("m".to_string()));
    assert_eq!(memory_id(&json("{\"memoryId\":3}")), Some("3".to_string()));
    assert_eq!(memory_id(&json("{\"id\":\"\",\"memory_id\":\"m\"}")), None);
    assert_eq!(memory_id(&json("{\"id\":null,\"memoryId\":\"m\"}")), None);
}

#[test]
fn the_answer_to_a_creation_may_wrap_the_memory() {
    let created = |text: &str| memory_id_from_create_response(&json(text));
    assert_eq!(created("{\"id\":\"a\",\"memory\":{\"id\":\"b\"}}"), Some("a".to_string()));
    assert_eq!(created("{\"memory\":{\"id\":\"b\"},\"data\":{\"id\":\"c\"}}"), Some("b".to_string()));
    assert_eq!(created("{\"id\":\"\",\"memory\":{},\"data\":{\"memoryId\":9}}"), Some("9".to_string()));
    assert_eq!(created("{\"data\":\"c\"}"), None);
    assert_eq!(created("[]"), None);
}

#[test]
fn counts_are_numbers_or_texts_that_write_one() {
    let count = |text: &str| usize_field(&json(text), &["a", "b"]);
    assert_eq!(count("{\"a\":5,\"b\":6}"), Some(5));
    assert_eq!(count("{\"a\":\"+5\"}"), Some(5));
    assert_eq!(count("{\"a\":\" 5\",\"b\":6}"), Some(6));
    assert_eq!(count("{\"a\":-5,\"b\":\"7\"}"), Some(7));
    assert_eq!(count("{\"a\":5.0,\"b\":true}"), None);
    assert_eq!(count("{\"a\":null}"), None);
    assert_eq!(count("[5]"), None);
}

#[test]
fn the_total_stands_under_one_of_five_names() {
    for name in ["total", "total_count", "totalCount", "count", "total_results"] {
        assert_eq!(total_count(&json(&format!("{{\"{name}\":42}}"))), Some(42));
    }
    assert_eq!(total_count(&json("{\"size\":42}")), None);
    assert_eq!(total_count(&json("{\"count\":1,\"total\":2}")), Some(2));
}

#[test]
fn items_stand_bare_or_under_one_of_the_names() {
    let count = |text: &str| memory_items(&json(text)).len();
    assert_eq!(count("[1,2]"), 2);
    assert_eq!(count("{\"memories\":[1],\"results\":[1,2]}"), 1);
    assert_eq!(count("{\"memories\":{},\"data\":[1,2,3]}"), 3);
    assert_eq!(count("{\"items\":[]}"), 0);
    assert_eq!(count("{\"peers\":[1]}"), 0);
    assert_eq!(count("\"x\""), 0);
    assert_eq!(peer_items(&json("{\"peers\":[1],\"memories\":[1,2]}")).len(), 1);
    let value = json("{\"x\":[\"one\",\"two\"]}");
    let items = array_items(&value, &["y", "x"]);
    assert_eq!(encode_json(items[1]), "\"two\"");
}

#[test]
fn a_peer_is_one_line() {
    let peers = json(
        "{\"peers\":[{\"url\":\"http://a\",\"last_sync_at\":\"2026\"},{\"peer_url\":\"http://b\"},\
         {\"base_url\":\"\",\"peer_url\":\"http://c\",\"lastSyncAt\":12},7]}",
    );
    assert_eq!(
        format_peers(&peers),
        vec!["http://a\t2026", "http://b\t<never>", "<unknown>\t12", "<unknown>\t<never>"]
    );
    assert!(format_peers(&json("{}")).is_empty());
}
