use xuanmi_base_support::conversion::envelope::{
    encode_failure, encode_success, JsonDictGet, ENVELOPE_SITE,
};
use xuanmi_base_support::conversion::json::{JsonDict, JsonNumber, JsonValue};
use xuanmi_base_support::exception::exception;

fn text(s: &str) -> JsonValue {
    JsonValue::String(s.to_string())
}

fn number(n: u64) -> JsonValue {
    JsonValue::Number(JsonNumber::PosInt(n))
}

fn object(entries: Vec<(&str, JsonValue)>) -> JsonDict {
    let mut dict = JsonDict::new();
    for (key, value) in entries {
        dict.insert(key.to_string(), value);
    }
    dict
}

fn assert_same(left: &JsonValue, right: &JsonValue) {
    assert!(left.same_value(right));
    assert!(right.same_value(left));
}

#[test]
fn dict_keeps_one_value_per_key() {
    let mut dict = JsonDict::new();
    assert!(dict.is_empty());
    assert_eq!(dict.len(), 0);
    assert!(dict.insert("a".to_string(), number(1)).is_none());
    assert!(dict.insert("b".to_string(), number(2)).is_none());
    let before = dict.insert("a".to_string(), number(3)).unwrap();
    assert_same(&before, &number(1));
    assert_eq!(dict.len(), 2);
    assert!(dict.contains_key("a"));
    assert!(!dict.contains_key("c"));
    assert_same(dict.get("a").unwrap(), &number(3));
    assert!(dict.get("c").is_none());
    let taken = dict.remove("a").unwrap();
    assert_same(&taken, &number(3));
    assert!(dict.remove("a").is_none());
    assert_eq!(dict.len(), 1);
    assert!(!dict.is_empty());
    assert_same(dict.get("b").unwrap(), &number(2));
}

#[test]
fn dict_lists_each_key_once() {
    let dict = object(vec![("b", number(2)), ("a", number(1)), ("b", number(3))]);
    let mut keys = dict.keys();
    keys.sort();
    assert_eq!(keys, vec!["a".to_string(), "b".to_string()]);
    assert!(JsonDict::new().keys().is_empty());
}

#[test]
fn same_value_compares_content_not_order() {
    let left = JsonValue::Object(object(vec![("a", number(1)), ("b", text("x"))]));
    let right = JsonValue::Object(object(vec![("b", text("x")), ("a", number(1))]));
    assert_same(&left, &right);
    let other = JsonValue::Object(object(vec![("a", number(1)), ("b", text("y"))]));
    assert!(!left.same_value(&other));
    let fewer = JsonValue::Object(object(vec![("a", number(1))]));
    assert!(!left.same_value(&fewer));
    assert!(!fewer.same_value(&left));
    let array = JsonValue::Array(vec![number(1), number(2)]);
    assert!(!array.same_value(&JsonValue::Array(vec![number(2), number(1)])));
    assert!(!array.same_value(&JsonValue::Array(vec![number(1)])));
    assert!(!JsonValue::Null.same_value(&JsonValue::Bool(false)));
    assert!(!number(1).same_value(&JsonValue::Number(JsonNumber::NegInt(-1))));
    assert!(!number(1).same_value(&JsonValue::Number(JsonNumber::Float(1))));
}

#[test]
fn duplicate_copies_all_the_way_down() {
    let value = JsonValue::Object(object(vec![
        ("list", JsonValue::Array(vec![JsonValue::Null, JsonValue::Bool(true), text("t")])),
        ("inner", JsonValue::Object(object(vec![("n", number(5))]))),
    ]));
    assert_same(&value.duplicate(), &value);
}

#[test]
fn encoding_42_wraps_it_under_the_number_key() {
    let envelope = encode_success(number(42)).ok().unwrap();
    assert_eq!(envelope.len(), 2);
    assert_same(envelope.get("status").unwrap(), &text("ok"));
    assert_same(envelope.get("__number").unwrap(), &number(42));
    assert_same(&envelope.jcatch_().ok().unwrap(), &number(42));
}

#[test]
fn scalars_and_arrays_round_trip_under_their_reserved_key() {
    let cases = vec![
        ("__bool", JsonValue::Bool(false)),
        ("__bool", JsonValue::Bool(true)),
        ("__string", text("")),
        ("__string", text("status")),
        ("__number", JsonValue::Number(JsonNumber::NegInt(-7))),
        ("__number", JsonValue::Number(JsonNumber::Float(0x3ff8_0000_0000_0000))),
        ("__array", JsonValue::Array(vec![])),
        (
            "__array",
            JsonValue::Array(vec![number(1), text("two"), JsonValue::Array(vec![JsonValue::Null])]),
        ),
    ];
    for (key, value) in cases {
        let envelope = encode_success(value.duplicate()).ok().unwrap();
        assert_eq!(envelope.len(), 2);
        assert_same(envelope.get("status").unwrap(), &text("ok"));
        assert_same(envelope.get(key).unwrap(), &value);
        assert_same(&envelope.jcatch_().ok().unwrap(), &value);
    }
}

#[test]
fn null_travels_as_an_envelope_without_payload() {
    let envelope = encode_success(JsonValue::Null).ok().unwrap();
    assert_eq!(envelope.len(), 1);
    assert_same(envelope.get("status").unwrap(), &text("ok"));
    assert_same(&envelope.jcatch_().ok().unwrap(), &JsonValue::Null);
}

#[test]
fn objects_round_trip_as_sibling_fields() {
    let payload = JsonValue::Object(object(vec![
        ("a", number(1)),
        ("trace", text("not a trace")),
        ("nested", JsonValue::Object(object(vec![("status", text("inner"))]))),
    ]));
    let envelope = encode_success(payload.duplicate()).ok().unwrap();
    assert_eq!(envelope.len(), 4);
    assert_same(envelope.get("status").unwrap(), &text("ok"));
    assert_same(envelope.get("a").unwrap(), &number(1));
    assert_same(&envelope.jcatch_().ok().unwrap(), &payload);
}

#[test]
fn an_empty_object_comes_back_as_null() {
    let envelope = encode_success(JsonValue::Object(JsonDict::new())).ok().unwrap();
    assert_eq!(envelope.len(), 1);
    assert_same(&envelope.jcatch_().ok().unwrap(), &JsonValue::Null);
}

#[test]
fn object_payloads_may_not_use_envelope_keys() {
    for key in ["status", "__array", "__bool", "__string", "__number"] {
        let payload = JsonValue::Object(object(vec![("a", number(1)), (key, number(2))]));
        let ex = encode_success(payload).err().unwrap();
        assert_eq!(ex.get_name(), "DataFormatException");
        assert_eq!(ex.get_context(), Some("payload uses a key reserved for the envelope"));
    }
}

#[test]
fn a_failure_travels_as_its_rendered_trace() {
    let ex = exception("IO", "file missing", "store.rs", 3, 4);
    let envelope = encode_failure(&ex);
    assert_eq!(envelope.len(), 2);
    assert_same(envelope.get("status").unwrap(), &text("err"));
    let trace = match envelope.get("trace").unwrap() {
        JsonValue::String(trace) => trace.clone(),
        _ => panic!("trace is not a string"),
    };
    assert!(trace.contains("IO"));
    assert!(trace.contains("file missing"));
    assert_eq!(trace, ex.render());
}

#[test]
fn a_decoded_failure_is_caused_by_the_trace() {
    let ex = exception("IO", "file missing", "store.rs", 3, 4);
    let local = encode_failure(&ex).jcatch_().err().unwrap();
    assert_eq!(local.get_name(), "Uncategorized");
    assert_eq!(
        local.render(),
        format!(
            "Exception \"Uncategorized\" occurs at \"{}\"\nCaused by:\n{}\n",
            ENVELOPE_SITE,
            ex.render()
        )
    );
}

#[test]
fn an_unknown_status_is_a_format_violation() {
    let ex = object(vec![("status", text("maybe"))]).jcatch_().err().unwrap();
    assert_eq!(ex.get_name(), "DataFormatException");
    assert_eq!(ex.get_context(), Some("status field must be either \"ok\" or \"err\""));
    let ex = object(vec![("status", text("OK"))]).jcatch_().err().unwrap();
    assert_eq!(ex.get_name(), "DataFormatException");
}

#[test]
fn two_reserved_keys_are_a_format_violation() {
    let envelope = object(vec![
        ("status", text("ok")),
        ("__array", JsonValue::Array(vec![])),
        ("__string", text("s")),
    ]);
    let ex = envelope.jcatch_().err().unwrap();
    assert_eq!(ex.get_name(), "DataFormatException");
    assert_eq!(
        ex.get_context(),
        Some("at most one of __array, __bool, __string, __number may be present")
    );
    let envelope =
        object(vec![("status", text("ok")), ("__number", number(1)), ("__bool", text("s"))]);
    assert_eq!(envelope.jcatch_().err().unwrap().get_name(), "DataFormatException");
}

#[test]
fn a_failure_without_trace_is_a_format_violation() {
    let ex = object(vec![("status", text("err"))]).jcatch_().err().unwrap();
    assert_eq!(ex.get_name(), "DataFormatException");
    assert_eq!(ex.get_context(), Some("trace field absent"));
    let ex = object(vec![("status", text("err")), ("trace", number(1))]).jcatch_().err().unwrap();
    assert_eq!(ex.get_name(), "DataFormatException");
    assert_eq!(ex.get_context(), Some("trace field is not a string"));
}

#[test]
fn a_missing_status_is_a_format_violation() {
    let ex = object(vec![("a", number(1))]).jcatch_().err().unwrap();
    assert_eq!(ex.get_name(), "DataFormatException");
    assert_eq!(ex.get_context(), Some("status field absent"));
    let ex = JsonDict::new().jcatch_().err().unwrap();
    assert_eq!(ex.get_context(), Some("status field absent"));
    let ex = object(vec![("status", JsonValue::Bool(true))]).jcatch_().err().unwrap();
    assert_eq!(ex.get_name(), "DataFormatException");
    assert_eq!(ex.get_context(), Some("status field is not a string"));
}

#[test]
fn a_reserved_key_wins_over_sibling_fields() {
    let envelope =
        object(vec![("status", text("ok")), ("other", number(9)), ("__string", text("kept"))]);
    assert_same(&envelope.jcatch_().ok().unwrap(), &text("kept"));
}

#[test]
fn required_fields_must_be_there() {
    let dict = object(vec![("a", number(1))]);
    assert_same(dict.get_must_provide("a").ok().unwrap(), &number(1));
    let ex = dict.get_must_provide("b").err().unwrap();
    assert_eq!(ex.get_name(), "JsonNoRequiredFieldException");
    assert_eq!(ex.get_context(), Some("The required JSON field \"b\" is absent"));
}

#[test]
fn optional_fields_fall_back_to_the_default() {
    let dict = object(vec![("a", number(1))]);
    let fallback = number(0);
    assert_same(dict.get_with_default("a", &fallback).ok().unwrap(), &number(1));
    assert_same(dict.get_with_default("b", &fallback).ok().unwrap(), &number(0));
}

#[test]
fn catch_reads_the_envelope_as_jcatch_does() {
    let envelope = encode_success(number(42)).ok().unwrap();
    assert_same(&envelope.catch_().ok().unwrap(), &number(42));
    let ex = object(vec![("status", text("maybe"))]).catch_().err().unwrap();
    assert_eq!(ex.get_name(), "DataFormatException");
    let ex = object(vec![("a", number(1))]).catch_().err().unwrap();
    assert_eq!(ex.get_name(), "DataFormatException");
    assert_eq!(ex.get_context(), Some("status field absent"));
    let envelope = object(vec![
        ("status", text("ok")),
        ("__array", JsonValue::Array(vec![number(1)])),
        ("__string", text("x")),
    ]);
    assert_eq!(envelope.catch_().err().unwrap().get_name(), "DataFormatException");
    let failure = exception("IO", "file missing", "store.rs", 3, 4);
    let local = encode_failure(&failure).catch_().err().unwrap();
    assert!(local.render().contains(&failure.render()));
}

#[test]
fn tags_of_the_envelope_keep_their_full_names() {
    assert_eq!(xuanmi_base_support::exception_names::DataFormatException, "DataFormatException");
    assert_eq!(
        xuanmi_base_support::conversion::envelope::JsonNoRequiredFieldException,
        "JsonNoRequiredFieldException"
    );
}
