use kafka_oneshot::json::{Json, Member};
use kafka_oneshot::key::{
    extract, extract_key_from_json, json_pointer_to_value, key_in, key_of, lookup, KeyPath,
};

fn text(s: &str) -> Json {
    Json::Text(s.to_string())
}

fn object(members: Vec<(&str, Json)>) -> Json {
    Json::Object(
        members.into_iter().map(|(name, value)| Member { name: name.to_string(), value }).collect(),
    )
}

#[test]
fn nested_string_is_found() {
    assert_eq!(extract_key_from_json("{\"a\":{\"b\":\"v\"}}", "a.b"), Some("v".to_string()));
}

#[test]
fn missing_member_gives_no_key() {
    assert_eq!(extract_key_from_json("{\"a\":{\"b\":\"v\"}}", "a.c"), None);
}

#[test]
fn number_leaf_gives_no_key() {
    assert_eq!(extract_key_from_json("{\"a\":1}", "a"), None);
}

#[test]
fn other_leaves_give_no_key() {
    assert_eq!(extract_key_from_json("{\"a\":true}", "a"), None);
    assert_eq!(extract_key_from_json("{\"a\":null}", "a"), None);
    assert_eq!(extract_key_from_json("{\"a\":{\"b\":\"v\"}}", "a"), None);
    assert_eq!(extract_key_from_json("{\"a\":[\"v\"]}", "a"), None);
    assert_eq!(extract_key_from_json("{\"a\":1.5}", "a"), None);
}

#[test]
fn path_through_a_value_that_is_no_object_gives_no_key() {
    assert_eq!(extract_key_from_json("{\"a\":\"v\"}", "a.b"), None);
    assert_eq!(extract_key_from_json("{\"a\":[{\"b\":\"v\"}]}", "a.b"), None);
    assert_eq!(extract_key_from_json("\"v\"", "a"), None);
    assert_eq!(extract_key_from_json("[1,2]", "0"), None);
}

#[test]
fn text_that_is_not_json_gives_no_key() {
    assert_eq!(extract_key_from_json("{\"a\":", "a"), None);
    assert_eq!(extract_key_from_json("", "a"), None);
    assert_eq!(extract_key_from_json("}{", "a"), None);
    assert_eq!(extract_key_from_json("{\"a\":\"v\"} trailing", "a"), None);
}

#[test]
fn extraction_repeats() {
    let path = KeyPath::parse("a.b");
    let frame = "{\"a\":{\"b\":\"v\"}}";
    let first = extract(frame, &path);
    let second = extract(frame, &path);
    let third = extract(frame, &path);
    assert_eq!(first, Some("v".to_string()));
    assert_eq!(first, second);
    assert_eq!(second, third);
    let missing = KeyPath::parse("a.c");
    assert_eq!(extract(frame, &missing), extract(frame, &missing));
    assert_eq!(extract(frame, &missing), None);
}

#[test]
fn surrounding_white_space_does_not_hide_the_key() {
    assert_eq!(extract_key_from_json("\n  {\"id\":\"42\"} ", "id"), Some("42".to_string()));
}

#[test]
fn empty_names_are_names() {
    assert_eq!(extract_key_from_json("{\"\":\"v\"}", ""), Some("v".to_string()));
    assert_eq!(extract_key_from_json("{\"a\":{\"\":{\"b\":\"v\"}}}", "a..b"), Some("v".to_string()));
    assert_eq!(extract_key_from_json("{\"a\":\"v\"}", ""), None);
    assert_eq!(extract_key_from_json("{\"a\":\"v\"}", "a."), None);
}

#[test]
fn escapes_in_the_key_are_decoded() {
    assert_eq!(
        extract_key_from_json("{\"id\":\"a\\\"b\\u00e9\\n\"}", "id"),
        Some("a\"bé\n".to_string())
    );
}

#[test]
fn key_path_parse_splits_on_dots() {
    assert_eq!(KeyPath::parse("a.b").segments(), &vec!["a".to_string(), "b".to_string()]);
    assert_eq!(KeyPath::parse("id").segments(), &vec!["id".to_string()]);
    assert_eq!(KeyPath::parse("").segments(), &vec!["".to_string()]);
    assert_eq!(
        KeyPath::parse("a..b").segments(),
        &vec!["a".to_string(), "".to_string(), "b".to_string()]
    );
    assert_eq!(KeyPath::parse("a.b"), KeyPath::parse("a.b"));
    assert_ne!(KeyPath::parse("a.b"), KeyPath::parse("a.c"));
}

#[test]
fn parse_carries_every_kind_of_value_over() {
    assert_eq!(Json::parse("null"), Some(Json::Null));
    assert_eq!(Json::parse("true"), Some(Json::Bool(true)));
    assert_eq!(Json::parse("false"), Some(Json::Bool(false)));
    assert_eq!(Json::parse("1"), Some(Json::Number("1".to_string())));
    assert_eq!(Json::parse("-12"), Some(Json::Number("-12".to_string())));
    assert_eq!(Json::parse("1.5"), Some(Json::Number("1.5".to_string())));
    assert_eq!(Json::parse("\"v\""), Some(text("v")));
    assert_eq!(Json::parse("[1,\"a\",[]]"), Some(Json::Array(vec![
        Json::Number("1".to_string()),
        text("a"),
        Json::Array(vec![]),
    ])));
    assert_eq!(Json::parse("{}"), Some(object(vec![])));
    assert_eq!(
        Json::parse(" {\"a\":{\"b\":\"v\"},\"c\":null} "),
        Some(object(vec![("a", object(vec![("b", text("v"))])), ("c", Json::Null)]))
    );
}

#[test]
fn parse_refuses_what_is_not_json() {
    assert_eq!(Json::parse(""), None);
    assert_eq!(Json::parse("{"), None);
    assert_eq!(Json::parse("{\"a\":}"), None);
    assert_eq!(Json::parse("{} {}"), None);
    assert_eq!(Json::parse("abc"), None);
}

#[test]
fn parse_keeps_the_last_of_members_with_one_name() {
    let parsed = Json::parse("{\"a\":\"first\",\"a\":\"last\"}").unwrap();
    assert_eq!(parsed, object(vec![("a", text("last"))]));
}

#[test]
fn get_finds_members_of_objects_only() {
    let value = object(vec![("a", text("x")), ("b", Json::Null)]);
    assert_eq!(value.get("a"), Some(&text("x")));
    assert_eq!(value.get("b"), Some(&Json::Null));
    assert_eq!(value.get("c"), None);
    assert_eq!(value.get(""), None);
    assert_eq!(text("a").get("a"), None);
    assert_eq!(Json::Array(vec![text("a")]).get("0"), None);
    assert_eq!(Json::Null.get("a"), None);
}

#[test]
fn get_takes_the_first_of_members_with_one_name() {
    let value = object(vec![("a", text("first")), ("a", text("second"))]);
    assert_eq!(value.get("a"), Some(&text("first")));
}

#[test]
fn as_text_is_for_strings_only() {
    assert_eq!(text("v").as_text(), Some(&"v".to_string()));
    assert_eq!(Json::Number("1".to_string()).as_text(), None);
    assert_eq!(Json::Bool(true).as_text(), None);
    assert_eq!(Json::Null.as_text(), None);
    assert_eq!(object(vec![]).as_text(), None);
    assert_eq!(Json::Array(vec![]).as_text(), None);
}

#[test]
fn lookup_follows_the_path() {
    let inner = object(vec![("b", text("v"))]);
    let root = object(vec![("a", object(vec![("b", text("v"))])), ("n", Json::Number("1".to_string()))]);
    assert_eq!(lookup(&root, &KeyPath::parse("a")), Some(&inner));
    assert_eq!(lookup(&root, &KeyPath::parse("a.b")), Some(&text("v")));
    assert_eq!(lookup(&root, &KeyPath::parse("a.b.c")), None);
    assert_eq!(lookup(&root, &KeyPath::parse("n")), Some(&Json::Number("1".to_string())));
    assert_eq!(lookup(&root, &KeyPath::parse("x")), None);
    assert_eq!(json_pointer_to_value(&root, "a.b"), Some(&text("v")));
    assert_eq!(json_pointer_to_value(&root, "a.c"), None);
}

#[test]
fn key_in_and_key_of_work_on_parsed_values() {
    let root = object(vec![("a", object(vec![("b", text("v"))])), ("n", Json::Number("1".to_string()))]);
    let path = KeyPath::parse("a.b");
    assert_eq!(key_in(&root, &path), Some("v".to_string()));
    assert_eq!(key_in(&root, &KeyPath::parse("n")), None);
    assert_eq!(key_in(&root, &KeyPath::parse("a")), None);
    assert_eq!(key_of(&Some(root), &path), Some("v".to_string()));
    assert_eq!(key_of(&None, &path), None);
}
