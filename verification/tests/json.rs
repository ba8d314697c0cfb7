use trae_agent::json::Json;

fn read(text: &str) -> Json {
    Json::parse(text).expect("a document")
}

#[test]
fn members_are_found_by_their_key() {
    let json = read(r#"{"a": "x", "b": [1, true, null], "c": {"d": false}}"#);
    assert_eq!(json.get_str("a"), Some("x"));
    assert_eq!(json.get_array("b").map(|items| items.len()), Some(3));
    assert!(matches!(json.get("c").and_then(|c| c.get("d")), Some(Json::Bool(false))));
    assert!(json.get("e").is_none());
    assert!(json.get_str("b").is_none());
    assert!(json.get_array("a").is_none());
    assert!(read("[1]").get("a").is_none());
}

#[test]
fn text_of_every_kind_is_read() {
    assert!(matches!(read("null"), Json::Null));
    assert!(matches!(read(" true "), Json::Bool(true)));
    assert!(matches!(read("-12"), Json::Number(_)));
    assert_eq!(read(r#""aA\n""#).as_str(), Some("aA\n"));
    assert_eq!(read("[[], [0]]").as_array().map(|items| items.len()), Some(2));
}

#[test]
fn the_later_of_two_members_counts() {
    let json = read(r#"{"a": 1, "a": "second"}"#);
    assert_eq!(json.get_str("a"), Some("second"));
    let listed = Json::Object(vec![
        ("a".to_string(), Json::Bool(true)),
        ("a".to_string(), Json::Text("second".to_string())),
    ]);
    assert_eq!(listed.get_str("a"), Some("second"));
    assert!(listed.same(&read(r#"{"a": "second"}"#)));
    assert_eq!(listed.print().unwrap(), "{\n  \"a\": \"second\"\n}");
}

#[test]
fn set_adds_and_overwrites_members_of_objects_only() {
    let mut json = read(r#"{"b": 1}"#);
    json.set("a", Json::integer(7));
    json.set("b", Json::Null);
    assert_eq!(json.print().unwrap(), "{\n  \"a\": 7,\n  \"b\": null\n}");
    let mut array = read("[1]");
    array.set("a", Json::Null);
    assert_eq!(array.print().unwrap(), "[\n  1\n]");
}

#[test]
fn integers_print_as_their_digits() {
    assert_eq!(Json::integer(0).print().unwrap(), "0");
    assert_eq!(Json::integer(10).print().unwrap(), "10");
    assert_eq!(Json::integer(u64::MAX).print().unwrap(), "18446744073709551615");
}

#[test]
fn documents_are_compared_by_what_they_say() {
    assert!(read(r#"{"a": 1, "b": [2]}"#).same(&read(r#"{"b": [2], "a": 1}"#)));
    assert!(!read(r#"{"a": 1}"#).same(&read(r#"{"a": 2}"#)));
    assert!(!read(r#"{"a": 1}"#).same(&read(r#"{"a": 1, "b": 1}"#)));
    assert!(!read(r#"{"a": 1, "b": 1}"#).same(&read(r#"{"a": 1}"#)));
    assert!(!read("[1, 2]").same(&read("[2, 1]")));
    assert!(!read("[1]").same(&read("[1, 1]")));
    assert!(!read("1").same(&read("1.0")));
    assert!(!read(r#""1""#).same(&read("1")));
    assert!(read("null").same(&read("null")));
}

#[test]
fn a_copy_says_the_same() {
    let json = read(r#"{"a": [1, 2.5, {"b": null}], "c": "d", "e": false}"#);
    assert!(json.clone().same(&json));
}

#[test]
fn what_is_no_json_is_an_error() {
    assert_eq!(
        Json::parse("").unwrap_err(),
        "EOF while parsing a value at line 1 column 0"
    );
    assert_eq!(
        Json::parse("{\"a\" 1}").unwrap_err(),
        "expected `:` at line 1 column 6"
    );
    assert!(Json::parse("{} {}").is_err());
}

#[test]
fn print_can_be_read_again() {
    let text = r#"{"a": [1, -2, 18446744073709551615, {"b": "\u0001\"\\/é"}], "c": {}, "d": []}"#;
    let json = read(text);
    assert!(read(&json.print().unwrap()).same(&json));
}

#[test]
fn depth_is_limited() {
    let deep = |n: usize| format!("{}{}", "[".repeat(n), "]".repeat(n));
    assert!(Json::parse(&deep(127)).is_ok());
    assert!(Json::parse(&deep(128)).is_err());
    let json = read(&deep(127));
    assert!(read(&json.print().unwrap()).same(&json));
}

#[test]
fn the_largest_and_smallest_numbers_can_be_read_again() {
    let top = f64::MAX.to_bits();
    for step in 0..20000u64 {
        for bits in [top - step, step] {
            for sign in [0, 1u64 << 63] {
                let float = f64::from_bits(bits | sign);
                let number = serde_json::Number::from_f64(float).expect("a finite number");
                let text = Json::Number(number).print().unwrap();
                assert!(matches!(Json::parse(&text), Ok(Json::Number(_))));
            }
        }
    }
}
