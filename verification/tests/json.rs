use grindr_mcp::json::{Json, JsonObject};

#[test]
fn members_are_kept_in_order() {
    let mut object = JsonObject::new();
    for name in ["b", "a", "é", "", "aa", "Z"] {
        object.insert(name.to_owned(), Json::Str(name.to_owned()));
    }
    let names: Vec<&str> = (0..object.len()).map(|i| object.name(i).as_str()).collect();
    assert_eq!(names, vec!["", "Z", "a", "aa", "b", "é"]);
    for i in 0..object.len() {
        assert_eq!(object.value(i), &Json::Str(object.name(i).clone()));
    }
}

#[test]
fn a_member_is_replaced() {
    let mut object = JsonObject::new();
    object.insert("a".to_owned(), Json::Bool(false));
    object.insert("a".to_owned(), Json::Bool(true));
    assert_eq!(object.len(), 1);
    assert_eq!(object.get("a"), Some(&Json::Bool(true)));
    assert_eq!(object.get("b"), None);
}

#[test]
fn text_is_read_and_written() {
    let value = Json::parse(br#" {"x": [1, -2.5, "q\"", null, true], "a": {}} "#).unwrap();
    assert_eq!(value.to_compact(), r#"{"a":{},"x":[1,-2.5,"q\"",null,true]}"#);
    assert_eq!(
        value.to_pretty().unwrap(),
        "{\n  \"a\": {},\n  \"x\": [\n    1,\n    -2.5,\n    \"q\\\"\",\n    null,\n    true\n  ]\n}"
    );
    assert!(Json::parse(b"{").is_err());
    assert!(Json::parse(b"1 2").is_err());
}

#[test]
fn values_of_serde_are_told_alike() {
    let value = serde_json::from_str::<serde_json::Value>(r#"{"k": [1, {"z": "s"}]}"#).unwrap();
    let json = Json::from_value(value.clone());
    assert_eq!(json, Json::parse(br#"{"k": [1, {"z": "s"}]}"#).unwrap());
    assert_eq!(json.to_value(), value);
}

#[test]
fn numbers_are_decimal() {
    assert_eq!(Json::unsigned(18446744073709551615).to_compact(), "18446744073709551615");
    assert_eq!(Json::signed(-9223372036854775808).to_compact(), "-9223372036854775808");
    assert_eq!(Json::signed(0).to_compact(), "0");
}

#[test]
fn a_copy_says_the_same() {
    let value = Json::parse(br#"{"k": [1, {"z": "s"}], "n": null, "b": false}"#).unwrap();
    assert_eq!(value.clone(), value);
}

#[test]
fn values_are_asked_what_they_are() {
    let value = Json::parse(br#"{"t": true, "s": "x", "a": [1], "o": {}}"#).unwrap();
    assert!(value.get("t").unwrap().is_true());
    assert!(!value.get("s").unwrap().is_true());
    assert_eq!(value.text("s"), Some("x"));
    assert_eq!(value.text("a"), None);
    assert_eq!(value.array("a").map(|a| a.len()), Some(1));
    assert_eq!(value.array("o"), None);
    assert!(value.get("o").unwrap().as_object().is_some());
    assert!(Json::Null.get("s").is_none());
}
