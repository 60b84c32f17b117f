use rig_llama_cpp::json::{parse_json, Json};

#[test]
fn json_is_read_and_printed() {
    let value = match parse_json(" {\"b\": [1, -2.5, true, null], \"a\": \"x\\n\"} ") {
        Ok(value) => value,
        Err(message) => panic!("{message}"),
    };
    assert_eq!(value.print(), r#"{"a":"x\n","b":[1,-2.5,true,null]}"#);
    assert_eq!(value.clone().print(), value.print());
    assert!(parse_json("{").is_err());
}

#[test]
fn json_members_are_found_by_name() {
    let value = Json::empty_object()
        .with("a", Json::Str("x".to_string()))
        .with("b", Json::Bool(true))
        .with("a", Json::Str("y".to_string()));
    assert_eq!(value.get_str("a").map(|text| text.as_str()), Some("y"));
    assert_eq!(value.get("b").and_then(|member| member.as_bool()), Some(true));
    assert!(value.get("c").is_none());
    assert!(value.get_array("a").is_none());
    assert!(value.get_object("a").is_none());
    assert!(value.is_object());
    assert_eq!(value.print(), r#"{"a":"y","b":true}"#);
}

#[test]
fn json_numbers_are_read_as_unsigned() {
    let read = |text: &str| parse_json(text).ok().and_then(|value| value.as_u64());
    assert_eq!(read("7"), Some(7));
    assert_eq!(read("18446744073709551615"), Some(u64::MAX));
    assert_eq!(read("-1"), None);
    assert_eq!(read("1.5"), None);
    assert_eq!(read("\"1\""), None);
}

#[test]
fn only_blanks_follow_an_object() {
    assert!(parse_json("{\"a\": 1} \n\t\r").is_ok());
    for rest in ["}", "{}", "x", "\u{a0}", " ,"] {
        let text = ["{\"a\": 1}", rest].concat();
        assert!(parse_json(&text).is_err(), "{text}");
    }
}
