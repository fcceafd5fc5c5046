use grand_cross::json::{member, member_as_str, member_as_u64, parse_json, serialize_json, JsonValue};

#[test]
fn parses_one_level() {
    match parse_json(br#"{"b":[1,true],"a":"x","n":-2}"#).unwrap() {
        JsonValue::Object(fields) => {
            assert_eq!(
                fields,
                vec![
                    ("a".to_string(), br#""x""#.to_vec()),
                    ("b".to_string(), b"[1,true]".to_vec()),
                    ("n".to_string(), b"-2".to_vec()),
                ]
            );
        }
        other => panic!("unexpected {:?}", other),
    }
    assert!(matches!(parse_json(b"17"), Some(JsonValue::UInt(17))));
    assert!(matches!(parse_json(b"null"), Some(JsonValue::Null)));
    assert!(matches!(parse_json(b"true"), Some(JsonValue::Other(t)) if t == b"true".to_vec()));
    assert!(matches!(parse_json(b"1.5"), Some(JsonValue::Other(t)) if t == b"1.5".to_vec()));
    assert!(parse_json(b"{").is_none());
}

#[test]
fn members() {
    let v = parse_json(br#"{"s":"t","u":5,"f":2.0,"neg":-1}"#).unwrap();
    assert_eq!(member(&v, "u"), Some(&b"5".to_vec()));
    assert_eq!(member(&v, "zz"), None);
    assert_eq!(member_as_str(&v, "s"), Some("t".to_string()));
    assert_eq!(member_as_str(&v, "u"), None);
    assert_eq!(member_as_u64(&v, "u"), Some(5));
    assert_eq!(member_as_u64(&v, "f"), None);
    assert_eq!(member_as_u64(&v, "neg"), None);
    let arr = parse_json(b"[1]").unwrap();
    assert_eq!(member(&arr, "0"), None);
}

#[test]
fn serializes() {
    let v = JsonValue::Object(vec![("z".to_string(), b"[1, 2]".to_vec()), ("a".to_string(), b"\"q\"".to_vec())]);
    assert_eq!(serialize_json(&v), Some(br#"{"a":"q","z":[1,2]}"#.to_vec()));
    assert_eq!(serialize_json(&JsonValue::Str("é\"".to_string())), Some("\"é\\\"\"".as_bytes().to_vec()));
    assert_eq!(serialize_json(&JsonValue::UInt(0)), Some(b"0".to_vec()));
    assert_eq!(serialize_json(&JsonValue::Null), Some(b"null".to_vec()));
    assert_eq!(serialize_json(&JsonValue::Array(vec![b"x".to_vec()])), None);
    assert_eq!(serialize_json(&JsonValue::Other(b"false".to_vec())), Some(b"false".to_vec()));
}
