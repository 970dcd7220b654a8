use rust_gateway::json::{normalize_json, str_less, JsonValue};

fn obj(members: Vec<(&str, JsonValue)>) -> JsonValue {
    JsonValue::Object(members.into_iter().map(|(k, v)| (k.to_string(), v)).collect())
}

fn keys(v: &JsonValue) -> Vec<String> {
    match v {
        JsonValue::Object(ms) => ms.iter().map(|(k, _)| k.clone()).collect(),
        _ => Vec::new(),
    }
}

#[test]
fn objects_are_sorted_recursively() {
    let v = obj(vec![
        ("b", JsonValue::Int(1)),
        ("a", obj(vec![("z", JsonValue::Null), ("y", JsonValue::Bool(true))])),
        ("c", JsonValue::Array(vec![obj(vec![("q", JsonValue::Int(1)), ("p", JsonValue::Int(2))])])),
    ]);
    let n = normalize_json(v);
    assert_eq!(keys(&n), vec!["a", "b", "c"]);
    match &n {
        JsonValue::Object(ms) => {
            assert_eq!(keys(&ms[0].1), vec!["y", "z"]);
            match &ms[2].1 {
                JsonValue::Array(items) => assert_eq!(keys(&items[0]), vec!["p", "q"]),
                _ => panic!("array expected"),
            }
        }
        _ => panic!("object expected"),
    }
}

#[test]
fn repeated_keys_keep_the_last_value() {
    let v = obj(vec![("k", JsonValue::Int(1)), ("j", JsonValue::Int(0)), ("k", JsonValue::Int(2))]);
    match normalize_json(v) {
        JsonValue::Object(ms) => {
            assert_eq!(ms.len(), 2);
            assert_eq!(ms[0].0, "j");
            assert_eq!(ms[1].0, "k");
            assert!(matches!(ms[1].1, JsonValue::Int(2)));
        }
        _ => panic!("object expected"),
    }
}

#[test]
fn scalars_are_unchanged() {
    assert!(matches!(normalize_json(JsonValue::Int(5)), JsonValue::Int(5)));
    assert!(matches!(normalize_json(JsonValue::Str("x".to_string())), JsonValue::Str(s) if s == "x"));
}

#[test]
fn keys_compare_by_code_point() {
    assert!(str_less("a", "b"));
    assert!(str_less("ab", "abc"));
    assert!(!str_less("abc", "ab"));
    assert!(!str_less("a", "a"));
    assert!(str_less("Z", "a"));
    assert!(str_less("z", "é"));
}
