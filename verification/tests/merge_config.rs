//! Deep merge of configuration values.

use foiacquire::jsonval::{deep_merge, merge_configs, JsonValue};

fn obj(entries: Vec<(&str, JsonValue)>) -> JsonValue {
    let mut out: Vec<(String, JsonValue)> = Vec::new();
    for (k, v) in entries {
        out.push((k.to_string(), v));
    }
    JsonValue::Obj(out)
}

fn get<'a>(v: &'a JsonValue, key: &str) -> &'a JsonValue {
    v.get(key).expect("key should be present")
}

fn as_int(v: &JsonValue) -> i64 {
    match v {
        JsonValue::Int(n) => *n,
        _ => panic!("not an integer"),
    }
}

fn as_bool(v: &JsonValue) -> bool {
    match v {
        JsonValue::Bool(b) => *b,
        _ => panic!("not a boolean"),
    }
}

fn as_str(v: &JsonValue) -> &str {
    match v {
        JsonValue::Str(s) => s.as_str(),
        _ => panic!("not a string"),
    }
}

#[test]
fn test_deep_merge_objects() {
    let base = obj(vec![
        ("a", JsonValue::Int(1)),
        ("b", obj(vec![("c", JsonValue::Int(2)), ("d", JsonValue::Int(3))])),
    ]);

    let overlay = obj(vec![
        ("b", obj(vec![("c", JsonValue::Int(20)), ("e", JsonValue::Int(5))])),
        ("f", JsonValue::Int(6)),
    ]);

    let merged = deep_merge(base, &overlay);

    assert_eq!(as_int(get(&merged, "a")), 1); // kept from base
    assert_eq!(as_int(get(get(&merged, "b"), "c")), 20); // overridden by overlay
    assert_eq!(as_int(get(get(&merged, "b"), "d")), 3); // kept from base
    assert_eq!(as_int(get(get(&merged, "b"), "e")), 5); // added from overlay
    assert_eq!(as_int(get(&merged, "f")), 6); // added from overlay
}

#[test]
fn test_deep_merge_null_preserves_base() {
    let base = obj(vec![("a", JsonValue::Int(1)), ("b", JsonValue::Int(2))]);
    let overlay = obj(vec![("a", JsonValue::Null), ("c", JsonValue::Int(3))]);

    let merged = deep_merge(base, &overlay);

    assert_eq!(as_int(get(&merged, "a")), 1); // null does not override
    assert_eq!(as_int(get(&merged, "b")), 2); // kept from base
    assert_eq!(as_int(get(&merged, "c")), 3); // added from overlay
}

#[test]
fn test_merge_configs() {
    let base = obj(vec![(
        "scrapers",
        obj(vec![(
            "example",
            obj(vec![("url", JsonValue::Str("https://example.com".to_string()))]),
        )]),
    )]);

    let overlay = obj(vec![
        (
            "scrapers",
            obj(vec![("example", obj(vec![("enabled", JsonValue::Bool(true))]))]),
        ),
        ("llm", obj(vec![("enabled", JsonValue::Bool(true))])),
    ]);

    let merged = merge_configs(base, &overlay);

    let scrapers = get(&merged, "scrapers");
    let example = get(scrapers, "example");
    assert_eq!(as_str(get(example, "url")), "https://example.com");
    assert!(as_bool(get(example, "enabled")));

    let llm = get(&merged, "llm");
    assert!(as_bool(get(llm, "enabled")));
}

#[test]
fn test_deep_merge_replaces_scalars_and_arrays() {
    let merged = deep_merge(JsonValue::Int(1), &JsonValue::Int(9));
    assert_eq!(as_int(&merged), 9);

    let base = JsonValue::Arr(vec![JsonValue::Int(1), JsonValue::Int(2)]);
    let overlay = JsonValue::Arr(vec![JsonValue::Int(7)]);
    match deep_merge(base, &overlay) {
        JsonValue::Arr(items) => {
            assert_eq!(items.len(), 1);
            assert_eq!(as_int(&items[0]), 7);
        }
        _ => panic!("expected an array"),
    }

    // a null overlay keeps the base outright
    let kept = deep_merge(JsonValue::Int(4), &JsonValue::Null);
    assert_eq!(as_int(&kept), 4);
}
