use r2iac::json::{json_clone, json_eq, merge, JsonValue};

fn obj(entries: Vec<(&str, JsonValue)>) -> JsonValue {
    JsonValue::Obj(
        entries
            .into_iter()
            .map(|(k, v)| (k.to_string(), v))
            .collect(),
    )
}

fn s(v: &str) -> JsonValue {
    JsonValue::Str(v.to_string())
}

#[test]
fn structural_equality_is_deep() {
    let a = obj(vec![
        ("x", s("1")),
        ("y", JsonValue::Arr(vec![JsonValue::Int(1), JsonValue::Bool(true)])),
    ]);
    let b = obj(vec![
        ("x", s("1")),
        ("y", JsonValue::Arr(vec![JsonValue::Int(1), JsonValue::Bool(true)])),
    ]);
    assert!(json_eq(&a, &b));
    let c = obj(vec![
        ("x", s("1")),
        ("y", JsonValue::Arr(vec![JsonValue::Int(2), JsonValue::Bool(true)])),
    ]);
    assert!(!json_eq(&a, &c));
}

#[test]
fn equality_distinguishes_kinds_and_lengths() {
    assert!(json_eq(&JsonValue::Null, &JsonValue::Null));
    assert!(!json_eq(&JsonValue::Null, &JsonValue::Bool(false)));
    assert!(!json_eq(&JsonValue::Int(1), &JsonValue::Bool(true)));
    assert!(!json_eq(
        &JsonValue::Arr(vec![JsonValue::Int(1)]),
        &JsonValue::Arr(vec![]),
    ));
    assert!(!json_eq(&s("a"), &s("b")));
}

#[test]
fn clone_preserves_the_document() {
    let a = obj(vec![
        ("k", JsonValue::Arr(vec![s("v"), JsonValue::Null])),
        ("n", JsonValue::Int(-7)),
    ]);
    let b = json_clone(&a);
    assert!(json_eq(&a, &b));
}

#[test]
fn get_finds_the_first_entry() {
    let a = obj(vec![("one", s("1")), ("two", s("2"))]);
    assert!(json_eq(a.get("two").unwrap(), &s("2")));
    assert!(a.get("three").is_none());
    assert!(s("1").get("one").is_none());
    assert!(a.contains_key("one"));
    assert!(!a.contains_key("three"));
}

#[test]
fn merge_combines_objects_recursively() {
    let a = obj(vec![
        ("keep", s("a")),
        ("nested", obj(vec![("x", s("1")), ("y", s("2"))])),
    ]);
    let b = obj(vec![
        ("nested", obj(vec![("y", s("3")), ("z", s("4"))])),
        ("new", s("b")),
    ]);
    let m = merge(&a, &b);
    let expected = obj(vec![
        ("keep", s("a")),
        (
            "nested",
            obj(vec![("x", s("1")), ("y", s("3")), ("z", s("4"))]),
        ),
        ("new", s("b")),
    ]);
    assert!(json_eq(&m, &expected));
}

#[test]
fn merge_replaces_non_objects() {
    let m = merge(&s("old"), &s("new"));
    assert!(json_eq(&m, &s("new")));
    let m2 = merge(&obj(vec![("k", s("v"))]), &JsonValue::Int(3));
    assert!(json_eq(&m2, &JsonValue::Int(3)));
    let m3 = merge(&JsonValue::Null, &obj(vec![("k", s("v"))]));
    assert!(json_eq(&m3, &obj(vec![("k", s("v"))])));
}
