use api_debugger::diff::diff_json;
use api_debugger::json::{copy_json, JsonNumber, JsonValue};

fn num(n: u64) -> JsonValue {
    JsonValue::Number(JsonNumber::PosInt(n))
}

fn text(s: &str) -> JsonValue {
    JsonValue::String(s.to_string())
}

fn obj(members: Vec<(&str, JsonValue)>) -> JsonValue {
    JsonValue::Object(members.into_iter().map(|(k, v)| (k.to_string(), v)).collect())
}

fn arr(items: Vec<JsonValue>) -> JsonValue {
    JsonValue::Array(items)
}

#[test]
fn identical_values() {
    let v = obj(vec![("a", num(1)), ("b", text("hello"))]);
    let result = diff_json(&v, &v);
    assert!(result.identical);
}

#[test]
fn detects_added_fields() {
    let old = obj(vec![("a", num(1))]);
    let new = obj(vec![("a", num(1)), ("b", num(2))]);
    let result = diff_json(&old, &new);
    assert!(!result.identical);
    assert_eq!(result.added.len(), 1);
    assert_eq!(result.added[0].path, "b");
}

#[test]
fn detects_removed_fields() {
    let old = obj(vec![("a", num(1)), ("b", num(2))]);
    let new = obj(vec![("a", num(1))]);
    let result = diff_json(&old, &new);
    assert_eq!(result.removed.len(), 1);
    assert_eq!(result.removed[0].path, "b");
}

#[test]
fn detects_changed_values() {
    let old = obj(vec![("a", num(1)), ("b", text("old"))]);
    let new = obj(vec![("a", num(1)), ("b", text("new"))]);
    let result = diff_json(&old, &new);
    assert_eq!(result.changed.len(), 1);
    assert_eq!(result.changed[0].path, "b");
    assert_eq!(result.changed[0].old_value, text("old"));
    assert_eq!(result.changed[0].new_value, text("new"));
}

#[test]
fn nested_objects() {
    let old = obj(vec![("user", obj(vec![("age", num(30)), ("name", text("Alice"))]))]);
    let new = obj(vec![(
        "user",
        obj(vec![("age", num(30)), ("email", text("bob@x.com")), ("name", text("Bob"))]),
    )]);
    let result = diff_json(&old, &new);
    assert_eq!(result.changed.len(), 1);
    assert_eq!(result.changed[0].path, "user.name");
    assert_eq!(result.added.len(), 1);
    assert_eq!(result.added[0].path, "user.email");
}

#[test]
fn array_diffs() {
    let old = arr(vec![num(1), num(2), num(3)]);
    let new = arr(vec![num(1), num(99), num(3), num(4)]);
    let result = diff_json(&old, &new);
    assert_eq!(result.changed.len(), 1); // [1] changed
    assert_eq!(result.added.len(), 1); // [3] added
}

#[test]
fn array_diff_paths_and_values() {
    let old = arr(vec![num(1), num(2), num(3)]);
    let new = arr(vec![num(1), num(99), num(3), num(4)]);
    let result = diff_json(&old, &new);
    assert_eq!(result.changed[0].path, "[1]");
    assert_eq!(result.changed[0].old_value, num(2));
    assert_eq!(result.changed[0].new_value, num(99));
    assert_eq!(result.added[0].path, "[3]");
    assert_eq!(result.added[0].value, num(4));
    assert!(result.removed.is_empty());
}

#[test]
fn shorter_array_reports_removed_elements() {
    let old = obj(vec![("items", arr(vec![text("x"), text("y"), text("z")]))]);
    let new = obj(vec![("items", arr(vec![text("x")]))]);
    let result = diff_json(&old, &new);
    assert_eq!(result.removed.len(), 2);
    assert_eq!(result.removed[0].path, "items[1]");
    assert_eq!(result.removed[0].value, text("y"));
    assert_eq!(result.removed[1].path, "items[2]");
    assert_eq!(result.removed[1].value, text("z"));
    assert!(result.added.is_empty());
    assert!(result.changed.is_empty());
}

#[test]
fn changed_root_scalar_is_reported_at_root() {
    let result = diff_json(&num(1), &num(2));
    assert!(!result.identical);
    assert_eq!(result.changed.len(), 1);
    assert_eq!(result.changed[0].path, "(root)");
}

#[test]
fn type_mismatch_is_a_change() {
    let old = obj(vec![("data", arr(vec![num(1)]))]);
    let new = obj(vec![("data", obj(vec![("x", num(1))]))]);
    let result = diff_json(&old, &new);
    assert_eq!(result.changed.len(), 1);
    assert_eq!(result.changed[0].path, "data");
    assert_eq!(result.changed[0].old_value, arr(vec![num(1)]));
    assert_eq!(result.changed[0].new_value, obj(vec![("x", num(1))]));
    assert!(result.added.is_empty());
    assert!(result.removed.is_empty());
}

#[test]
fn numbers_of_different_kinds_differ() {
    let old = JsonValue::Number(JsonNumber::PosInt(1));
    let new = JsonValue::Number(JsonNumber::Float(1.0f64.to_bits()));
    let result = diff_json(&old, &new);
    assert!(!result.identical);
    let neg = JsonValue::Number(JsonNumber::NegInt(-5));
    assert!(diff_json(&neg, &JsonValue::Number(JsonNumber::NegInt(-5))).identical);
}

#[test]
fn member_order_does_not_matter() {
    let old = obj(vec![("a", num(1)), ("b", num(2))]);
    let new = obj(vec![("b", num(2)), ("a", num(1))]);
    let result = diff_json(&old, &new);
    assert!(result.identical);
}

#[test]
fn added_and_removed_follow_member_order() {
    let old = obj(vec![("a", num(1)), ("c", num(3)), ("e", num(5))]);
    let new = obj(vec![("b", num(2)), ("d", JsonValue::Null), ("e", JsonValue::Bool(true))]);
    let result = diff_json(&old, &new);
    let added: Vec<&str> = result.added.iter().map(|e| e.path.as_str()).collect();
    let removed: Vec<&str> = result.removed.iter().map(|e| e.path.as_str()).collect();
    assert_eq!(added, vec!["b", "d"]);
    assert_eq!(removed, vec!["a", "c"]);
    assert_eq!(result.changed.len(), 1);
    assert_eq!(result.changed[0].path, "e");
    assert_eq!(result.removed[1].value, num(3));
}

#[test]
fn deep_nesting_builds_full_paths() {
    let old = obj(vec![("data", obj(vec![("users", arr(vec![obj(vec![("name", text("a"))])]))]))]);
    let new = obj(vec![("data", obj(vec![("users", arr(vec![obj(vec![("name", text("b"))])]))]))]);
    let result = diff_json(&old, &new);
    assert_eq!(result.changed.len(), 1);
    assert_eq!(result.changed[0].path, "data.users[0].name");
}

#[test]
fn identical_nested_documents() {
    let doc = obj(vec![
        ("list", arr(vec![num(1), obj(vec![("k", JsonValue::Null)])])),
        ("s", text("q\"uote")),
    ]);
    let copy = copy_json(&doc);
    assert_eq!(copy, doc);
    assert!(diff_json(&doc, &copy).identical);
}

#[test]
fn value_equality_is_structural() {
    assert_eq!(arr(vec![num(1), text("x")]), arr(vec![num(1), text("x")]));
    assert_ne!(arr(vec![num(1)]), arr(vec![num(1), num(1)]));
    assert_ne!(obj(vec![("a", num(1))]), obj(vec![("b", num(1))]));
    assert_ne!(text("a"), num(1));
}

#[test]
fn swapping_sides_swaps_added_and_removed() {
    let old = obj(vec![("a", num(1)), ("b", arr(vec![num(1), num(2)])), ("c", text("x"))]);
    let new = obj(vec![("a", num(2)), ("b", arr(vec![num(1)])), ("d", JsonValue::Null)]);
    let forward = diff_json(&old, &new);
    let backward = diff_json(&new, &old);
    let paths = |v: &Vec<api_debugger::diff::DiffEntry>| {
        let mut p: Vec<String> = v.iter().map(|e| e.path.clone()).collect();
        p.sort();
        p
    };
    assert_eq!(paths(&forward.added), paths(&backward.removed));
    assert_eq!(paths(&forward.removed), paths(&backward.added));
    assert_eq!(paths(&forward.removed), vec!["b[1]".to_string(), "c".to_string()]);
    assert_eq!(paths(&forward.added), vec!["d".to_string()]);
    assert_eq!(forward.changed.len(), 1);
    assert_eq!(backward.changed.len(), 1);
    assert_eq!(forward.changed[0].path, backward.changed[0].path);
    assert_eq!(forward.changed[0].old_value, backward.changed[0].new_value);
    assert_eq!(forward.changed[0].new_value, backward.changed[0].old_value);
}

#[test]
fn swapping_sides_permutes_the_changes() {
    let old = obj(vec![("a", num(1)), ("b", num(2)), ("c", num(5))]);
    let new = obj(vec![("b", num(3)), ("a", num(4)), ("e", num(6))]);
    let forward = diff_json(&old, &new);
    let backward = diff_json(&new, &old);
    let mut f: Vec<(String, JsonValue, JsonValue)> = forward
        .changed
        .iter()
        .map(|c| (c.path.clone(), copy_json(&c.new_value), copy_json(&c.old_value)))
        .collect();
    let mut b: Vec<(String, JsonValue, JsonValue)> = backward
        .changed
        .iter()
        .map(|c| (c.path.clone(), copy_json(&c.old_value), copy_json(&c.new_value)))
        .collect();
    assert_eq!(f.len(), 2);
    f.sort_by(|x, y| x.0.cmp(&y.0));
    b.sort_by(|x, y| x.0.cmp(&y.0));
    assert_eq!(f, b);
    assert_eq!(f[0], ("a".to_string(), num(4), num(1)));
    assert_eq!(forward.added.len(), 1);
    assert_eq!(backward.removed.len(), 1);
    assert_eq!(forward.added[0].path, backward.removed[0].path);
    assert_eq!(forward.added[0].value, backward.removed[0].value);
    assert_eq!(forward.removed[0].path, "c");
    assert_eq!(backward.added[0].path, "c");
}

#[test]
fn zeros_of_either_sign_are_equal_and_keep_their_sign() {
    let neg = JsonValue::Number(JsonNumber::Float((-0.0f64).to_bits()));
    let pos = JsonValue::Number(JsonNumber::Float(0.0f64.to_bits()));
    assert!(diff_json(&obj(vec![("z", copy_json(&neg))]), &obj(vec![("z", copy_json(&pos))])).identical);
    assert_eq!(neg, pos);
    let d = diff_json(&obj(vec![("z", copy_json(&neg))]), &obj(vec![("z", num(1))]));
    assert_eq!(d.changed.len(), 1);
    match &d.changed[0].old_value {
        JsonValue::Number(JsonNumber::Float(bits)) => assert_eq!(*bits, (-0.0f64).to_bits()),
        _ => panic!("old value is not a float"),
    }
}

#[test]
fn identical_in_both_directions() {
    let a = obj(vec![("k", arr(vec![num(1), text("t")])), ("z", JsonValue::Bool(false))]);
    let b = obj(vec![("z", JsonValue::Bool(false)), ("k", arr(vec![num(1), text("t")]))]);
    assert!(diff_json(&a, &b).identical);
    assert!(diff_json(&b, &a).identical);
    let c = obj(vec![("k", arr(vec![num(1)])), ("z", JsonValue::Bool(false))]);
    assert!(!diff_json(&a, &c).identical);
    assert!(!diff_json(&c, &a).identical);
}
