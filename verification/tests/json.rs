use maelstrom::json::{Json, JsonNumber};

fn s(text: &str) -> String {
    text.to_string()
}

fn obj(fields: Vec<(&str, Json)>) -> Json {
    Json::Object(fields.into_iter().map(|(k, v)| (s(k), v)).collect())
}

fn num(n: u64) -> Json {
    Json::Number(JsonNumber::PosInt(n))
}

#[test]
fn get_reads_the_first_field_of_a_name() {
    let j = obj(vec![("a", num(1)), ("b", num(2)), ("a", num(3))]);
    assert_eq!(j.get("a"), Some(&num(1)));
    assert_eq!(j.get("b"), Some(&num(2)));
    assert_eq!(j.get("c"), None);
    assert_eq!(num(1).get("a"), None);
}

#[test]
fn insert_replaces_in_place_or_appends() {
    let mut j = obj(vec![("a", num(1)), ("b", num(2))]);
    j.insert(s("a"), num(9));
    assert_eq!(j, obj(vec![("a", num(9)), ("b", num(2))]));
    j.insert(s("c"), Json::Null);
    assert_eq!(j, obj(vec![("a", num(9)), ("b", num(2)), ("c", Json::Null)]));
    assert_eq!(j.get("c"), Some(&Json::Null));
}

#[test]
fn insert_leaves_non_objects_alone() {
    let mut j = Json::Array(vec![num(1)]);
    j.insert(s("a"), num(2));
    assert_eq!(j, Json::Array(vec![num(1)]));
}

#[test]
fn deep_copy_is_equal() {
    let j = obj(vec![
        ("a", Json::Array(vec![num(1), Json::Bool(true), Json::Str(s("x"))])),
        ("b", obj(vec![("c", Json::Number(JsonNumber::Float(s("0.5"))))])),
    ]);
    assert_eq!(j.deep_copy(), j);
    assert_eq!(j.clone(), j);
}

#[test]
fn accessors() {
    assert!(Json::Null.is_null());
    assert!(!num(0).is_null());
    assert_eq!(Json::Str(s("x")).as_str(), Some(&s("x")));
    assert_eq!(num(1).as_str(), None);
    assert_eq!(Json::Array(vec![]).as_array(), Some(&vec![]));
    assert_eq!(Json::Null.as_array(), None);
}
