use tidas_tools::json::JsonValue;
use tidas_tools::roundtrip::{normalize, semantic_difference};

fn text(value: &str) -> JsonValue {
    JsonValue::String(value.to_owned())
}

fn object(members: Vec<(&str, JsonValue)>) -> JsonValue {
    JsonValue::Object(
        members
            .into_iter()
            .map(|(key, value)| (key.to_owned(), value))
            .collect(),
    )
}

fn shows(value: &JsonValue) -> String {
    format!("{value:?}")
}

#[test]
fn normal_form_collapses_empty_objects_singletons_and_scalars() {
    assert!(matches!(normalize(&object(Vec::new()), None), JsonValue::Null));
    assert!(matches!(
        normalize(&JsonValue::Array(vec![text("only")]), None),
        JsonValue::String(ref s) if s == "only"
    ));
    assert!(matches!(
        normalize(&JsonValue::Bool(true), None),
        JsonValue::String(ref s) if s == "true"
    ));
    assert!(matches!(
        normalize(&JsonValue::Number("1.50".to_owned()), None),
        JsonValue::String(ref s) if s == "1.50"
    ));
    let two = normalize(&JsonValue::Array(vec![JsonValue::Bool(false), JsonValue::Null]), None);
    assert_eq!(
        shows(&two),
        shows(&JsonValue::Array(vec![text("false"), JsonValue::Null]))
    );
}

#[test]
fn xml_uris_become_json_uris_only_under_the_uri_member() {
    let value = object(vec![
        ("@uri", text("../processes/a.xml")),
        ("other", text("b.xml")),
    ]);
    let normal = normalize(&value, None);
    assert_eq!(
        shows(&normal),
        shows(&object(vec![
            ("@uri", text("../processes/a.json")),
            ("other", text("b.xml")),
        ]))
    );
    assert!(matches!(
        normalize(&text("x.xml"), Some("@uri")),
        JsonValue::String(ref s) if s == "x.json"
    ));
}

#[test]
fn semantic_difference_reports_the_first_differing_location() {
    let source = object(vec![
        ("a", JsonValue::Array(vec![text("1"), text("2")])),
        ("b", JsonValue::Bool(true)),
    ]);
    let same = object(vec![
        ("a", JsonValue::Array(vec![JsonValue::Number("1".to_owned()), text("2")])),
        ("b", text("true")),
    ]);
    assert_eq!(semantic_difference(&source, &same), None);
    let changed = object(vec![
        ("a", JsonValue::Array(vec![text("1"), text("3")])),
        ("b", JsonValue::Bool(false)),
    ]);
    assert_eq!(semantic_difference(&source, &changed), Some("$/a/1".to_owned()));
    let fewer = object(vec![("a", JsonValue::Array(vec![text("1"), text("2")]))]);
    assert_eq!(semantic_difference(&source, &fewer), Some("$".to_owned()));
    let wrapped = object(vec![
        ("a", JsonValue::Array(vec![text("1"), text("2")])),
        ("b", JsonValue::Array(vec![JsonValue::Bool(true)])),
    ]);
    assert_eq!(semantic_difference(&source, &wrapped), None);
}
