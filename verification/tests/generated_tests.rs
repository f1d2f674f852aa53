use tidas_tools::generated_units::generated_unit_entities;
use tidas_tools::json::JsonValue;
use tidas_tools::model::CanonicalEntity;
use tidas_tools::table::TextMap;
use tidas_tools::writers::{exchange_metadata, stable_id};

fn object(members: Vec<(&str, JsonValue)>) -> JsonValue {
    JsonValue::Object(members.into_iter().map(|(k, v)| (k.to_owned(), v)).collect())
}

fn text(value: &str) -> JsonValue {
    JsonValue::String(value.to_owned())
}

fn flow(raw: JsonValue) -> CanonicalEntity {
    CanonicalEntity {
        entity_type: "flows".to_owned(),
        internal_id: "f".to_owned(),
        external_id: None,
        name: Some("Water".to_owned()),
        category_path: Vec::new(),
        raw,
    }
}

fn member<'a>(value: &'a JsonValue, key: &str) -> Option<&'a JsonValue> {
    match value {
        JsonValue::Object(members) => members.iter().find(|(k, _)| k == key).map(|(_, v)| v),
        _ => None,
    }
}

#[test]
fn a_flow_with_only_a_unit_gets_a_unit_group_and_a_flow_property() {
    let entities = generated_unit_entities(&flow(object(vec![("unitName", text(" m3 "))])));
    assert_eq!(entities.len(), 2);
    let group = &entities[0];
    assert_eq!(group.entity_type, "unitgroups");
    assert_eq!(group.internal_id, stable_id("tidas-tools/import/unitgroup/m3"));
    assert_eq!(group.name.as_deref(), Some("Units of m3"));
    let units = member(&group.raw, "units").unwrap();
    match units {
        JsonValue::Array(items) => {
            assert_eq!(items.len(), 1);
            assert!(matches!(member(&items[0], "name"), Some(JsonValue::String(n)) if n == "m3"));
            assert!(matches!(member(&items[0], "conversionFactor"), Some(JsonValue::Number(n)) if n == "1.0"));
        }
        _ => panic!("units is an array"),
    }
    let property = &entities[1];
    assert_eq!(property.entity_type, "flowproperties");
    assert_eq!(property.internal_id, stable_id("tidas-tools/import/flowproperty/m3"));
    assert_eq!(property.name.as_deref(), Some("Amount in m3"));
    assert!(matches!(member(&property.raw, "unitGroupRefId"), Some(JsonValue::String(g)) if *g == group.internal_id));
    assert!(matches!(member(&property.raw, "unitGroupName"), Some(JsonValue::String(n)) if n == "Units of m3"));
}

#[test]
fn flows_with_a_property_or_no_unit_get_nothing() {
    assert!(generated_unit_entities(&flow(object(vec![("flowPropertyRefId", text("p")), ("unitName", text("kg"))]))).is_empty());
    assert!(generated_unit_entities(&flow(object(vec![("unitName", text("  "))]))).is_empty());
    assert!(generated_unit_entities(&flow(object(vec![]))).is_empty());
}

#[test]
fn exchange_metadata_keeps_listed_fields_in_order_and_the_source_trace() {
    let mut exchange: TextMap<JsonValue> = TextMap::new();
    exchange.insert("amount".to_owned(), JsonValue::Number("2".to_owned()));
    exchange.insert("unitName".to_owned(), text("kg"));
    exchange.insert("unitId".to_owned(), text("u1"));
    exchange.insert("sourceTrace".to_owned(), object(vec![("format", text("openlca"))]));
    let trace = exchange_metadata(&exchange);
    let source = member(&trace, "tidasimport:sourceTrace").unwrap();
    assert!(matches!(member(source, "@marker"), Some(JsonValue::String(m)) if m == "TIDAS_IMPORT_TRACE_V1"));
    let payload = member(source, "payload").unwrap();
    assert!(matches!(member(member(payload, "sourceTrace").unwrap(), "format"), Some(JsonValue::String(f)) if f == "openlca"));
    match member(payload, "exchangeMetadata").unwrap() {
        JsonValue::Object(members) => {
            let keys: Vec<&str> = members.iter().map(|(k, _)| k.as_str()).collect();
            assert_eq!(keys, vec!["unitId", "unitName"]);
            assert_eq!(members.len(), 2);
        }
        _ => panic!("metadata is an object"),
    }
    let empty: TextMap<JsonValue> = TextMap::new();
    let trace = exchange_metadata(&empty);
    let payload = member(member(&trace, "tidasimport:sourceTrace").unwrap(), "payload").unwrap();
    assert!(matches!(member(payload, "sourceTrace"), Some(JsonValue::Null)));
}
