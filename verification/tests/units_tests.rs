use tidas_tools::json::JsonValue;
use tidas_tools::model::CanonicalEntity;
use tidas_tools::table::TextMap;
use tidas_tools::units::{
    NormalizationOutcome, NormalizationStats, UnitIndexes, normalize_exchange,
};

const MASS_GROUP: &str = "11111111-1111-4111-8111-111111111111";
const ENERGY_GROUP: &str = "22222222-2222-4222-8222-222222222222";
const KG: &str = "33333333-3333-4333-8333-333333333333";
const GRAM: &str = "44444444-4444-4444-8444-444444444444";
const MJ: &str = "55555555-5555-4555-8555-555555555555";
const UNKNOWN: &str = "66666666-6666-4666-8666-666666666666";
const MASS_PROPERTY: &str = "77777777-7777-4777-8777-777777777777";
const ENERGY_PROPERTY: &str = "88888888-8888-4888-8888-888888888888";
const STEEL: &str = "99999999-9999-4999-8999-999999999999";
const FUEL: &str = "aaaaaaaa-aaaa-4aaa-8aaa-aaaaaaaaaaaa";
const PROCESS: &str = "bbbbbbbb-bbbb-4bbb-8bbb-bbbbbbbbbbbb";

fn text(value: &str) -> JsonValue {
    JsonValue::String(value.to_owned())
}

fn number(value: &str) -> JsonValue {
    JsonValue::Number(value.to_owned())
}

fn object(members: Vec<(&str, JsonValue)>) -> JsonValue {
    JsonValue::Object(
        members
            .into_iter()
            .map(|(key, value)| (key.to_owned(), value))
            .collect(),
    )
}

fn entity(kind: &str, id: &str, raw: Vec<(&str, JsonValue)>) -> CanonicalEntity {
    CanonicalEntity {
        entity_type: kind.to_owned(),
        internal_id: id.to_owned(),
        external_id: Some(id.to_owned()),
        name: Some(kind.to_owned()),
        category_path: Vec::new(),
        raw: object(raw),
    }
}

fn unit(id: &str, name: &str, factor: &str, reference: bool) -> JsonValue {
    let mut members = vec![("@id", text(id)), ("conversionFactor", number(factor)), ("name", text(name))];
    if reference {
        members.push(("referenceUnit", JsonValue::Bool(true)));
    }
    object(members)
}

fn flow(id: &str, properties: Vec<(&str, &str, &str, bool)>) -> CanonicalEntity {
    let entries = properties
        .into_iter()
        .map(|(property, name, factor, reference)| {
            object(vec![
                ("conversionFactor", text(factor)),
                ("flowProperty", object(vec![("@id", text(property)), ("name", text(name))])),
                ("isRefFlowProperty", JsonValue::Bool(reference)),
            ])
        })
        .collect();
    entity("flows", id, vec![("flowProperties", JsonValue::Array(entries))])
}

fn indexes() -> UnitIndexes {
    let mut indexes = UnitIndexes::new();
    indexes.add_unit_group(&entity(
        "unitgroups",
        MASS_GROUP,
        vec![("units", JsonValue::Array(vec![unit(KG, "kg", "1", true), unit(GRAM, "g", "0.001", false)]))],
    ));
    indexes.add_unit_group(&entity(
        "unitgroups",
        ENERGY_GROUP,
        vec![("units", JsonValue::Array(vec![unit(MJ, "MJ", "1", true)]))],
    ));
    indexes.add_property(&entity("flowproperties", MASS_PROPERTY, vec![("unitGroupRefId", text(MASS_GROUP))]));
    indexes.add_property(&entity("flowproperties", ENERGY_PROPERTY, vec![("unitGroupRefId", text(ENERGY_GROUP))]));
    indexes.add_flow(&flow(STEEL, vec![(MASS_PROPERTY, "Mass", "1", true)]));
    indexes.add_flow(&flow(
        FUEL,
        vec![(MASS_PROPERTY, "Mass", "1", true), (ENERGY_PROPERTY, "Energy", "50", false)],
    ));
    indexes
}

fn exchange(internal_id: u64, flow_id: &str, amount: &str, unit_id: &str, unit_name: &str, property_id: &str) -> TextMap<JsonValue> {
    let mut map = TextMap::new();
    map.insert("internalId".to_owned(), number(&internal_id.to_string()));
    map.insert("flowRefId".to_owned(), text(flow_id));
    map.insert("amount".to_owned(), text(amount));
    map.insert("unitId".to_owned(), text(unit_id));
    map.insert("unitName".to_owned(), text(unit_name));
    map.insert("flowPropertyRefId".to_owned(), text(property_id));
    map
}

fn fixture() -> Vec<TextMap<JsonValue>> {
    let mut exchanges = vec![
        exchange(1, STEEL, "1", KG, "kg", MASS_PROPERTY),
        exchange(2, STEEL, "500", GRAM, "g", MASS_PROPERTY),
        exchange(3, FUEL, "100", MJ, "MJ", ENERGY_PROPERTY),
        exchange(4, STEEL, "7", UNKNOWN, "bogus", MASS_PROPERTY),
    ];
    exchanges[1].insert("minimumAmount".to_owned(), number("400"));
    exchanges[1].insert("maximumAmount".to_owned(), number("600"));
    exchanges
}

fn text_at<'a>(map: &'a TextMap<JsonValue>, key: &str) -> &'a str {
    match map.get(key) {
        Some(JsonValue::String(s)) | Some(JsonValue::Number(s)) => s.as_str(),
        other => panic!("{key} is {other:?}"),
    }
}

fn note_at<'a>(map: &'a TextMap<JsonValue>, key: &str) -> &'a JsonValue {
    map.get("amountNormalization").unwrap().get(key).unwrap()
}

#[test]
fn frozen_python_unit_normalization_semantics_are_streamed() {
    let indexes = indexes();
    let mut exchanges = fixture();
    let before = fixture();
    let mut stats = NormalizationStats::new();
    for (values, original) in exchanges.iter_mut().zip(before.iter()) {
        let outcome = normalize_exchange(values, &indexes);
        stats.record(outcome, PROCESS, original);
    }
    let values = &exchanges;
    assert_eq!(text_at(&values[0], "amount"), "1");
    assert_eq!(text_at(&values[1], "amount"), "0.5");
    assert_eq!(text_at(&values[1], "minimumAmount"), "0.4");
    assert_eq!(text_at(&values[1], "maximumAmount"), "0.6");
    assert_eq!(text_at(&values[1], "sourceAmount"), "500");
    assert_eq!(text_at(&values[1], "sourceUnitId"), GRAM);
    assert_eq!(text_at(&values[1], "unitId"), KG);
    assert!(matches!(note_at(&values[1], "factor"), JsonValue::String(f) if f == "0.001"));
    assert!(matches!(note_at(&values[1], "crossProperty"), JsonValue::Bool(false)));
    assert_eq!(text_at(&values[2], "amount"), "2");
    assert_eq!(text_at(&values[2], "sourceUnitId"), MJ);
    assert_eq!(text_at(&values[2], "unitId"), KG);
    assert_eq!(text_at(&values[2], "flowPropertyRefId"), MASS_PROPERTY);
    assert_eq!(text_at(&values[2], "sourceFlowPropertyRefId"), ENERGY_PROPERTY);
    assert!(matches!(note_at(&values[2], "factor"), JsonValue::String(f) if f == "0.02"));
    assert!(matches!(note_at(&values[2], "crossProperty"), JsonValue::Bool(true)));
    assert_eq!(text_at(&values[3], "amount"), "7");
    assert!(values[3].get("amountNormalization").is_none());

    let issues = stats.issues();
    assert_eq!(issues.len(), 2);
    assert_eq!(issues[0].code, "exchange_amounts_normalized_to_reference_units");
    assert_eq!(issues[1].code, "exchange_unit_normalization_unresolved");
    assert_eq!(stats.scanned, 4);
    assert_eq!(stats.already_reference, 1);
    assert_eq!(stats.normalized_same_property, 1);
    assert_eq!(stats.normalized_cross_property, 1);
    assert_eq!(stats.unresolved.get("unknown_unit"), Some(&1));
    assert_eq!(stats.unresolved_samples.len(), 1);
    assert!(matches!(
        stats.unresolved_samples[0].get("unitId"),
        Some(JsonValue::String(u)) if u == UNKNOWN
    ));
}

#[test]
fn unresolved_reasons_follow_the_checks_in_order() {
    let indexes = indexes();
    let mut no_unit = TextMap::new();
    no_unit.insert("amount".to_owned(), text("1"));
    assert!(matches!(normalize_exchange(&mut no_unit, &indexes), NormalizationOutcome::NoUnitInfo));

    let mut wrong_group = exchange(1, STEEL, "1", MJ, "MJ", MASS_PROPERTY);
    assert!(matches!(
        normalize_exchange(&mut wrong_group, &indexes),
        NormalizationOutcome::Unresolved("unit_not_in_property_group")
    ));
    let mut no_flow = exchange(1, "missing", "1", GRAM, "g", MASS_PROPERTY);
    assert!(matches!(
        normalize_exchange(&mut no_flow, &indexes),
        NormalizationOutcome::Unresolved("missing_flow_factors")
    ));
    let mut not_a_number = exchange(1, STEEL, "many", GRAM, "g", MASS_PROPERTY);
    assert!(matches!(
        normalize_exchange(&mut not_a_number, &indexes),
        NormalizationOutcome::Unresolved("non_numeric_amount")
    ));
    assert_eq!(text_at(&not_a_number, "amount"), "many");
    assert!(not_a_number.get("sourceAmount").is_none());

    let mut inferred = exchange(1, STEEL, "2000", GRAM, "g", MASS_PROPERTY);
    inferred.remove("flowPropertyRefId");
    assert!(matches!(
        normalize_exchange(&mut inferred, &indexes),
        NormalizationOutcome::Normalized { cross_property: false }
    ));
    assert_eq!(text_at(&inferred, "amount"), "2");
    assert!(matches!(note_at(&inferred, "sourceUnit"), JsonValue::String(u) if u == "g"));
    assert!(matches!(note_at(&inferred, "amountFormulaNotRescaled"), JsonValue::Bool(false)));

    let stats = NormalizationStats::new();
    assert!(stats.issues().is_empty());
}

#[test]
fn amounts_beyond_the_decimal_limits_stay_unresolved() {
    let indexes = indexes();
    let mut huge = exchange(1, STEEL, "1E-2000000", GRAM, "g", MASS_PROPERTY);
    assert!(matches!(
        normalize_exchange(&mut huge, &indexes),
        NormalizationOutcome::Unresolved("decimal_out_of_range")
    ));
    assert_eq!(text_at(&huge, "amount"), "1E-2000000");
    assert!(huge.get("sourceAmount").is_none());
    let mut fine = exchange(1, STEEL, "1E-20", GRAM, "g", MASS_PROPERTY);
    assert!(matches!(
        normalize_exchange(&mut fine, &indexes),
        NormalizationOutcome::Normalized { cross_property: false }
    ));
}
