use tidas_tools::ecospold::{
    EcoSpoldVersion, datasets, ecospold_flow_entity, exchange_nodes, exchange_value, uncertainty_type,
};
use tidas_tools::json::JsonValue;
use tidas_tools::writers::stable_id;
use tidas_tools::xml::XmlNode;

fn member<'a>(value: &'a JsonValue, key: &str) -> Option<&'a JsonValue> {
    match value {
        JsonValue::Object(members) => members.iter().find(|(k, _)| k == key).map(|(_, v)| v),
        _ => None,
    }
}

fn text_of(value: Option<&JsonValue>) -> Option<&str> {
    match value {
        Some(JsonValue::String(s)) => Some(s.as_str()),
        _ => None,
    }
}

#[test]
fn ecospold1_exchanges_describe_elementary_flows() {
    let element = XmlNode::parse(
        br#"<exchange number="3" name="Carbon dioxide" category="air" subCategory="low population density" unit="kg" CASNumber="000124-38-9" formula="CO2" localName=" n/a "/>"#,
    )
    .unwrap();
    let flow = ecospold_flow_entity(&element, 2, EcoSpoldVersion::One, JsonValue::Null);
    assert_eq!(flow.entity_type, "flows");
    assert_eq!(flow.name.as_deref(), Some("Carbon dioxide"));
    assert_eq!(flow.external_id, None);
    assert_eq!(
        flow.internal_id,
        stable_id("ecospold1/flow/ELEMENTARY_FLOW/Carbon dioxide/000124-38-9/CO2/air/kg")
    );
    assert_eq!(flow.category_path, vec!["air".to_owned(), "low population density".to_owned()]);
    assert_eq!(text_of(member(&flow.raw, "flowType")), Some("ELEMENTARY_FLOW"));
    assert_eq!(text_of(member(&flow.raw, "unitName")), Some("kg"));
    assert_eq!(text_of(member(&flow.raw, "CASNumber")), Some("000124-38-9"));
    assert_eq!(text_of(member(&flow.raw, "sumFormula")), Some("CO2"));
    assert!(member(&flow.raw, "synonyms").is_none());
    let trace = member(&flow.raw, "sourceTrace").unwrap();
    assert_eq!(text_of(member(trace, "format")), Some("ecospold1"));
    assert_eq!(text_of(member(trace, "sourceObject")), Some("exchange"));
    assert!(matches!(member(member(trace, "sourceIdentifiers").unwrap(), "id"), Some(JsonValue::Null)));
}

#[test]
fn ecospold2_exchanges_keep_declared_ids_and_child_names() {
    let element = XmlNode::parse(
        br#"<intermediateExchange id="11111111-1111-4111-8111-111111111111" unitId="u1"><name>Steel</name><unitName>kg</unitName><classification classificationId="c1"><classificationSystem> CPC </classificationSystem><classificationValue>412</classificationValue></classification></intermediateExchange>"#,
    )
    .unwrap();
    let flow = ecospold_flow_entity(&element, 0, EcoSpoldVersion::Two, JsonValue::Null);
    assert_eq!(flow.internal_id, "11111111-1111-4111-8111-111111111111");
    assert_eq!(flow.external_id.as_deref(), Some("11111111-1111-4111-8111-111111111111"));
    assert_eq!(flow.name.as_deref(), Some("Steel"));
    assert_eq!(text_of(member(&flow.raw, "flowType")), Some("PRODUCT_FLOW"));
    assert_eq!(text_of(member(&flow.raw, "unitName")), Some("kg"));
    let classification = member(&flow.raw, "sourceClassification").unwrap();
    match member(classification, "classifications") {
        Some(JsonValue::Array(items)) => {
            assert_eq!(items.len(), 1);
            assert_eq!(text_of(member(&items[0], "classificationId")), Some("c1"));
            match member(&items[0], "classificationSystem") {
                Some(JsonValue::Array(values)) => assert_eq!(text_of(values.first()), Some("CPC")),
                other => panic!("unexpected systems: {other:?}"),
            }
        }
        other => panic!("unexpected classifications: {other:?}"),
    }
    let unnamed = XmlNode::parse(br#"<exchange/>"#).unwrap();
    let flow = ecospold_flow_entity(&unnamed, 4, EcoSpoldVersion::Two, JsonValue::Null);
    assert_eq!(flow.name.as_deref(), Some("ecospold2 exchange 5"));
}

fn entry<'a>(m: &'a tidas_tools::table::TextMap<JsonValue>, key: &str) -> Option<&'a str> {
    match m.get(key) {
        Some(JsonValue::String(s)) => Some(s.as_str()),
        _ => None,
    }
}

#[test]
fn uncertainty_types_follow_the_version() {
    let one = XmlNode::parse(br#"<exchange uncertaintyType=" 1 "/>"#).unwrap();
    assert_eq!(uncertainty_type(&one, EcoSpoldVersion::One), Some("log-normal"));
    let named = XmlNode::parse(br#"<exchange uncertaintyType="Triangular"/>"#).unwrap();
    assert_eq!(uncertainty_type(&named, EcoSpoldVersion::One), Some("triangular"));
    let unknown = XmlNode::parse(br#"<exchange uncertaintyType="7"/>"#).unwrap();
    assert_eq!(uncertainty_type(&unknown, EcoSpoldVersion::One), None);
    let two = XmlNode::parse(br#"<exchange><uncertainty><pedigreeMatrix/><normal/></uncertainty></exchange>"#).unwrap();
    assert_eq!(uncertainty_type(&two, EcoSpoldVersion::Two), Some("normal"));
    assert_eq!(uncertainty_type(&two, EcoSpoldVersion::One), None);
}

#[test]
fn ecospold_exchanges_keep_amounts_limits_and_comments() {
    let element = XmlNode::parse(
        br#"<exchange number="3" name="Coal" category="resource/in ground" meanValue="2.5" minValue="1" minAmount="0.5" maxValue="n/a" unit="kg" isCalculatedAmount="TRUE" uncertaintyType="2" generalComment=" mined "/>"#,
    )
    .unwrap();
    let flow = ecospold_flow_entity(&element, 0, EcoSpoldVersion::One, JsonValue::Null);
    let x = exchange_value(&element, &flow, 0, EcoSpoldVersion::One, JsonValue::Null);
    assert!(matches!(x.get("internalId"), Some(JsonValue::Number(n)) if n == "1"));
    assert!(matches!(x.get("isInput"), Some(JsonValue::Bool(true))));
    assert_eq!(entry(&x, "flowRefId"), Some(flow.internal_id.as_str()));
    assert_eq!(entry(&x, "flowName"), Some("Coal"));
    assert_eq!(entry(&x, "amount"), Some("2.5"));
    assert_eq!(entry(&x, "unitName"), Some("kg"));
    assert_eq!(entry(&x, "sourceFormat"), Some("ecospold1"));
    assert_eq!(entry(&x, "minimumAmount"), Some("1"));
    assert!(x.get("maximumAmount").is_none());
    assert_eq!(entry(&x, "sourceExchangeNumber"), Some("3"));
    assert_eq!(entry(&x, "dataDerivationTypeStatus"), Some("Calculated"));
    assert_eq!(entry(&x, "uncertaintyDistributionType"), Some("normal"));
    assert_eq!(entry(&x, "generalComment"), Some("mined"));
    let trace = x.get("sourceTrace").unwrap();
    assert_eq!(text_of(member(trace, "sourceObject")), Some("exchange"));
}

#[test]
fn ecospold2_exchanges_take_ids_and_nested_comments() {
    let element = XmlNode::parse(
        br#"<intermediateExchange intermediateExchangeId="abc" amount="4"><outputGroup>0</outputGroup><comment><text> made here </text></comment></intermediateExchange>"#,
    )
    .unwrap();
    let flow = ecospold_flow_entity(&element, 4, EcoSpoldVersion::Two, JsonValue::Null);
    let x = exchange_value(&element, &flow, 4, EcoSpoldVersion::Two, JsonValue::Null);
    assert!(matches!(x.get("internalId"), Some(JsonValue::Number(n)) if n == "5"));
    assert!(matches!(x.get("isInput"), Some(JsonValue::Bool(false))));
    assert_eq!(entry(&x, "amount"), Some("4"));
    assert_eq!(entry(&x, "sourceExchangeId"), Some("abc"));
    assert_eq!(entry(&x, "generalComment"), Some("made here"));
    assert!(x.get("unitName").is_none());
    assert_eq!(entry(&x, "flowName"), Some("ecospold2 exchange 5"));
}

#[test]
fn datasets_and_exchange_elements_are_found_by_version() {
    let one = XmlNode::parse(
        br#"<ecoSpold><dataset number="1"><flowData><exchange number="1"/><exchange number="2"/></flowData></dataset></ecoSpold>"#,
    )
    .unwrap();
    let found = datasets(&one, EcoSpoldVersion::One);
    assert_eq!(found.len(), 1);
    assert_eq!(found[0].name, "dataset");
    assert_eq!(exchange_nodes(found[0], EcoSpoldVersion::One).len(), 2);
    assert!(datasets(&one, EcoSpoldVersion::Two).is_empty());
    let two = XmlNode::parse(
        br#"<activityDataset><flowData><elementaryExchange id="e"/><intermediateExchange id="i"/></flowData></activityDataset>"#,
    )
    .unwrap();
    let found = datasets(&two, EcoSpoldVersion::Two);
    assert_eq!(found.len(), 1);
    let exchanges = exchange_nodes(found[0], EcoSpoldVersion::Two);
    assert_eq!(exchanges.len(), 2);
    assert_eq!(exchanges[0].name, "intermediateExchange");
    assert_eq!(exchanges[1].name, "elementaryExchange");
}
