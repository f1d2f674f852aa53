use tidas_tools::json::JsonValue;
use tidas_tools::process_writer::{exchange_item, functional_unit, percentage};
use tidas_tools::table::TextMap;
use tidas_tools::writers::{ProcessWriteError, contact, contact_id, sources};

fn text(value: &str) -> JsonValue {
    JsonValue::String(value.to_owned())
}

fn object(members: Vec<(&str, JsonValue)>) -> JsonValue {
    JsonValue::Object(members.into_iter().map(|(k, v)| (k.to_owned(), v)).collect())
}

fn member<'a>(value: &'a JsonValue, key: &str) -> Option<&'a JsonValue> {
    match value {
        JsonValue::Object(members) => members.iter().find(|(k, _)| k == key).map(|(_, v)| v),
        _ => None,
    }
}

fn text_of(value: Option<&JsonValue>) -> Option<&str> {
    match value {
        Some(JsonValue::String(s)) => Some(s.as_str()),
        _ => None,
    }
}

fn exchange(members: Vec<(&str, JsonValue)>) -> TextMap<JsonValue> {
    let mut map = TextMap::new();
    for (k, v) in members {
        map.insert(k.to_owned(), v);
    }
    map
}

#[test]
fn functional_units_read_amount_unit_and_flow() {
    let x = exchange(vec![("amount", text("2.5")), ("unitName", text("kg")), ("flowName", text("steel"))]);
    assert_eq!(functional_unit(&x), "2.5 kg steel");
    assert_eq!(functional_unit(&exchange(vec![])), "0 unit flow");
}

#[test]
fn percentages_keep_at_most_five_digits_and_three_decimals() {
    assert_eq!(percentage(&text(" 12.500 ")), Some("12.5".to_owned()));
    assert_eq!(percentage(&text("10.00")), Some("10".to_owned()));
    assert_eq!(percentage(&JsonValue::Number("1.234".to_owned())), Some("1.234".to_owned()));
    assert_eq!(percentage(&text("-3.5")), Some("-3.5".to_owned()));
    assert_eq!(percentage(&text("1.2345")), None);
    assert_eq!(percentage(&text("123456")), None);
    assert_eq!(percentage(&text("12.3.4")), None);
    assert_eq!(percentage(&text("abc")), None);
    assert_eq!(percentage(&text("")), None);
    assert_eq!(percentage(&JsonValue::Bool(true)), None);
}

#[test]
fn exchange_items_carry_flow_direction_amounts_and_details() {
    let x = exchange(vec![
        ("flowRefId", text("f1")),
        ("flowName", text("Steel")),
        ("amount", text("3")),
        ("isInput", JsonValue::Bool(true)),
        ("minimumAmount", text("1")),
        ("relativeStandardDeviation95In", text("5.0")),
        ("dataDerivationTypeStatus", text("Guessed")),
        ("sourceExchangeNumber", text("7")),
        ("generalComment", text("  from the plant  ")),
        (
            "allocations",
            JsonValue::Array(vec![
                object(vec![("internalReferenceToCoProduct", text("2")), ("allocatedFraction", text("40"))]),
                object(vec![("allocatedFraction", text("60"))]),
            ]),
        ),
    ]);
    let item = exchange_item(&x, "4").unwrap();
    assert_eq!(text_of(member(&item, "@dataSetInternalID")), Some("4"));
    assert_eq!(text_of(member(&item, "exchangeDirection")), Some("Input"));
    assert_eq!(text_of(member(&item, "meanAmount")), Some("3"));
    assert_eq!(text_of(member(&item, "resultingAmount")), Some("3"));
    assert_eq!(text_of(member(&item, "minimumAmount")), Some("1"));
    assert!(member(&item, "maximumAmount").is_none());
    assert_eq!(text_of(member(&item, "relativeStandardDeviation95In")), Some("5"));
    assert_eq!(text_of(member(&item, "dataDerivationTypeStatus")), Some("Unknown derivation"));
    let comment = member(&item, "generalComment").unwrap();
    assert_eq!(text_of(member(comment, "#text")), Some("Source EcoSpold1 exchange number: 7. from the plant"));
    let reference = member(&item, "referenceToFlowDataSet").unwrap();
    assert_eq!(text_of(member(reference, "@refObjectId")), Some("f1"));
    assert_eq!(text_of(member(reference, "@uri")), Some("../flows/f1.json"));
    match member(member(&item, "allocations").unwrap(), "allocation") {
        Some(JsonValue::Array(items)) => {
            assert_eq!(items.len(), 1);
            assert_eq!(text_of(member(&items[0], "@allocatedFraction")), Some("40"));
        }
        _ => panic!("allocations are listed"),
    }
    let keys: Vec<&str> = match &item {
        JsonValue::Object(members) => members.iter().map(|(k, _)| k.as_str()).collect(),
        _ => Vec::new(),
    };
    let mut sorted = keys.clone();
    sorted.sort();
    assert_eq!(keys, sorted);
}

#[test]
fn exchanges_without_a_flow_are_refused_and_defaults_apply() {
    assert!(matches!(
        exchange_item(&exchange(vec![("amount", text("1"))]), "9"),
        Err(ProcessWriteError::MissingFlowReference(id)) if id == "9"
    ));
    let item = exchange_item(&exchange(vec![("flowRefId", text("f"))]), "1").unwrap();
    assert_eq!(text_of(member(&item, "exchangeDirection")), Some("Output"));
    assert_eq!(text_of(member(&item, "meanAmount")), Some("0"));
    let comment = member(&item, "generalComment").unwrap();
    assert_eq!(text_of(member(comment, "#text")), Some("Source exchange internal id: 1."));
    assert!(member(&item, "allocations").is_none());
}

#[test]
fn the_tooling_contact_and_sources_are_described() {
    let (id, value) = contact();
    assert_eq!(id, contact_id());
    let dataset = member(&value, "contactDataSet").unwrap();
    assert_eq!(text_of(member(dataset, "@xmlns")), Some("http://lca.jrc.it/ILCD/Contact"));
    let info = member(member(dataset, "contactInformation").unwrap(), "dataSetInformation").unwrap();
    assert_eq!(text_of(member(info, "common:UUID")), Some(id.as_str()));
    let [format, compliance] = sources();
    let dataset = member(&format.1, "sourceDataSet").unwrap();
    assert_eq!(
        text_of(member(dataset, "@xsi:schemaLocation")),
        Some("http://lca.jrc.it/ILCD/Source ../../schemas/ILCD_SourceDataSet.xsd")
    );
    let info = member(member(dataset, "sourceInformation").unwrap(), "dataSetInformation").unwrap();
    let class = member(member(member(info, "classificationInformation").unwrap(), "common:classification").unwrap(), "common:class").unwrap();
    assert_eq!(text_of(member(class, "@classId")), Some("1"));
    assert_ne!(format.0, compliance.0);
}
