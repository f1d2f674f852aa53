use tidas_tools::ilcd::{ilcd_entity, process_exchanges};
use tidas_tools::json::JsonValue;
use tidas_tools::writers::stable_id;

const FLOW_ID: &str = "44444444-4444-4444-8444-444444444444";
const PROPERTY_ID: &str = "33333333-3333-4333-8333-333333333333";
const NCV_PROPERTY_ID: &str = "88888888-8888-4888-8888-888888888888";
const PROCESS_ID: &str = "55555555-5555-4555-8555-555555555555";

fn text(value: &str) -> JsonValue {
    JsonValue::String(value.to_owned())
}

fn localized(value: &str) -> JsonValue {
    object(vec![("@xml:lang", text("en")), ("#text", text(value))])
}

fn object(members: Vec<(&str, JsonValue)>) -> JsonValue {
    JsonValue::Object(members.into_iter().map(|(k, v)| (k.to_owned(), v)).collect())
}

fn member<'a>(value: &'a JsonValue, key: &str) -> Option<&'a JsonValue> {
    match value {
        JsonValue::Object(members) => members.iter().find(|(k, _)| k == key).map(|(_, v)| v),
        _ => None,
    }
}

fn text_of(value: Option<&JsonValue>) -> Option<&str> {
    match value {
        Some(JsonValue::String(s)) => Some(s.as_str()),
        _ => None,
    }
}

fn flow_document() -> JsonValue {
    let property = |internal: &str, id: &str, name: &str, mean: &str| {
        object(vec![
            ("@dataSetInternalID", text(internal)),
            (
                "referenceToFlowPropertyDataSet",
                object(vec![("@refObjectId", text(id)), ("common:shortDescription", localized(name))]),
            ),
            ("meanValue", text(mean)),
        ])
    };
    object(vec![(
        "flowDataSet",
        object(vec![
            (
                "flowInformation",
                object(vec![
                    (
                        "dataSetInformation",
                        object(vec![
                            ("common:UUID", text(FLOW_ID)),
                            (
                                "name",
                                object(vec![
                                    ("baseName", localized("Steel")),
                                    ("treatmentStandardsRoutes", localized("production route")),
                                    ("mixAndLocationTypes", localized("GLO")),
                                ]),
                            ),
                            ("CASNumber", text("7439-89-6")),
                            ("sumFormula", text("Fe")),
                        ]),
                    ),
                    ("quantitativeReference", object(vec![("referenceToReferenceFlowProperty", text("0"))])),
                ]),
            ),
            (
                "modellingAndValidation",
                object(vec![("LCIMethod", object(vec![("typeOfDataSet", text("Product flow"))]))]),
            ),
            (
                "administrativeInformation",
                object(vec![(
                    "publicationAndOwnership",
                    object(vec![("common:dataSetVersion", text("20.25.001"))]),
                )]),
            ),
            (
                "flowProperties",
                object(vec![(
                    "flowProperty",
                    JsonValue::Array(vec![
                        property("0", PROPERTY_ID, "Mass", "1"),
                        property("1", NCV_PROPERTY_ID, "Net calorific value", "42.500"),
                    ]),
                )]),
            ),
        ]),
    )])
}

fn process_dataset() -> JsonValue {
    object(vec![
        (
            "processInformation",
            object(vec![
                (
                    "dataSetInformation",
                    object(vec![
                        ("common:UUID", text(PROCESS_ID)),
                        ("name", object(vec![("baseName", localized("Steel process"))])),
                    ]),
                ),
                ("quantitativeReference", object(vec![("referenceToReferenceFlow", text("1"))])),
                ("time", object(vec![("common:referenceYear", text("2022"))])),
                (
                    "geography",
                    object(vec![("locationOfOperationSupplyOrProduction", object(vec![("@location", text("GLO"))]))]),
                ),
            ]),
        ),
        (
            "exchanges",
            object(vec![(
                "exchange",
                object(vec![
                    ("@dataSetInternalID", text("1")),
                    (
                        "referenceToFlowDataSet",
                        object(vec![("@refObjectId", text(FLOW_ID)), ("common:shortDescription", localized("Steel"))]),
                    ),
                    ("exchangeDirection", text("Output")),
                    ("meanAmount", text("1")),
                    ("relativeStandardDeviation95In", text("12.3")),
                    ("dataDerivationTypeStatus", text("Calculated")),
                    ("generalComment", localized("measured batch")),
                ]),
            )]),
        ),
    ])
}

#[test]
fn ilcd_flows_keep_identifiers_properties_and_version() {
    let entity = ilcd_entity(&flow_document(), "flows/f.xml").unwrap();
    assert_eq!(entity.entity_type, "flows");
    assert_eq!(entity.internal_id, FLOW_ID);
    assert_eq!(entity.external_id.as_deref(), Some(FLOW_ID));
    assert_eq!(entity.name.as_deref(), Some("Steel"));
    assert_eq!(text_of(member(&entity.raw, "flowPropertyRefId")), Some(PROPERTY_ID));
    assert_eq!(text_of(member(&entity.raw, "flowPropertyName")), Some("Mass"));
    assert_eq!(text_of(member(&entity.raw, "version")), Some("20.25.001"));
    assert_eq!(text_of(member(&entity.raw, "CASNumber")), Some("7439-89-6"));
    assert_eq!(text_of(member(&entity.raw, "sumFormula")), Some("Fe"));
    assert_eq!(text_of(member(&entity.raw, "flowType")), Some("PRODUCT_FLOW"));
    let name = member(&entity.raw, "flowName").unwrap();
    assert_eq!(text_of(member(name, "treatmentStandardsRoutes")), Some("production route"));
    assert_eq!(text_of(member(name, "mixAndLocationTypes")), Some("GLO"));
    let properties = match member(&entity.raw, "flowProperties") {
        Some(JsonValue::Array(items)) => items,
        other => panic!("unexpected flow properties: {other:?}"),
    };
    assert_eq!(properties.len(), 2);
    let first = member(&properties[0], "flowProperty").unwrap();
    let second = member(&properties[1], "flowProperty").unwrap();
    assert_eq!(text_of(member(first, "@id")), Some(PROPERTY_ID));
    assert_eq!(text_of(member(second, "@id")), Some(NCV_PROPERTY_ID));
    assert_eq!(text_of(member(&properties[1], "conversionFactor")), Some("42.500"));
    assert!(matches!(member(&properties[0], "isRefFlowProperty"), Some(JsonValue::Bool(true))));
    assert!(matches!(member(&properties[1], "isRefFlowProperty"), Some(JsonValue::Bool(false))));
    let evidence = member(&properties[1], "sourceEvidence").unwrap();
    assert_eq!(text_of(member(evidence, "sourcePath")), Some("flowProperties.flowProperty[1]"));
    let trace = member(&entity.raw, "sourceTrace").unwrap();
    assert_eq!(text_of(member(trace, "format")), Some("ilcd"));
    assert_eq!(text_of(member(trace, "sourceObject")), Some("flowDataSet"));
    assert_eq!(text_of(member(trace, "file")), Some("flows/f.xml"));
}

#[test]
fn ilcd_processes_keep_year_location_and_reference_exchange() {
    let document = object(vec![("processDataSet", process_dataset())]);
    let entity = ilcd_entity(&document, "processes/x.xml").unwrap();
    assert_eq!(entity.entity_type, "processes");
    assert_eq!(entity.internal_id, PROCESS_ID);
    assert_eq!(entity.name.as_deref(), Some("Steel process"));
    assert!(matches!(member(&entity.raw, "referenceYear"), Some(JsonValue::Number(n)) if n == "2022"));
    assert_eq!(text_of(member(&entity.raw, "location")), Some("GLO"));
    assert_eq!(text_of(member(&entity.raw, "description")), Some("Imported from ILCD."));
    let exchanges = process_exchanges(&process_dataset());
    assert_eq!(exchanges.len(), 1);
    let exchange = &exchanges[0];
    assert!(matches!(exchange.get("isQuantitativeReference"), Some(JsonValue::Bool(true))));
    assert!(matches!(exchange.get("isInput"), Some(JsonValue::Bool(false))));
    assert_eq!(text_of(exchange.get("dataDerivationTypeStatus")), Some("Calculated"));
    assert_eq!(text_of(exchange.get("generalComment")), Some("measured batch"));
    assert_eq!(text_of(exchange.get("flowRefId")), Some(FLOW_ID));
    assert_eq!(text_of(exchange.get("amount")), Some("1"));
}

#[test]
fn ilcd_ids_that_are_not_uuids_are_derived_from_the_label() {
    let document = object(vec![(
        "contactDataSet",
        object(vec![(
            "contactInformation",
            object(vec![(
                "dataSetInformation",
                object(vec![
                    ("common:UUID", text("not-a-uuid")),
                    ("common:shortName", localized("Steel team")),
                    ("email", text("team@example.org")),
                    ("WWWAddress", text("https://example.org")),
                ]),
            )]),
        )]),
    )]);
    let entity = ilcd_entity(&document, "contacts/c.xml").unwrap();
    assert_eq!(entity.entity_type, "contacts");
    assert_eq!(entity.internal_id, stable_id("ilcd/contacts/contacts/c.xml"));
    assert_eq!(entity.name.as_deref(), Some("Steel team"));
    assert_eq!(text_of(member(&entity.raw, "email")), Some("team@example.org"));
    assert_eq!(text_of(member(&entity.raw, "website")), Some("https://example.org"));
    assert_eq!(text_of(member(&entity.raw, "shortName")), Some("Steel team"));
}

#[test]
fn ilcd_sources_split_web_links_from_digital_files() {
    let document = object(vec![(
        "sourceDataSet",
        object(vec![(
            "sourceInformation",
            object(vec![(
                "dataSetInformation",
                object(vec![
                    ("common:UUID", text("77777777-7777-4777-8777-777777777777")),
                    ("common:shortName", localized("Steel source")),
                    ("sourceCitation", text("Citation")),
                    ("sourceDescriptionOrComment", localized("Description")),
                    (
                        "referenceToDigitalFile",
                        JsonValue::Array(vec![
                            object(vec![("@uri", text("../external_docs/steel.png"))]),
                            object(vec![("@uri", text("https://example.org/source"))]),
                        ]),
                    ),
                ]),
            )]),
        )]),
    )]);
    let entity = ilcd_entity(&document, "sources/source.xml").unwrap();
    assert_eq!(entity.entity_type, "sources");
    assert_eq!(text_of(member(&entity.raw, "url")), Some("https://example.org/source"));
    assert_eq!(text_of(member(&entity.raw, "sourceCitation")), Some("Citation"));
    assert_eq!(text_of(member(&entity.raw, "description")), Some("Description"));
    match member(&entity.raw, "referenceToDigitalFile") {
        Some(JsonValue::Array(files)) => {
            assert_eq!(files.len(), 1);
            assert_eq!(text_of(files.first()), Some("../external_docs/steel.png"));
        }
        other => panic!("unexpected digital files: {other:?}"),
    }
}

#[test]
fn ilcd_unknown_roots_are_not_entities() {
    let document = object(vec![("lciaMethodDataSet", object(vec![]))]);
    assert!(ilcd_entity(&document, "x.xml").is_none());
    assert!(ilcd_entity(&text("x"), "x.xml").is_none());
}
