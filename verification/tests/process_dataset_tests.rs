use tidas_tools::json::JsonValue;
use tidas_tools::model::CanonicalEntity;
use tidas_tools::process_dataset::process_base;
use tidas_tools::writers::{ProcessWriteError, contact_id, format_source_id};

fn text(value: &str) -> JsonValue {
    JsonValue::String(value.to_owned())
}

fn object(members: Vec<(&str, JsonValue)>) -> JsonValue {
    JsonValue::Object(members.into_iter().map(|(k, v)| (k.to_owned(), v)).collect())
}

fn member<'a>(value: &'a JsonValue, key: &str) -> Option<&'a JsonValue> {
    match value {
        JsonValue::Object(members) => members.iter().find(|(k, _)| k == key).map(|(_, v)| v),
        _ => None,
    }
}

fn at<'a>(value: &'a JsonValue, path: &[&str]) -> Option<&'a JsonValue> {
    let mut current = value;
    for key in path {
        current = member(current, key)?;
    }
    Some(current)
}

fn text_at<'a>(value: &'a JsonValue, path: &[&str]) -> Option<&'a str> {
    match at(value, path) {
        Some(JsonValue::String(s)) => Some(s.as_str()),
        _ => None,
    }
}

fn keys(value: &JsonValue) -> Vec<String> {
    match value {
        JsonValue::Object(members) => members.iter().map(|(k, _)| k.clone()).collect(),
        _ => Vec::new(),
    }
}

fn process(name: Option<&str>, raw: JsonValue) -> CanonicalEntity {
    CanonicalEntity {
        entity_type: "processes".to_owned(),
        internal_id: "55555555-5555-4555-8555-555555555555".to_owned(),
        external_id: None,
        name: name.map(ToOwned::to_owned),
        category_path: Vec::new(),
        raw,
    }
}

fn administrative() -> JsonValue {
    object(vec![
        ("dataEntryBy", object(vec![("common:timeStamp", text("1900-01-01T00:00:00Z"))])),
        ("publicationAndOwnership", object(vec![("common:dataSetVersion", text("01.00.000"))])),
    ])
}

#[test]
fn process_datasets_carry_rich_information() {
    let raw = object(vec![
        ("description", text("Steel making")),
        ("location", text("CH")),
        ("referenceYear", JsonValue::Number("2022".to_owned())),
        ("dataSetValidUntil", text("valid until 2030-12-31")),
        ("timeDescription", text("  annual average  ")),
        ("locationDescription", text("NULL")),
        ("technologyDescription", text("Electric arc furnace")),
        ("sourceProcessType", text("LCI_RESULT")),
        ("sourceDefaultAllocationMethod", text("CAUSAL_ALLOCATION")),
        ("productionVolume", text("1000 t")),
        ("samplingProcedure", text("none")),
        ("dataQualityIndicators", JsonValue::Array(vec![object(vec![("@name", text("Precision"))])])),
        ("sourceTrace", object(vec![("format", text("openlca"))])),
    ]);
    let written = process_base(&process(Some("Steel"), raw), "1", "1 kg steel", &administrative()).unwrap();
    let dataset = member(&written, "processDataSet").unwrap();
    assert_eq!(
        keys(dataset),
        vec![
            "@locations",
            "@version",
            "@xmlns",
            "@xmlns:common",
            "@xmlns:xsi",
            "@xsi:schemaLocation",
            "administrativeInformation",
            "modellingAndValidation",
            "processInformation",
        ]
    );
    let information = member(dataset, "processInformation").unwrap();
    assert_eq!(keys(information), vec!["dataSetInformation", "geography", "quantitativeReference", "technology", "time"]);
    assert_eq!(text_at(information, &["dataSetInformation", "common:generalComment", "#text"]), Some("Steel making"));
    assert_eq!(text_at(information, &["dataSetInformation", "name", "baseName", "#text"]), Some("Steel"));
    assert_eq!(text_at(information, &["dataSetInformation", "name", "mixAndLocationTypes", "#text"]), Some("CH"));
    assert!(at(information, &["dataSetInformation", "common:other"]).is_some());
    assert_eq!(text_at(information, &["geography", "locationOfOperationSupplyOrProduction", "@location"]), Some("CH"));
    assert!(at(information, &["geography", "locationOfOperationSupplyOrProduction", "descriptionOfRestrictions"]).is_none());
    assert_eq!(text_at(information, &["quantitativeReference", "referenceToReferenceFlow"]), Some("1"));
    assert_eq!(text_at(information, &["quantitativeReference", "functionalUnitOrOther", "#text"]), Some("1 kg steel"));
    assert!(matches!(at(information, &["time", "common:referenceYear"]), Some(JsonValue::Number(n)) if n == "2022"));
    assert!(matches!(at(information, &["time", "common:dataSetValidUntil"]), Some(JsonValue::Number(n)) if n == "2030"));
    assert_eq!(
        text_at(information, &["time", "common:timeRepresentativenessDescription", "#text"]),
        Some("annual average")
    );
    assert_eq!(
        text_at(information, &["technology", "technologyDescriptionAndIncludedProcesses", "#text"]),
        Some("Electric arc furnace")
    );
    let modelling = member(dataset, "modellingAndValidation").unwrap();
    assert_eq!(text_at(modelling, &["LCIMethodAndAllocation", "typeOfDataSet"]), Some("LCI result"));
    assert_eq!(
        text_at(modelling, &["LCIMethodAndAllocation", "LCIMethodApproaches"]),
        Some("Allocation - physical causality")
    );
    let sources = member(modelling, "dataSourcesTreatmentAndRepresentativeness").unwrap();
    assert_eq!(text_at(sources, &["annualSupplyOrProductionVolume", "#text"]), Some("1000 t/year"));
    assert_eq!(
        text_at(sources, &["dataCutOffAndCompletenessPrinciples", "#text"]),
        Some("Converted from external LCA package")
    );
    assert!(member(sources, "samplingProcedure").is_none());
    let format_id = format_source_id();
    assert_eq!(text_at(sources, &["referenceToDataSource", "@refObjectId"]), Some(format_id.as_str()));
    assert_eq!(text_at(modelling, &["validation", "review", "@type"]), Some("Not reviewed"));
    assert_eq!(
        text_at(modelling, &["validation", "review", "common:dataQualityIndicators", "common:dataQualityIndicator", "@name"]),
        Some("Precision")
    );
    let admin = member(dataset, "administrativeInformation").unwrap();
    let contact = contact_id();
    assert_eq!(
        text_at(admin, &["common:commissionerAndGoal", "common:referenceToCommissioner", "@refObjectId"]),
        Some(contact.as_str())
    );
    assert_eq!(text_at(admin, &["publicationAndOwnership", "common:dataSetVersion"]), Some("01.00.000"));
}

#[test]
fn process_datasets_fall_back_to_defaults() {
    let raw = object(vec![
        ("location", text("")),
        ("referenceYear", text("2022")),
        ("productionVolume", text("NA")),
        ("referenceUnitName", text("MJ")),
        ("dataQualityIndicators", JsonValue::Array(vec![])),
    ]);
    let written = process_base(&process(None, raw), "3", "unit", &administrative()).unwrap();
    let dataset = member(&written, "processDataSet").unwrap();
    let information = member(dataset, "processInformation").unwrap();
    assert_eq!(keys(information), vec!["dataSetInformation", "geography", "quantitativeReference", "time"]);
    assert_eq!(text_at(information, &["dataSetInformation", "name", "baseName", "#text"]), Some("Process"));
    assert_eq!(
        text_at(information, &["dataSetInformation", "common:generalComment", "#text"]),
        Some("Converted from external LCA package")
    );
    assert_eq!(text_at(information, &["geography", "locationOfOperationSupplyOrProduction", "@location"]), Some("GLO"));
    assert!(matches!(at(information, &["time", "common:referenceYear"]), Some(JsonValue::Number(n)) if n == "9999"));
    let modelling = member(dataset, "modellingAndValidation").unwrap();
    assert_eq!(text_at(modelling, &["LCIMethodAndAllocation", "typeOfDataSet"]), Some("Unit process, single operation"));
    assert_eq!(
        text_at(modelling, &["dataSourcesTreatmentAndRepresentativeness", "annualSupplyOrProductionVolume", "#text"]),
        Some("0 MJ/year; source production volume unavailable")
    );
    assert_eq!(keys(at(modelling, &["validation", "review"]).unwrap()), vec!["@type"]);
}

#[test]
fn process_datasets_need_entry_and_publication_blocks() {
    let entity = process(Some("Steel"), object(vec![]));
    let missing = object(vec![("dataEntryBy", object(vec![]))]);
    assert!(matches!(process_base(&entity, "1", "unit", &missing), Err(ProcessWriteError::AdministrativeShape)));
    assert!(matches!(process_base(&entity, "1", "unit", &text("x")), Err(ProcessWriteError::AdministrativeShape)));
}
