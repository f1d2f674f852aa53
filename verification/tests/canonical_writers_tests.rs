use tidas_tools::json::JsonValue;
use tidas_tools::model::CanonicalEntity;
use tidas_tools::writers::{canonical_contact, canonical_source, flow_property, stable_id};

fn text(value: &str) -> JsonValue {
    JsonValue::String(value.to_owned())
}

fn object(members: Vec<(&str, JsonValue)>) -> JsonValue {
    JsonValue::Object(members.into_iter().map(|(k, v)| (k.to_owned(), v)).collect())
}

fn member<'a>(value: &'a JsonValue, key: &str) -> Option<&'a JsonValue> {
    match value {
        JsonValue::Object(members) => members.iter().find(|(k, _)| k == key).map(|(_, v)| v),
        _ => None,
    }
}

fn keys(value: &JsonValue) -> Vec<String> {
    match value {
        JsonValue::Object(members) => members.iter().map(|(k, _)| k.clone()).collect(),
        _ => Vec::new(),
    }
}

fn text_of(value: Option<&JsonValue>) -> Option<&str> {
    match value {
        Some(JsonValue::String(s)) => Some(s.as_str()),
        _ => None,
    }
}

fn entity(kind: &str, name: Option<&str>, raw: JsonValue) -> CanonicalEntity {
    CanonicalEntity {
        entity_type: kind.to_owned(),
        internal_id: "66666666-6666-4666-8666-666666666666".to_owned(),
        external_id: None,
        name: name.map(ToOwned::to_owned),
        category_path: Vec::new(),
        raw,
    }
}

fn administrative() -> JsonValue {
    object(vec![("dataEntryBy", object(vec![]))])
}

#[test]
fn written_contacts_carry_the_entity_fields_in_key_order() {
    let raw = object(vec![
        ("address", text("Zurich")),
        ("telephone", text("+41")),
        ("email", text("team@example.org")),
        ("website", text("https://example.org")),
        ("sourceTrace", object(vec![("format", text("ilcd"))])),
    ]);
    let written = canonical_contact(&entity("contacts", Some("Steel team"), raw), administrative());
    let dataset = member(&written, "contactDataSet").unwrap();
    assert_eq!(text_of(member(dataset, "@xmlns")), Some("http://lca.jrc.it/ILCD/Contact"));
    assert!(member(dataset, "administrativeInformation").is_some());
    let info = member(member(dataset, "contactInformation").unwrap(), "dataSetInformation").unwrap();
    assert_eq!(
        keys(info),
        vec![
            "WWWAddress",
            "classificationInformation",
            "common:UUID",
            "common:name",
            "common:other",
            "common:shortName",
            "contactAddress",
            "email",
            "telephone",
        ]
    );
    assert_eq!(text_of(member(info, "WWWAddress")), Some("https://example.org"));
    assert_eq!(text_of(member(member(info, "contactAddress").unwrap(), "#text")), Some("Zurich"));
    assert_eq!(text_of(member(member(info, "common:name").unwrap(), "#text")), Some("Steel team"));
    let trace = member(member(info, "common:other").unwrap(), "tidasimport:sourceTrace").unwrap();
    assert_eq!(text_of(member(trace, "@marker")), Some("TIDAS_IMPORT_TRACE_V1"));
}

#[test]
fn written_contacts_without_a_name_use_the_fallback() {
    let written = canonical_contact(&entity("contacts", None, object(vec![])), administrative());
    let dataset = member(&written, "contactDataSet").unwrap();
    let info = member(member(dataset, "contactInformation").unwrap(), "dataSetInformation").unwrap();
    assert_eq!(
        keys(info),
        vec!["classificationInformation", "common:UUID", "common:name", "common:shortName"]
    );
    assert_eq!(text_of(member(member(info, "common:shortName").unwrap(), "#text")), Some("Imported contact"));
}

#[test]
fn written_sources_join_description_and_url_and_mark_local_files() {
    let raw = object(vec![
        ("textReference", text("Old citation")),
        ("sourceCitation", text("Citation")),
        ("description", text("Description")),
        ("url", text("https://example.org/source")),
        (
            "referenceToDigitalFile",
            JsonValue::Array(vec![text("../external_docs/steel.png"), text("https://example.org/a.pdf"), JsonValue::Null]),
        ),
    ]);
    let written = canonical_source(&entity("sources", Some("Steel source"), raw), administrative());
    let dataset = member(&written, "sourceDataSet").unwrap();
    let info = member(member(dataset, "sourceInformation").unwrap(), "dataSetInformation").unwrap();
    assert_eq!(text_of(member(info, "sourceCitation")), Some("Citation"));
    assert_eq!(
        text_of(member(member(info, "sourceDescriptionOrComment").unwrap(), "#text")),
        Some("Description External source URL: https://example.org/source")
    );
    match member(info, "referenceToDigitalFile") {
        Some(JsonValue::Array(files)) => {
            assert_eq!(files.len(), 2);
            assert_eq!(text_of(member(&files[0], "@uri")), Some("file:../external_docs/steel.png"));
            assert_eq!(text_of(member(&files[1], "@uri")), Some("https://example.org/a.pdf"));
        }
        other => panic!("unexpected files: {other:?}"),
    }
    let class = member(
        member(member(info, "classificationInformation").unwrap(), "common:classification").unwrap(),
        "common:class",
    )
    .unwrap();
    assert_eq!(text_of(member(class, "@classId")), Some("6"));
}

#[test]
fn written_sources_with_one_file_and_only_a_url() {
    let raw = object(vec![
        ("textReference", text("Old citation")),
        ("url", text("https://example.org/source")),
        ("referenceToDigitalFile", text("steel.png")),
    ]);
    let written = canonical_source(&entity("sources", None, raw), administrative());
    let dataset = member(&written, "sourceDataSet").unwrap();
    let info = member(member(dataset, "sourceInformation").unwrap(), "dataSetInformation").unwrap();
    assert_eq!(text_of(member(info, "sourceCitation")), Some("Old citation"));
    assert_eq!(
        text_of(member(member(info, "sourceDescriptionOrComment").unwrap(), "#text")),
        Some("External source URL: https://example.org/source")
    );
    let file = member(info, "referenceToDigitalFile").unwrap();
    assert_eq!(text_of(member(file, "@uri")), Some("file:steel.png"));
    assert_eq!(text_of(member(member(info, "common:shortName").unwrap(), "#text")), Some("Imported source"));
}

#[test]
fn written_flow_properties_refer_to_their_unit_group() {
    let raw = object(vec![("unitGroupRefId", text("ug-1")), ("unitGroupName", text("Units of mass"))]);
    let written = flow_property(&entity("flowproperties", Some("Mass"), raw), administrative());
    let dataset = member(&written, "flowPropertyDataSet").unwrap();
    assert_eq!(
        keys(dataset),
        vec![
            "@version",
            "@xmlns",
            "@xmlns:common",
            "@xmlns:xsi",
            "@xsi:schemaLocation",
            "administrativeInformation",
            "flowPropertiesInformation",
            "modellingAndValidation",
        ]
    );
    let information = member(dataset, "flowPropertiesInformation").unwrap();
    let reference = member(member(information, "quantitativeReference").unwrap(), "referenceToReferenceUnitGroup").unwrap();
    assert_eq!(text_of(member(reference, "@refObjectId")), Some("ug-1"));
    let name = member(member(information, "dataSetInformation").unwrap(), "common:name").unwrap();
    assert_eq!(text_of(member(name, "#text")), Some("Mass"));

    let defaulted = flow_property(&entity("flowproperties", None, object(vec![])), administrative());
    let dataset = member(&defaulted, "flowPropertyDataSet").unwrap();
    let information = member(dataset, "flowPropertiesInformation").unwrap();
    let reference = member(member(information, "quantitativeReference").unwrap(), "referenceToReferenceUnitGroup").unwrap();
    let default_id = stable_id("tidas-tools/import/default-unit-group");
    assert_eq!(text_of(member(reference, "@refObjectId")), Some(default_id.as_str()));
    let name = member(member(information, "dataSetInformation").unwrap(), "common:name").unwrap();
    assert_eq!(text_of(member(name, "#text")), Some("Flow property"));
}
