use tidas_tools::json::JsonValue;
use tidas_tools::lifecycle::lifecycle_model;
use tidas_tools::model::CanonicalEntity;
use tidas_tools::writers::{
    administrative, compliance_declarations, dataset_ref, import_trace, localized, name_parts,
};

fn text(value: &str) -> JsonValue {
    JsonValue::String(value.to_owned())
}

fn object(members: Vec<(&str, JsonValue)>) -> JsonValue {
    JsonValue::Object(
        members
            .into_iter()
            .map(|(key, value)| (key.to_owned(), value))
            .collect(),
    )
}

fn at<'a>(value: &'a JsonValue, path: &[&str]) -> &'a JsonValue {
    path.iter()
        .fold(value, |node, key| node.get(key).unwrap_or_else(|| panic!("no member {key}")))
}

fn text_of(value: &JsonValue) -> &str {
    match value {
        JsonValue::String(s) | JsonValue::Number(s) => s.as_str(),
        _ => panic!("not text: {value:?}"),
    }
}

fn keys(value: &JsonValue) -> Vec<&str> {
    match value {
        JsonValue::Object(members) => members.iter().map(|(k, _)| k.as_str()).collect(),
        _ => Vec::new(),
    }
}

fn connection(provider: &str, consumer: &str, flow: &str) -> JsonValue {
    object(vec![
        ("consumerProcessId", text(consumer)),
        ("flowRefId", text(flow)),
        ("providerProcessId", text(provider)),
    ])
}

fn model() -> CanonicalEntity {
    CanonicalEntity {
        entity_type: "lifecyclemodels".to_owned(),
        internal_id: "model".to_owned(),
        external_id: None,
        name: Some("Model".to_owned()),
        category_path: Vec::new(),
        raw: object(vec![
            (
                "connections",
                JsonValue::Array(vec![
                    connection("a", "b", "f2"),
                    connection("a", "c", "f1"),
                    connection("a", "b", "f1"),
                    connection("b", "c", "f3"),
                    connection("a", "outside", "f1"),
                ]),
            ),
            (
                "processRefs",
                JsonValue::Array(vec![
                    object(vec![("id", text("a")), ("name", text("A")), ("processType", text("UNIT"))]),
                    object(vec![("id", text("b"))]),
                    object(vec![("name", text("no id"))]),
                    object(vec![("id", text("c"))]),
                ]),
            ),
            ("referenceProcessId", text("c")),
        ]),
    }
}

#[test]
fn instances_are_numbered_by_place_and_connections_grouped_by_flow() {
    let dataset = lifecycle_model(&model());
    let root = at(&dataset, &["lifeCycleModelDataSet"]);
    assert_eq!(
        keys(root),
        vec![
            "@locations", "@version", "@xmlns", "@xmlns:acme", "@xmlns:common", "@xmlns:xsi",
            "@xsi:schemaLocation", "administrativeInformation", "lifeCycleModelInformation",
            "modellingAndValidation",
        ]
    );
    let info = at(root, &["lifeCycleModelInformation"]);
    assert_eq!(
        text_of(at(info, &["quantitativeReference", "referenceToReferenceProcess"])),
        "4"
    );
    assert!(matches!(
        at(info, &["quantitativeReference", "referenceToReferenceProcess"]),
        JsonValue::Number(_)
    ));
    assert_eq!(text_of(at(info, &["dataSetInformation", "common:UUID"])), "model");
    assert_eq!(
        text_of(at(info, &["dataSetInformation", "name", "baseName", "#text"])),
        "Model"
    );
    let instances = match at(info, &["technology", "processes", "processInstance"]) {
        JsonValue::Array(items) => items,
        _ => panic!("instances are an array"),
    };
    assert_eq!(instances.len(), 3);
    assert_eq!(text_of(at(&instances[0], &["@dataSetInternalID"])), "1");
    assert_eq!(text_of(at(&instances[1], &["@dataSetInternalID"])), "2");
    assert_eq!(text_of(at(&instances[2], &["@dataSetInternalID"])), "4");
    assert_eq!(
        text_of(at(&instances[0], &["referenceToProcess", "@uri"])),
        "../processes/a.json"
    );
    assert_eq!(
        text_of(at(&instances[1], &["referenceToProcess", "common:shortDescription", "#text"])),
        "Process"
    );
    let outputs = match at(&instances[0], &["connections", "outputExchange"]) {
        JsonValue::Array(items) => items,
        _ => panic!("two flows give an array"),
    };
    assert_eq!(outputs.len(), 2);
    assert_eq!(text_of(at(&outputs[0], &["@flowUUID"])), "f1");
    let downstream = match at(&outputs[0], &["downstreamProcess"]) {
        JsonValue::Array(items) => items,
        _ => panic!("two consumers give an array"),
    };
    assert_eq!(text_of(at(&downstream[0], &["@id"])), "4");
    assert_eq!(text_of(at(&downstream[1], &["@id"])), "2");
    assert_eq!(text_of(at(&outputs[1], &["@flowUUID"])), "f2");
    assert_eq!(text_of(at(&outputs[1], &["downstreamProcess", "@id"])), "2");
    assert_eq!(text_of(at(&instances[1], &["connections", "outputExchange", "@flowUUID"])), "f3");
    assert!(instances[2].get("connections").is_none());
    assert_eq!(
        keys(&instances[0]),
        vec!["@dataSetInternalID", "@multiplicationFactor", "common:other", "connections", "referenceToProcess"]
    );
    assert_eq!(
        text_of(at(&instances[0], &["common:other", "tidasimport:sourceTrace", "payload", "sourceProcessType"])),
        "UNIT"
    );
}

#[test]
fn model_without_references_still_has_its_frame() {
    let mut entity = model();
    entity.raw = object(vec![("sourceTrace", text("trace"))]);
    entity.name = None;
    let dataset = lifecycle_model(&entity);
    let info = at(&dataset, &["lifeCycleModelDataSet", "lifeCycleModelInformation"]);
    assert_eq!(text_of(at(info, &["quantitativeReference", "referenceToReferenceProcess"])), "1");
    assert!(matches!(
        at(info, &["technology", "processes", "processInstance"]),
        JsonValue::Array(items) if items.is_empty()
    ));
    assert_eq!(
        text_of(at(info, &["dataSetInformation", "name", "baseName", "#text"])),
        "Life cycle model"
    );
    assert_eq!(
        text_of(at(info, &["dataSetInformation", "common:generalComment", "#text"])),
        "Converted from external LCA package"
    );
    assert_eq!(
        text_of(at(info, &["dataSetInformation", "common:other", "tidasimport:sourceTrace", "payload"])),
        "trace"
    );
}

#[test]
fn shared_dataset_parts_have_their_fixed_shape() {
    assert_eq!(keys(&localized("x")), vec!["#text", "@xml:lang"]);
    let reference = dataset_ref("source data set", "id", "Desc", "sources");
    assert_eq!(text_of(at(&reference, &["@uri"])), "../sources/id.json");
    assert_eq!(text_of(at(&reference, &["@version"])), "00.00.001");
    let unit = administrative("unitgroups", "u", false);
    assert_eq!(
        text_of(at(&unit, &["publicationAndOwnership", "common:permanentDataSetURI"])),
        "https://lcdn.tiangong.earth/unitgroups/u?version=00.00.001"
    );
    assert!(at(&unit, &["publicationAndOwnership"]).get("common:copyright").is_none());
    let flow = administrative("flows", "f", true);
    assert_eq!(
        text_of(at(&flow, &["publicationAndOwnership", "common:permanentDataSetURI"])),
        "https://lcdn.tiangong.earth/datasetdetail/productFlow.xhtml?uuid=f&version=00.00.001"
    );
    assert_eq!(
        keys(at(&flow, &["dataEntryBy"])),
        vec![
            "common:referenceToDataSetFormat",
            "common:referenceToPersonOrEntityEnteringTheData",
            "common:timeStamp",
        ]
    );
    assert_eq!(keys(at(&compliance_declarations(false), &["compliance"])).len(), 2);
    assert_eq!(keys(at(&compliance_declarations(true), &["compliance"])).len(), 7);
    assert_eq!(
        keys(&name_parts("n", "GLO")),
        vec!["baseName", "mixAndLocationTypes", "treatmentStandardsRoutes"]
    );
    assert_eq!(
        text_of(at(&import_trace(&text("p")), &["tidasimport:sourceTrace", "@marker"])),
        "TIDAS_IMPORT_TRACE_V1"
    );
}
