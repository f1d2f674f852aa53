use tidas_tools::json::JsonValue;
use tidas_tools::references::{
    ReferenceExtractionError, category_from_type, category_from_uri, collapse_whitespace,
    extract_references, is_canonical_uuid, is_version, reference_role, reference_roles,
};

const UUID: &str = "11111111-1111-4111-8111-111111111111";

fn object(members: Vec<(&str, JsonValue)>) -> JsonValue {
    JsonValue::Object(
        members
            .into_iter()
            .map(|(key, value)| (key.to_owned(), value))
            .collect(),
    )
}

fn text(value: &str) -> JsonValue {
    JsonValue::String(value.to_owned())
}

#[test]
fn role_vocabulary_and_input_failures_are_closed() {
    assert_eq!(
        reference_roles(),
        [
            "lcia_factor_flow",
            "lifecycle_model_process",
            "process_exchange_flow",
            "support_document",
        ]
    );
    assert_eq!(
        extract_references("", "processes", &JsonValue::Null).err(),
        Some(ReferenceExtractionError::EmptyDocumentKey)
    );
    assert_eq!(
        extract_references("key", "", &JsonValue::Null).err(),
        Some(ReferenceExtractionError::EmptyCategory)
    );
}

#[test]
fn versions_and_uuids_have_exact_shapes() {
    assert!(is_version("01.00"));
    assert!(is_version("01.00.000"));
    assert!(!is_version("1.00.000"));
    assert!(!is_version("01.00.0000"));
    assert!(!is_version("01.0a"));
    assert!(!is_version("01.00.000.0"));
    assert!(is_canonical_uuid(UUID));
    assert!(!is_canonical_uuid("11111111-1111-4111-8111-11111111111A"));
    assert!(!is_canonical_uuid("111111111111-4111-8111-111111111111-"));
}

#[test]
fn categories_come_from_type_then_uri() {
    assert_eq!(category_from_type(Some(&text("  Flow   Data\tSet "))), Some("flows"));
    assert_eq!(category_from_type(Some(&text("lifecycle model"))), Some("lifecyclemodels"));
    assert_eq!(category_from_type(Some(&text("flows"))), None);
    assert_eq!(category_from_type(Some(&JsonValue::Null)), None);
    assert_eq!(collapse_whitespace("  a \n b  "), "a b");
    assert_eq!(category_from_uri(Some(&text("../Flows/x.json"))), Some("flows"));
    assert_eq!(category_from_uri(Some(&text("..\\unit-groups\\x.json"))), Some("unitgroups"));
    assert_eq!(category_from_uri(Some(&text("x.json"))), None);
    assert_eq!(category_from_uri(None), None);
}

#[test]
fn roles_follow_source_category_path_and_key() {
    assert_eq!(
        reference_role("processes", "$.exchanges.exchange[0]", Some("referenceToFlowDataSet"), Some("flows")),
        "process_exchange_flow"
    );
    assert_eq!(
        reference_role("processes", "$.exchanges", Some("referenceToSource"), Some("flows")),
        "support_document"
    );
    assert_eq!(
        reference_role("lciamethods", "$.characterisationFactors.factor[1]", Some("x"), Some("flows")),
        "lcia_factor_flow"
    );
    assert_eq!(
        reference_role("lifecyclemodels", "$", None, Some("processes")),
        "lifecycle_model_process"
    );
}

#[test]
fn extraction_yields_edges_and_issues_in_document_order() {
    let payload = object(vec![(
        "exchanges",
        object(vec![(
            "exchange",
            JsonValue::Array(vec![
                object(vec![(
                    "referenceToFlowDataSet",
                    object(vec![
                        ("@refObjectId", text(UUID)),
                        ("@type", text("flow data set")),
                        ("@uri", text("../flows/x.json")),
                        ("@version", text("01.00.000")),
                    ]),
                )]),
                object(vec![(
                    "referenceToFlowDataSet",
                    object(vec![
                        ("@refObjectId", text(" ABC ")),
                        ("@version", text("1.0")),
                    ]),
                )]),
                object(vec![("referenceToSource", object(vec![("@type", text("source data set"))]))]),
            ]),
        )]),
    )]);
    let result = extract_references("processes/p.json", "processes", &payload).unwrap();
    assert_eq!(result.schema_version, "tidas.reference-extraction-result.v1");
    assert_eq!(result.edges.len(), 1);
    let edge = &result.edges[0];
    assert_eq!(edge.schema_version, "tidas.reference-edge.v1");
    assert_eq!(edge.document_key, "processes/p.json");
    assert_eq!(edge.target_category, "flows");
    assert_eq!(edge.target_uuid, UUID);
    assert_eq!(edge.requested_version_state, "explicit");
    assert_eq!(edge.requested_version, Some("01.00.000".to_owned()));
    assert_eq!(edge.reference_role, "process_exchange_flow");
    assert_eq!(edge.json_path, "$.exchanges.exchange[0].referenceToFlowDataSet");

    let codes: Vec<&str> = result.issues.iter().map(|issue| issue.issue_code.as_str()).collect();
    assert_eq!(
        codes,
        vec![
            "reference_type_unresolved",
            "reference_uuid_invalid",
            "reference_version_invalid",
            "reference_object_id_missing",
        ]
    );
    assert_eq!(result.issues[0].json_path, "$.exchanges.exchange[1].referenceToFlowDataSet");
    assert_eq!(result.issues[3].json_path, "$.exchanges.exchange[2].referenceToSource");
    assert!(result.issues.iter().all(|issue| issue.severity == "error"));
    assert_eq!(result.issues[3].details.len(), 3);
    assert_eq!(result.issues[3].details[0].0, "raw_ref_object_id");
    assert!(result.issues[3].details[0].1.is_none());
}

#[test]
fn omitted_version_is_not_an_issue() {
    let payload = object(vec![(
        "referenceToContact",
        object(vec![("@refObjectId", text(UUID)), ("@type", text("contact data set"))]),
    )]);
    let result = extract_references("k", "flows", &payload).unwrap();
    assert!(result.issues.is_empty());
    assert_eq!(result.edges[0].requested_version_state, "omitted");
    assert_eq!(result.edges[0].requested_version, None);
    assert_eq!(result.edges[0].reference_role, "support_document");
}
