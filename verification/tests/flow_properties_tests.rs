use tidas_tools::openlca_entities::openlca_entity;
use tidas_tools::flow_properties::normalize_flow_properties;
use tidas_tools::json::JsonValue;
use tidas_tools::model::CanonicalEntity;
use tidas_tools::normalization::{
    CanonicalCategory, ElementaryTaxonomy, ExtensionNode, FlowDatasetType, FlowNormalizationError,
    normalize_flow,
};

fn object(members: Vec<(&str, JsonValue)>) -> JsonValue {
    JsonValue::Object(
        members
            .into_iter()
            .map(|(key, value)| (key.to_owned(), value))
            .collect(),
    )
}

fn text(value: &str) -> JsonValue {
    JsonValue::String(value.to_owned())
}

fn flow_entity(raw: JsonValue) -> CanonicalEntity {
    CanonicalEntity {
        entity_type: "flows".to_owned(),
        internal_id: "11111111-1111-4111-8111-111111111111".to_owned(),
        external_id: None,
        name: Some("Fuel".to_owned()),
        category_path: Vec::new(),
        raw,
    }
}

fn property_entry(id: &str, name: &str, factor: &str, reference: bool) -> JsonValue {
    object(vec![
        ("flowProperty", object(vec![("@id", text(id)), ("name", text(name))])),
        ("conversionFactor", text(factor)),
        ("isRefFlowProperty", JsonValue::Bool(reference)),
    ])
}

fn fuel(first_reference: bool, second_reference: bool) -> CanonicalEntity {
    flow_entity(object(vec![(
        "flowProperties",
        JsonValue::Array(vec![
            property_entry("bbbbbbbb-bbbb-4bbb-8bbb-bbbbbbbbbbbb", "Mass", "1", first_reference),
            property_entry(
                "cccccccc-cccc-4ccc-8ccc-cccccccccccc",
                "Net calorific value",
                "42.5",
                second_reference,
            ),
        ]),
    )]))
}

#[test]
fn mass_and_ncv_keep_uuid_order_reference_and_exact_factor() {
    let values = normalize_flow_properties(&fuel(true, false), "fixture").unwrap();
    assert_eq!(values.len(), 2);
    assert_eq!(values[0].flow_property_name, "Mass");
    assert!(values[0].is_reference);
    assert_eq!(values[1].flow_property_name, "Net calorific value");
    assert_eq!(values[1].conversion_factor, "42.5");
}

#[test]
fn multi_property_reference_cardinality_is_strict() {
    for (first_reference, second_reference, expected_count) in [(false, false, 0), (true, true, 2)] {
        let entity = fuel(first_reference, second_reference);
        assert!(matches!(
            normalize_flow_properties(&entity, "fixture"),
            Err(FlowNormalizationError::ReferencePropertyCardinality { count, .. }) if count == expected_count
        ));
    }
}

#[test]
fn the_reference_property_comes_first_and_others_keep_their_order() {
    let entity = flow_entity(object(vec![(
        "flowProperties",
        JsonValue::Array(vec![
            property_entry("a", "Volume", "0.5", false),
            property_entry("b", "Energy", "3", false),
            property_entry("c", "Mass", "1", true),
        ]),
    )]));
    let values = normalize_flow_properties(&entity, "fixture").unwrap();
    let names: Vec<&str> = values.iter().map(|v| v.flow_property_name.as_str()).collect();
    assert_eq!(names, vec!["Mass", "Volume", "Energy"]);
    let orders: Vec<usize> = values.iter().map(|v| v.source_order).collect();
    assert_eq!(orders, vec![2, 0, 1]);
    match &values[1].source_evidence {
        JsonValue::Object(members) => {
            assert_eq!(members[0].0, "sourceObject");
            assert!(matches!(&members[0].1, JsonValue::String(s) if s == "fixture"));
            assert_eq!(members[1].0, "sourceOrder");
            assert!(matches!(&members[1].1, JsonValue::Number(n) if n == "0"));
        }
        _ => panic!("evidence is an object"),
    }
}

#[test]
fn alternative_keys_localized_names_and_numeric_factors_are_read() {
    let entity = flow_entity(object(vec![(
        "flowProperties",
        JsonValue::Array(vec![object(vec![
            (
                "flowProperty",
                object(vec![
                    ("@refObjectId", text("  dddd  ")),
                    ("common:shortDescription", object(vec![("#text", text(" Mass "))])),
                    ("version", text("01.00.000")),
                ]),
            ),
            ("meanValue", JsonValue::Number("2.5".to_owned())),
        ])]),
    )]));
    let values = normalize_flow_properties(&entity, "fixture").unwrap();
    assert_eq!(values.len(), 1);
    assert_eq!(values[0].flow_property_uuid, "dddd");
    assert_eq!(values[0].flow_property_name, "Mass");
    assert_eq!(values[0].version.as_deref(), Some("01.00.000"));
    assert_eq!(values[0].conversion_factor, "2.5");
    assert!(values[0].is_reference);
    match &values[0].source_evidence {
        JsonValue::Object(members) => {
            assert_eq!(members[0].0, "referenceDecision");
            assert!(matches!(&members[0].1, JsonValue::String(s) if s == "single-property-source-contract"));
            assert_eq!(members[1].0, "source");
        }
        _ => panic!("evidence is an object"),
    }
}

#[test]
fn unreadable_entries_name_their_position_and_reason() {
    let cases: Vec<(JsonValue, &str)> = vec![
        (object(vec![("conversionFactor", text("1"))]), "missing flowProperty object"),
        (
            object(vec![("flowProperty", object(vec![("name", text("Mass"))])), ("conversionFactor", text("1"))]),
            "missing flow-property UUID",
        ),
        (
            object(vec![("flowProperty", object(vec![("@id", text("x"))])), ("conversionFactor", text("1"))]),
            "missing flow-property name",
        ),
        (
            object(vec![
                ("flowProperty", object(vec![("@id", text("x")), ("name", text("Mass"))])),
                ("conversionFactor", text("one")),
            ]),
            "missing or non-decimal conversion factor",
        ),
    ];
    for (entry, expected) in cases {
        let entity = flow_entity(object(vec![(
            "flowProperties",
            JsonValue::Array(vec![property_entry("a", "Mass", "1", true), entry]),
        )]));
        match normalize_flow_properties(&entity, "fixture") {
            Err(FlowNormalizationError::InvalidFlowProperty { source_order, reason, flow_id, source_object }) => {
                assert_eq!(source_order, 1);
                assert_eq!(reason, expected);
                assert_eq!(flow_id, "11111111-1111-4111-8111-111111111111");
                assert_eq!(source_object, "fixture");
            }
            other => panic!("unexpected result {other:?}"),
        }
    }
}

#[test]
fn a_flow_without_properties_gets_one_named_after_its_unit() {
    let entity = flow_entity(object(vec![("unitName", text(" kg "))]));
    let values = normalize_flow_properties(&entity, "fixture").unwrap();
    assert_eq!(values.len(), 1);
    assert_eq!(values[0].flow_property_name, "Amount in kg");
    assert_eq!(values[0].conversion_factor, "1");
    assert!(values[0].is_reference);
    assert_eq!(values[0].flow_property_uuid.len(), 36);
    let plain = normalize_flow_properties(&flow_entity(object(vec![])), "fixture").unwrap();
    assert_eq!(plain[0].flow_property_name, "Flow property");
    assert_ne!(plain[0].flow_property_uuid, values[0].flow_property_uuid);
    let named = normalize_flow_properties(
        &flow_entity(object(vec![("flowPropertyRefId", text("p")), ("flowPropertyName", text("Mass"))])),
        "fixture",
    )
    .unwrap();
    assert_eq!(named[0].flow_property_uuid, "p");
    assert_eq!(named[0].flow_property_name, "Mass");
}

fn category(level: &str, id: &str, label: &str) -> CanonicalCategory {
    CanonicalCategory { level: level.to_owned(), category_id: id.to_owned(), label: label.to_owned() }
}

fn taxonomy() -> ElementaryTaxonomy {
    let categories = vec![
        category("0", "1", "Emissions"),
        category("1", "1.1", "Emissions to industrial soil"),
        category("2", "1.1.1", "Other emissions to industrial soil"),
        category("1", "1.3", "Emissions to air"),
        category("2", "1.3.1", "Emissions to air, unspecified"),
        category("2", "1.3.6", "Emissions to air, indoor"),
        category("2", "1.3.7", "Emissions to urban air low stack"),
        category("2", "1.3.8", "Emissions to urban air high stack"),
        category("2", "1.3.9", "Emissions to urban air very high stack"),
        category("2", "1.3.10", "Emissions to non-urban air close to ground"),
        category("2", "1.3.11", "Emissions to non-urban air low stack"),
        category("2", "1.3.12", "Emissions to non-urban air high stack"),
        category("2", "1.3.13", "Emissions to non-urban air very high stack"),
    ];
    let nodes = vec![ExtensionNode { cat_id: "1.3.6".to_owned(), source_paths: Vec::new() }];
    ElementaryTaxonomy::new(categories, "tidas-elementary-flow-taxonomy".to_owned(), 1, nodes).unwrap()
}

#[test]
fn normalized_flows_carry_name_properties_and_reference_id() {
    let entity = CanonicalEntity {
        entity_type: "flows".to_owned(),
        internal_id: "f1".to_owned(),
        external_id: None,
        name: Some(" Steel ".to_owned()),
        category_path: Vec::new(),
        raw: object(vec![
            ("flowType", text("PRODUCT_FLOW")),
            (
                "flowName",
                object(vec![
                    ("treatmentStandardsRoutes", text("hot rolled")),
                    ("mixAndLocationTypes", text("at plant")),
                ]),
            ),
            ("CASNumber", text(" 7439-89-6 ")),
            (
                "flowProperties",
                JsonValue::Array(vec![
                    property_entry("v", "Volume", "0.1", false),
                    property_entry("m", "Mass", "1", true),
                ]),
            ),
        ]),
    };
    let flow = normalize_flow(&entity, &taxonomy()).unwrap();
    assert_eq!(flow.id, "f1");
    assert_eq!(flow.dataset_type, FlowDatasetType::Product);
    assert_eq!(flow.name.base_name, "Steel");
    assert_eq!(flow.reference_property_internal_id, "1");
    assert_eq!(flow.flow_properties[0].flow_property_uuid, "m");
    assert_eq!(flow.cas_number.as_deref(), Some("7439-89-6"));
    assert_eq!(flow.version, None);
    assert_eq!(flow.classification.match_kind, "non-elementary");
    assert!(matches!(flow.source_trace, JsonValue::Null));
}

#[test]
fn flow_name_facts_are_checked_before_flow_properties() {
    let entity = CanonicalEntity {
        entity_type: "flows".to_owned(),
        internal_id: "f2".to_owned(),
        external_id: None,
        name: Some("Steel".to_owned()),
        category_path: Vec::new(),
        raw: object(vec![(
            "flowProperties",
            JsonValue::Array(vec![property_entry("v", "Volume", "0.1", false)]),
        )]),
    };
    match normalize_flow(&entity, &taxonomy()) {
        Err(FlowNormalizationError::MissingFact { canonical_path, source_object, .. }) => {
            assert_eq!(canonical_path, "CanonicalFlow.name.treatmentStandardsRoutes");
            assert_eq!(source_object, "unknown:flow:f2");
        }
        other => panic!("unexpected result {other:?}"),
    }
}

#[test]
fn openlca_all_flow_properties_reach_typed_normalization() {
    let property = |id: &str, name: &str, factor: &str, reference: bool| {
        object(vec![
            ("flowProperty", object(vec![("@id", text(id)), ("name", text(name))])),
            ("conversionFactor", text(factor)),
            ("isRefFlowProperty", JsonValue::Bool(reference)),
        ])
    };
    let flow = object(vec![
        ("@type", text("Flow")),
        ("@id", text("11111111-1111-4111-8111-111111111111")),
        ("name", text("Fuel")),
        ("flowType", text("PRODUCT_FLOW")),
        ("treatmentStandardsRoutes", text("production route")),
        ("mixAndLocationTypes", text("GLO")),
        (
            "flowProperties",
            JsonValue::Array(vec![
                property("bbbbbbbb-bbbb-4bbb-8bbb-bbbbbbbbbbbb", "Mass", "1", true),
                property("cccccccc-cccc-4ccc-8ccc-cccccccccccc", "Net calorific value", "42.500", false),
            ]),
        ),
    ]);
    let entity = openlca_entity(&flow, "fixture.json").unwrap();
    let normalized = normalize_flow(&entity, &taxonomy()).unwrap();
    assert_eq!(normalized.flow_properties.len(), 2);
    assert_eq!(normalized.flow_properties[0].flow_property_uuid, "bbbbbbbb-bbbb-4bbb-8bbb-bbbbbbbbbbbb");
    assert!(normalized.flow_properties[0].is_reference);
    assert_eq!(normalized.flow_properties[1].flow_property_uuid, "cccccccc-cccc-4ccc-8ccc-cccccccccccc");
    assert_eq!(normalized.flow_properties[1].conversion_factor, "42.500");
}
