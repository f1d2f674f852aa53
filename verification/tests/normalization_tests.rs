use tidas_tools::json::JsonValue;
use tidas_tools::model::CanonicalEntity;
use tidas_tools::normalization::{
    CanonicalCategory, ElementaryTaxonomy, ExtensionNode, FlowDatasetType,
    FlowNormalizationError, SourceEvidence, TaxonomyError, is_placeholder, normalize_flow_name,
    source_object, string_field,
};

fn category(level: &str, id: &str, label: &str) -> CanonicalCategory {
    CanonicalCategory {
        level: level.to_owned(),
        category_id: id.to_owned(),
        label: label.to_owned(),
    }
}

fn categories() -> Vec<CanonicalCategory> {
    vec![
        category("0", "1", "Emissions"),
        category("1", "1.1", "Emissions to industrial soil"),
        category("2", "1.1.1", "Other emissions to industrial soil"),
        category("1", "1.3", "Emissions to air"),
        category("2", "1.3.1", "Emissions to air, unspecified"),
        category("2", "1.3.4", "Emissions to lower stratosphere and upper troposphere"),
        category("2", "1.3.6", "Emissions to air, indoor"),
        category("2", "1.3.7", "Emissions to urban air low stack"),
        category("2", "1.3.8", "Emissions to urban air high stack"),
        category("2", "1.3.9", "Emissions to urban air very high stack"),
        category("2", "1.3.10", "Emissions to non-urban air close to ground"),
        category("2", "1.3.11", "Emissions to non-urban air low stack"),
        category("2", "1.3.12", "Emissions to non-urban air high stack"),
        category("2", "1.3.13", "Emissions to non-urban air very high stack"),
    ]
}

fn extension_nodes() -> Vec<ExtensionNode> {
    let leaves = [
        "1.3.6", "1.3.7", "1.3.8", "1.3.9", "1.3.10", "1.3.11", "1.3.12", "1.3.13",
    ];
    let mut nodes: Vec<ExtensionNode> = leaves
        .iter()
        .map(|id| ExtensionNode {
            cat_id: (*id).to_owned(),
            source_paths: Vec::new(),
        })
        .collect();
    nodes[0].source_paths.push(vec!["Air".to_owned(), "indoor".to_owned()]);
    nodes
}

fn taxonomy() -> ElementaryTaxonomy {
    ElementaryTaxonomy::new(categories(), "tidas-elementary-flow-taxonomy".to_owned(), 1, extension_nodes())
        .unwrap()
}

fn strings(values: &[&str]) -> Vec<String> {
    values.iter().map(|value| (*value).to_owned()).collect()
}

fn ids(categories: &[CanonicalCategory]) -> Vec<&str> {
    categories.iter().map(|category| category.category_id.as_str()).collect()
}

fn object(members: Vec<(&str, JsonValue)>) -> JsonValue {
    JsonValue::Object(
        members
            .into_iter()
            .map(|(key, value)| (key.to_owned(), value))
            .collect(),
    )
}

fn text(value: &str) -> JsonValue {
    JsonValue::String(value.to_owned())
}

fn entity(raw: JsonValue, category_path: &[&str]) -> CanonicalEntity {
    CanonicalEntity {
        entity_type: "flows".to_owned(),
        internal_id: "11111111-1111-4111-8111-111111111111".to_owned(),
        external_id: None,
        name: Some("Carbon dioxide".to_owned()),
        category_path: strings(category_path),
        raw,
    }
}

#[test]
fn specific_compartment_matching_orders_non_urban_and_very_high_first() {
    let taxonomy = taxonomy();
    let non_urban = taxonomy
        .deterministic_match(&strings(&["non-urban air high stack"]))
        .unwrap();
    assert_eq!(non_urban.last().unwrap().category_id, "1.3.12");
    let very_high = taxonomy
        .deterministic_match(&strings(&["urban air very high stack"]))
        .unwrap();
    assert_eq!(very_high.last().unwrap().category_id, "1.3.9");
    let indoor = taxonomy.deterministic_match(&strings(&["indoor air"])).unwrap();
    assert_eq!(indoor.last().unwrap().category_id, "1.3.6");
    assert!(taxonomy
        .deterministic_match(&strings(&["agricultural soil"]))
        .is_none());
}

#[test]
fn compartment_matching_reads_the_whole_path_case_insensitively() {
    let taxonomy = taxonomy();
    let soil = taxonomy
        .deterministic_match(&strings(&["Soil", "Industrial Soil"]))
        .unwrap();
    assert_eq!(ids(&soil), vec!["1", "1.1", "1.1.1"]);
    let split = taxonomy
        .deterministic_match(&strings(&["Non-Urban air", "very high stack"]))
        .unwrap();
    assert_eq!(ids(&split), vec!["1", "1.3", "1.3.13"]);
}

#[test]
fn exact_paths_resolve_labels_and_declared_extension_paths() {
    let taxonomy = taxonomy();
    let by_labels = taxonomy
        .exact_path(&strings(&["Emissions", "Emissions to air", "Emissions to air, indoor"]))
        .unwrap();
    assert_eq!(ids(&by_labels), vec!["1", "1.3", "1.3.6"]);
    let declared = taxonomy.exact_path(&strings(&["Air", "indoor"])).unwrap();
    assert_eq!(ids(&declared), vec!["1", "1.3", "1.3.6"]);
    assert!(taxonomy.exact_path(&strings(&["Emissions", "Unknown"])).is_none());
    assert!(taxonomy.exact_path(&Vec::new()).is_none());
    let ancestors = taxonomy.category_ancestors("1.3.12").unwrap();
    assert_eq!(ids(&ancestors), vec!["1", "1.3", "1.3.12"]);
    assert!(taxonomy.category_ancestors("1.2.1").is_none());
}

#[test]
fn classification_prefers_exact_then_compartment_then_fallback() {
    let taxonomy = taxonomy();
    let exact = taxonomy.classify(
        &entity(object(vec![]), &["Emissions", "Emissions to air", "Emissions to air, unspecified"]),
        FlowDatasetType::Elementary,
    );
    assert_eq!(exact.match_kind, "exact-path");
    assert_eq!(exact.taxonomy_id, "ilcd-flow-categorization");
    assert_eq!(exact.taxonomy_version, "1.1");
    assert_eq!(exact.extension_node_id, None);
    assert_eq!(exact.source_evidence, SourceEvidence::CategoryPath);

    let extended = taxonomy.classify(
        &entity(
            object(vec![(
                "elementaryCategorization",
                JsonValue::Array(vec![
                    object(vec![("text", text("Emissions"))]),
                    object(vec![("text", text("Emissions to air"))]),
                    object(vec![("text", text("Emissions to air, indoor"))]),
                ]),
            )]),
            &["ignored"],
        ),
        FlowDatasetType::Elementary,
    );
    assert_eq!(extended.match_kind, "exact-path");
    assert_eq!(extended.extension_node_id, Some("1.3.6".to_owned()));
    assert_eq!(extended.taxonomy_id, "tidas-elementary-flow-taxonomy");
    assert_eq!(extended.taxonomy_version, "1");
    assert_eq!(extended.source_evidence, SourceEvidence::Categorization);
    assert_eq!(extended.source_path.len(), 3);

    let compartment = taxonomy.classify(
        &entity(object(vec![]), &["air", "urban air low stack"]),
        FlowDatasetType::Elementary,
    );
    assert_eq!(compartment.match_kind, "deterministic-compartment");
    assert_eq!(compartment.extension_node_id, Some("1.3.7".to_owned()));

    let fallback = taxonomy.classify(&entity(object(vec![]), &["water"]), FlowDatasetType::Elementary);
    assert_eq!(fallback.match_kind, "fallback-air-unspecified");
    assert_eq!(ids(&fallback.categories), vec!["1", "1.3", "1.3.1"]);

    let product = taxonomy.classify(&entity(object(vec![]), &["Materials"]), FlowDatasetType::Product);
    assert_eq!(product.match_kind, "non-elementary");
    assert_eq!(product.taxonomy_id, "cpc");
    assert_eq!(product.taxonomy_version, "2.1");
    assert!(product.categories.is_empty());
    assert_eq!(product.source_path, strings(&["Materials"]));
}

#[test]
fn taxonomy_rejects_repeats_and_missing_labels() {
    let mut repeated = categories();
    repeated.push(category("2", "1.3.99", "Emissions to air"));
    assert!(matches!(
        ElementaryTaxonomy::new(repeated, String::new(), 1, Vec::new()),
        Err(TaxonomyError::DuplicateLabel(label)) if label == "Emissions to air"
    ));
    let mut same_id = categories();
    same_id.push(category("2", "1.3.6", "Another"));
    assert!(matches!(
        ElementaryTaxonomy::new(same_id, String::new(), 1, Vec::new()),
        Err(TaxonomyError::DuplicateCategoryId(id)) if id == "1.3.6"
    ));
    let mut missing = categories();
    missing.retain(|category| category.label != "Emissions to urban air low stack");
    assert!(matches!(
        ElementaryTaxonomy::new(missing, String::new(), 1, Vec::new()),
        Err(TaxonomyError::MissingLabel(label)) if label == "Emissions to urban air low stack"
    ));
}

#[test]
fn flow_types_are_read_from_source_text() {
    assert_eq!(FlowDatasetType::from_source(Some("ELEMENTARY_FLOW")), FlowDatasetType::Elementary);
    assert_eq!(FlowDatasetType::from_source(Some("waste_flow")), FlowDatasetType::Waste);
    assert_eq!(FlowDatasetType::from_source(Some("Other flow")), FlowDatasetType::Other);
    assert_eq!(FlowDatasetType::from_source(Some("anything")), FlowDatasetType::Product);
    assert_eq!(FlowDatasetType::from_source(None), FlowDatasetType::Product);
    assert_eq!(FlowDatasetType::Elementary.as_tidas(), "Elementary flow");
    assert_eq!(FlowDatasetType::Waste.as_tidas(), "Waste flow");
}

#[test]
fn placeholders_are_not_facts() {
    for value in ["", "  ", "-", "N/A", " Source-Described Route ", "source-described geography"] {
        assert!(is_placeholder(value), "{value:?}");
    }
    assert!(!is_placeholder("GLO"));
}

#[test]
fn elementary_flow_requires_only_base_name() {
    let flow_name = object(vec![
        ("treatmentStandardsRoutes", text("must be removed")),
        ("mixAndLocationTypes", text("must be removed")),
        ("flowProperties", text("must be removed")),
    ]);
    let normalized = normalize_flow_name(
        Some("Carbon dioxide"),
        Some(&flow_name),
        FlowDatasetType::Elementary,
        "11111111-1111-4111-8111-111111111111",
        "fixture",
    )
    .unwrap();
    assert_eq!(normalized.base_name, "Carbon dioxide");
    assert_eq!(normalized.treatment_standards_routes, None);
    assert_eq!(normalized.mix_and_location_types, None);
}

#[test]
fn non_elementary_placeholder_is_rejected() {
    let flow_name = object(vec![
        ("treatmentStandardsRoutes", text("source-described route")),
        ("mixAndLocationTypes", text("GLO")),
    ]);
    assert!(matches!(
        normalize_flow_name(
            Some("Carbon dioxide"),
            Some(&flow_name),
            FlowDatasetType::Product,
            "11111111-1111-4111-8111-111111111111",
            "fixture",
        ),
        Err(FlowNormalizationError::MissingFact {
            canonical_path: "CanonicalFlow.name.treatmentStandardsRoutes",
            ..
        })
    ));
}

#[test]
fn product_flow_names_keep_trimmed_facts() {
    let flow_name = object(vec![
        ("treatmentStandardsRoutes", text(" at plant ")),
        ("mixAndLocationTypes", text("GLO")),
        ("flowProperties", text("n/a")),
    ]);
    let normalized = normalize_flow_name(
        Some("  Steel "),
        Some(&flow_name),
        FlowDatasetType::Product,
        "id",
        "fixture",
    )
    .unwrap();
    assert_eq!(normalized.base_name, "Steel");
    assert_eq!(normalized.treatment_standards_routes, Some("at plant".to_owned()));
    assert_eq!(normalized.mix_and_location_types, Some("GLO".to_owned()));
    assert_eq!(normalized.flow_properties, None);

    assert!(matches!(
        normalize_flow_name(Some(" - "), None, FlowDatasetType::Elementary, "id", "fixture"),
        Err(FlowNormalizationError::MissingFact { canonical_path: "CanonicalFlow.name.baseName", .. })
    ));
    let no_mix = object(vec![("treatmentStandardsRoutes", text("route"))]);
    assert!(matches!(
        normalize_flow_name(Some("Steel"), Some(&no_mix), FlowDatasetType::Waste, "id", "fixture"),
        Err(FlowNormalizationError::MissingFact {
            canonical_path: "CanonicalFlow.name.mixAndLocationTypes",
            ..
        })
    ));
}

#[test]
fn entity_fields_and_source_object() {
    let raw = object(vec![
        ("version", text("  01.00.000 ")),
        ("synonyms", text("   ")),
        (
            "sourceTrace",
            object(vec![("format", text("openlca-jsonld")), ("sourceObject", text("flows/x.json"))]),
        ),
    ]);
    let value = entity(raw, &[]);
    assert_eq!(string_field(&value, "version"), Some("01.00.000".to_owned()));
    assert_eq!(string_field(&value, "synonyms"), None);
    assert_eq!(string_field(&value, "CASNumber"), None);
    assert_eq!(
        source_object(&value),
        "openlca-jsonld:flows/x.json:11111111-1111-4111-8111-111111111111"
    );
    assert_eq!(
        source_object(&entity(object(vec![]), &[])),
        "unknown:flow:11111111-1111-4111-8111-111111111111"
    );
}
