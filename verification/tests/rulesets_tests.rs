use tidas_tools::json::JsonValue;
use tidas_tools::rulesets::{
    MethodologyValidationReportV1, RULESET_DESCRIPTION_SCHEMA_V1, RulesetCatalog, RulesetError,
};

fn text(value: &str) -> JsonValue {
    JsonValue::String(value.to_owned())
}

fn object(members: Vec<(&str, JsonValue)>) -> JsonValue {
    JsonValue::Object(
        members
            .into_iter()
            .map(|(key, value)| (key.to_owned(), value))
            .collect(),
    )
}

fn rule(id: &str, severity: &str) -> JsonValue {
    object(vec![("id", text(id)), ("severity", text(severity))])
}

fn ruleset(id: &str, rules: &[&str]) -> JsonValue {
    object(vec![
        ("id", text(id)),
        ("rule_ids", JsonValue::Array(rules.iter().map(|r| text(r)).collect())),
    ])
}

fn report() -> MethodologyValidationReportV1 {
    MethodologyValidationReportV1 {
        schema_version: "tidas.methodology-validation-report.v1".to_owned(),
        ok: true,
        file_count: 2,
        error_count: 0,
        warning_count: 3,
        files: Vec::new(),
    }
}

fn metadata(rules: Vec<JsonValue>, rulesets: Vec<JsonValue>) -> JsonValue {
    object(vec![
        ("rules", JsonValue::Array(rules)),
        ("ruleset_version", text("1.2.0")),
        ("rulesets", JsonValue::Array(rulesets)),
    ])
}

fn severity(rule: &JsonValue) -> &str {
    match rule.get("severity") {
        Some(JsonValue::String(s)) => s.as_str(),
        _ => "",
    }
}

#[test]
fn catalog_resolves_rulesets_to_their_rules_in_listed_order() {
    let meta = metadata(
        vec![
            rule("tidas.process.quantitative-reference.required", "blocker"),
            rule("tidas.process.name.recommended", "warning"),
            rule("tidas.flow.cas.format", "warning"),
        ],
        vec![
            ruleset("process-authoring/strict", &[
                "tidas.process.name.recommended",
                "tidas.process.quantitative-reference.required",
            ]),
            ruleset("flow-authoring/default", &["tidas.flow.cas.format"]),
        ],
    );
    let catalog = RulesetCatalog::from_metadata(meta, b"{}", report()).unwrap();
    let description = catalog.description();
    assert_eq!(description.schema_version, RULESET_DESCRIPTION_SCHEMA_V1);
    assert_eq!(description.ruleset_version, "1.2.0");
    assert_eq!(description.ruleset_count, 2);
    assert_eq!(description.rule_count, 3);
    assert_eq!(
        description.ruleset_ids,
        vec!["flow-authoring/default".to_owned(), "process-authoring/strict".to_owned()]
    );
    assert_eq!(
        description.catalog_sha256,
        "44136fa355b3678a1146ad16f7e8649e94fb4fc21fe77e8310c060f61caaff8a"
    );
    assert_eq!(description.methodology_file_count, 2);
    assert_eq!(description.methodology_warning_count, 3);
    assert!(catalog.methodology_report().ok);
    let strict = catalog.rules_for("process-authoring/strict").unwrap();
    let severities: Vec<&str> = strict.iter().map(|r| severity(r)).collect();
    assert_eq!(severities, vec!["warning", "blocker"]);
    assert!(matches!(
        catalog.rules_for("missing/default"),
        Err(RulesetError::UnknownRuleset(id)) if id == "missing/default"
    ));
}

#[test]
fn catalog_checks_fail_closed_in_order() {
    let no_rules = object(vec![("rulesets", JsonValue::Array(Vec::new()))]);
    assert!(matches!(
        RulesetCatalog::from_metadata(no_rules, b"", report()),
        Err(RulesetError::MissingRules)
    ));
    let unnamed = metadata(vec![rule("", "warning")], Vec::new());
    assert!(matches!(
        RulesetCatalog::from_metadata(unnamed, b"", report()),
        Err(RulesetError::MissingId(kind)) if kind == "rule"
    ));
    let twice = metadata(vec![rule("a", "warning"), rule("a", "blocker")], Vec::new());
    assert!(matches!(
        RulesetCatalog::from_metadata(twice, b"", report()),
        Err(RulesetError::DuplicateRule(id)) if id == "a"
    ));
    let no_sets = object(vec![("rules", JsonValue::Array(vec![rule("a", "warning")]))]);
    assert!(matches!(
        RulesetCatalog::from_metadata(no_sets, b"", report()),
        Err(RulesetError::MissingRulesets)
    ));
    let no_list = metadata(vec![rule("a", "warning")], vec![object(vec![("id", text("s"))])]);
    assert!(matches!(
        RulesetCatalog::from_metadata(no_list, b"", report()),
        Err(RulesetError::MissingRuleIds(id)) if id == "s"
    ));
    let not_text = metadata(
        vec![rule("a", "warning")],
        vec![object(vec![
            ("id", text("s")),
            ("rule_ids", JsonValue::Array(vec![text("missing"), JsonValue::Bool(true)])),
        ])],
    );
    assert!(matches!(
        RulesetCatalog::from_metadata(not_text, b"", report()),
        Err(RulesetError::InvalidRuleId(id)) if id == "s"
    ));
    let unknown = metadata(vec![rule("a", "warning")], vec![ruleset("s", &["a", "b", "c"])]);
    assert!(matches!(
        RulesetCatalog::from_metadata(unknown, b"", report()),
        Err(RulesetError::UnknownRule { ruleset, rule }) if ruleset == "s" && rule == "b"
    ));
    let repeated = metadata(
        vec![rule("a", "warning")],
        vec![ruleset("s", &["a"]), ruleset("s", &["a"])],
    );
    assert!(matches!(
        RulesetCatalog::from_metadata(repeated, b"", report()),
        Err(RulesetError::DuplicateRuleset(id)) if id == "s"
    ));
    let unversioned = object(vec![
        ("rules", JsonValue::Array(vec![rule("a", "warning")])),
        ("rulesets", JsonValue::Array(vec![ruleset("s", &["a"])])),
    ]);
    assert!(matches!(
        RulesetCatalog::from_metadata(unversioned, b"", report()),
        Err(RulesetError::MissingVersion)
    ));
}

use tidas_tools::rulesets::{
    MethodologyFileReportV1, compare_methodology, methodology_file_names, methodology_report,
    normalize_field_path, validate_methodology,
};

#[test]
fn field_paths_are_compared_without_prefixes_and_case() {
    assert_eq!(normalize_field_path("common:UUID"), "uuid");
    assert_eq!(normalize_field_path("a.@dataSetVersion"), "a.datasetversion");
    assert_eq!(
        normalize_field_path("processInformation.time.common:timeStamp"),
        "processinformation.time.timestamp"
    );
    assert_eq!(normalize_field_path("UUIDUUID"), "uuiduuid");
}

#[test]
fn methodology_asset_names_give_the_schema_name() {
    assert_eq!(
        methodology_file_names("assets/tidas/methodologies/process.yaml"),
        ("process.yaml".to_owned(), "process.json".to_owned())
    );
    assert_eq!(
        methodology_file_names("x/a.b.yaml"),
        ("a.b.yaml".to_owned(), "a.b.json".to_owned())
    );
    assert_eq!(
        methodology_file_names(".hidden"),
        (".hidden".to_owned(), ".hidden.json".to_owned())
    );
    let missing = validate_methodology("m/flow.yaml", None);
    assert_eq!(missing.status, "error");
    assert_eq!(missing.schema_file, "flow.json");
    assert_eq!(missing.errors, vec!["No corresponding schema file found".to_owned()]);
}

fn schema_object(properties: Vec<(&str, JsonValue)>) -> JsonValue {
    object(vec![("properties", object(properties)), ("type", text("object"))])
}

#[test]
fn methodology_and_schema_paths_are_compared_both_ways() {
    let methodology = object(vec![
        ("<rules>", object(vec![("ignored", text("x"))])),
        (
            "processDataSet",
            object(vec![
                ("common:UUID", text("...")),
                ("extra", text("...")),
            ]),
        ),
        ("metadata", object(vec![("version", text("1"))])),
    ]);
    let exchange_item = schema_object(vec![("@dataSetInternalID", object(Vec::new()))]);
    let schema = schema_object(vec![
        (
            "exchanges",
            object(vec![("items", exchange_item), ("type", text("array"))]),
        ),
        (
            "processDataSet",
            schema_object(vec![("common:UUID", object(Vec::new()))]),
        ),
        ("unimportant", object(Vec::new())),
    ]);
    let report = compare_methodology(
        "process.yaml".to_owned(),
        "process.json".to_owned(),
        &methodology,
        &schema,
    );
    assert_eq!(report.status, "warning");
    assert!(report.errors.is_empty());
    assert_eq!(
        report.warnings,
        vec![
            "Field 'processDataSet.extra' in YAML methodology not found in schema".to_owned(),
            "Schema field 'exchanges' not covered in YAML methodology".to_owned(),
            "Schema field 'exchanges.dataSetInternalID' not covered in YAML methodology".to_owned(),
        ]
    );
    let covered = compare_methodology(
        "a".to_owned(),
        "b".to_owned(),
        &object(vec![("common:name", text("n"))]),
        &schema_object(vec![("@name", object(Vec::new()))]),
    );
    assert_eq!(covered.status, "ok");
    assert!(covered.warnings.is_empty());
}

fn file(name: &str, errors: usize, warnings: usize) -> MethodologyFileReportV1 {
    MethodologyFileReportV1 {
        methodology_file: name.to_owned(),
        schema_file: String::new(),
        status: String::new(),
        errors: vec![String::new(); errors],
        warnings: vec![String::new(); warnings],
    }
}

#[test]
fn methodology_report_sorts_files_and_sums_findings() {
    let report = methodology_report(vec![file("b.yaml", 0, 2), file("a.yaml", 0, 1), file("c.yaml", 0, 0)]).unwrap();
    assert!(report.ok);
    assert_eq!(report.file_count, 3);
    assert_eq!(report.warning_count, 3);
    assert_eq!(report.error_count, 0);
    let names: Vec<&str> = report.files.iter().map(|f| f.methodology_file.as_str()).collect();
    assert_eq!(names, vec!["a.yaml", "b.yaml", "c.yaml"]);
    let failing = methodology_report(vec![file("x.yaml", 1, 0)]).unwrap();
    assert!(!failing.ok);
    assert_eq!(failing.error_count, 1);
}
