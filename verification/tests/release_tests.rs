use tidas_tools::release::reject_overlapping_output;
use sha2::{Digest, Sha256};
use tidas_tools::json::JsonValue;
use tidas_tools::release::{
    ClosureWalk, DatasetEntry, DatasetIndex, INDEX_SCHEMA, RawDatasetEntry, RawDatasetIndex,
    ReferenceSet, ReleaseAction, ReleaseArtifactV1, ReleaseDataFormat, ReleaseError,
    ReleasePackageV1, ReleaseProfile, ReleaseRequest, artifact_set_hash, portable,
    RoundtripMismatchV1, RESULT_PROFILE, UNIT_PROFILE, check_index_header, index_entry,
    is_portable_component, is_preceding_version_reference, record_mismatch,
    reference_dataset_type, safe_relative, validate_hash, verify_result_contains_unit,
    walk_references,
};

const HASH: &str = "0123456789abcdef0123456789abcdef0123456789abcdef0123456789abcdef";

fn entry(dataset_type: &str, role: &str, uuid: &str, path: &str) -> DatasetEntry {
    DatasetEntry {
        dataset_type: dataset_type.to_owned(),
        role: role.to_owned(),
        uuid: uuid.to_owned(),
        version: "01.00.000".to_owned(),
        relative_path: path.to_owned(),
        sha256: HASH.to_owned(),
        canonical_content_hash: HASH.to_owned(),
    }
}

fn object(members: Vec<(&str, JsonValue)>) -> JsonValue {
    JsonValue::Object(
        members
            .into_iter()
            .map(|(key, value)| (key.to_owned(), value))
            .collect(),
    )
}

fn text(value: &str) -> JsonValue {
    JsonValue::String(value.to_owned())
}

fn reference(kind: &str, id: &str) -> JsonValue {
    object(vec![
        ("@refObjectId", text(id)),
        ("@type", text(kind)),
        ("@version", text("01.00.000")),
    ])
}

fn references_of(document: &JsonValue) -> ReferenceSet {
    let mut set = ReferenceSet::new();
    walk_references(document, "$", None, &mut set).unwrap();
    set
}

#[test]
fn portable_components_reject_windows_reserved_names() {
    assert!(is_portable_component("process.json"));
    assert!(!is_portable_component("CON"));
    assert!(!is_portable_component("com1.txt"));
    assert!(is_portable_component("COM0"));
    assert!(!is_portable_component("name."));
    assert!(!is_portable_component("a:b"));
    assert!(!is_portable_component("tab\there"));
}

#[test]
fn safe_relative_paths_are_portable_and_contained() {
    assert_eq!(safe_relative("processes/a.json").unwrap(), "processes/a.json");
    for raw in ["", "/abs/a.json", "a/../b", "./a", "a//b", "a\\b", "a/lpt9.json"] {
        assert!(
            matches!(safe_relative(raw), Err(ReleaseError::UnsafePath(path)) if path == raw),
            "{raw}"
        );
    }
}

#[test]
fn index_fields_are_validated_in_order() {
    assert!(validate_hash(HASH).is_ok());
    assert!(matches!(
        validate_hash("abc"),
        Err(ReleaseError::DatasetIndexInvalid(message)) if message == "invalid SHA-256 value: abc"
    ));
    let raw = RawDatasetEntry {
        dataset_type: "process".to_owned(),
        role: "unit_process".to_owned(),
        uuid: "AAAA".to_owned(),
        version: "01.00.000".to_owned(),
        path: "processes/a.json".to_owned(),
        sha256: HASH.to_uppercase(),
        byte_size: 10,
        canonical_content_hash: HASH.to_owned(),
    };
    let entry = index_entry(raw).unwrap();
    assert_eq!(entry.uuid, "aaaa");
    assert_eq!(entry.sha256, HASH);
    assert_eq!(entry.key(), "process:aaaa:01.00.000");

    let missing_role = RawDatasetEntry {
        dataset_type: "process".to_owned(),
        role: String::new(),
        uuid: "b".to_owned(),
        version: "1".to_owned(),
        path: "b.json".to_owned(),
        sha256: HASH.to_owned(),
        byte_size: 1,
        canonical_content_hash: HASH.to_owned(),
    };
    assert!(matches!(
        index_entry(missing_role),
        Err(ReleaseError::DatasetIndexInvalid(message)) if message == "role must not be empty"
    ));
    let unsafe_path = RawDatasetEntry {
        dataset_type: "process".to_owned(),
        role: "unit_process".to_owned(),
        uuid: "b".to_owned(),
        version: "1".to_owned(),
        path: "../b.json".to_owned(),
        sha256: HASH.to_owned(),
        byte_size: 1,
        canonical_content_hash: HASH.to_owned(),
    };
    assert!(matches!(index_entry(unsafe_path), Err(ReleaseError::UnsafePath(_))));
}

#[test]
fn index_header_checks_schema_emptiness_and_count() {
    let header = |schema: &str, count: u64, datasets: usize| RawDatasetIndex {
        schema_version: schema.to_owned(),
        dataset_count: count,
        byte_size: 0,
        artifact_set_hash: String::new(),
        datasets: (0..datasets)
            .map(|index| RawDatasetEntry {
                dataset_type: "flow".to_owned(),
                role: "flow".to_owned(),
                uuid: format!("{index}"),
                version: "1".to_owned(),
                path: format!("{index}.json"),
                sha256: HASH.to_owned(),
                byte_size: 1,
                canonical_content_hash: HASH.to_owned(),
            })
            .collect(),
    };
    assert!(check_index_header(&header(INDEX_SCHEMA, 2, 2)).is_ok());
    assert!(matches!(
        check_index_header(&header("other", 2, 2)),
        Err(ReleaseError::DatasetIndexSchemaUnsupported(schema)) if schema == "other"
    ));
    assert!(matches!(
        check_index_header(&header(INDEX_SCHEMA, 0, 0)),
        Err(ReleaseError::DatasetIndexEmpty)
    ));
    assert!(matches!(
        check_index_header(&header(INDEX_SCHEMA, 3, 2)),
        Err(ReleaseError::DatasetIndexInvalid(message))
            if message == "datasetCount does not match datasets length"
    ));
}

#[test]
fn index_rejects_duplicate_identities_and_paths() {
    let mut index = DatasetIndex::new();
    index.add(entry("process", "unit_process", "A", "p/a.json")).unwrap();
    assert!(matches!(
        index.add(entry("process", "unit_process", "a", "p/other.json")),
        Err(ReleaseError::DuplicateDatasetIdentity(key)) if key == "process:a:01.00.000"
    ));
    assert!(matches!(
        index.add(entry("flow", "flow", "b", "p/a.json")),
        Err(ReleaseError::DuplicateDatasetPath(path)) if path == "p/a.json"
    ));
    index.add(entry("flow", "flow", "b", "f/b.json")).unwrap();
    assert_eq!(index.len(), 2);
    let keys: Vec<String> = index.entries().iter().map(|entry| entry.key()).collect();
    assert_eq!(keys, vec!["flow:b:01.00.000".to_owned(), "process:a:01.00.000".to_owned()]);
    assert!(index.get("process:a:01.00.000").is_some());
    assert!(index.get("process:A:01.00.000").is_none());
}

#[test]
fn references_name_exact_versions_and_skip_preceding_versions() {
    let document = object(vec![
        ("flow", reference("Flow data set", "F1")),
        (
            "common:referenceToPrecedingDataSetVersion",
            reference("Process data set", "OLD"),
        ),
        (
            "exchanges",
            JsonValue::Array(vec![reference("Contact data set", "c1"), reference("Unknown", "x")]),
        ),
    ]);
    let set = references_of(&document);
    assert_eq!(set.len(), 2);
    assert_eq!(
        set.get(0),
        &("contact:c1:01.00.000".to_owned(), "$/exchanges/0".to_owned())
    );
    assert_eq!(set.get(1), &("flow:f1:01.00.000".to_owned(), "$/flow".to_owned()));

    let unversioned = object(vec![(
        "x",
        object(vec![("@refObjectId", text("Z")), ("@type", text("source data set"))]),
    )]);
    let mut set = ReferenceSet::new();
    assert!(matches!(
        walk_references(&unversioned, "$", None, &mut set),
        Err(ReleaseError::ReferenceVersionMissing(message))
            if message == "$/x -> source data set Z"
    ));
}

#[test]
fn reference_types_and_preceding_version_keys() {
    assert_eq!(reference_dataset_type("LCIA Method Data Set"), Some("lciamethod"));
    assert_eq!(reference_dataset_type("life cycle model data set"), Some("lifecyclemodel"));
    assert_eq!(reference_dataset_type("other"), None);
    assert!(is_preceding_version_reference("common:REFERENCETOPRECEDINGDATASETVERSION"));
    assert!(is_preceding_version_reference("referenceToPrecedingDataSetVersion"));
    assert!(!is_preceding_version_reference("referenceToPrecedingDataSetVersion:x"));
}

fn walk_to_end(
    index: &DatasetIndex,
    profile: ReleaseProfile,
    documents: &dyn Fn(&DatasetEntry) -> JsonValue,
) -> Result<(Vec<DatasetEntry>, tidas_tools::release::ReferenceClosureReportV1), ReleaseError> {
    let mut walk = ClosureWalk::start(index, profile)?;
    while let Some(current) = walk.next(index) {
        let references = references_of(&documents(&current));
        walk.visit(index, &references)?;
    }
    Ok(walk.finish())
}

fn release_index() -> DatasetIndex {
    let mut index = DatasetIndex::new();
    index.add(entry("process", "unit_process", "p1", "processes/p1.json")).unwrap();
    index.add(entry("flow", "flow", "f1", "flows/f1.json")).unwrap();
    index.add(entry("flowproperty", "flow_property", "fp", "flowproperties/fp.json")).unwrap();
    index.add(entry("contact", "contact", "unused", "contacts/unused.json")).unwrap();
    index.add(entry("lifecyclemodel", "lifecycle_model", "m1", "models/m1.json")).unwrap();
    index
}

fn release_documents(entry: &DatasetEntry) -> JsonValue {
    match entry.uuid.as_str() {
        "p1" => object(vec![(
            "exchanges",
            JsonValue::Array(vec![reference("flow data set", "F1"), reference("flow data set", "f1")]),
        )]),
        "f1" => object(vec![
            ("property", reference("flow property data set", "fp")),
            ("back", reference("process data set", "p1")),
        ]),
        "m1" => object(vec![("process", reference("process data set", "p1"))]),
        _ => object(vec![]),
    }
}

#[test]
fn closure_selects_exactly_the_referenced_datasets() {
    let index = release_index();
    let (entries, report) = walk_to_end(&index, ReleaseProfile::UnitProcess, &release_documents).unwrap();
    let keys: Vec<String> = entries.iter().map(|entry| entry.key()).collect();
    assert_eq!(
        keys,
        vec![
            "flow:f1:01.00.000".to_owned(),
            "flowproperty:fp:01.00.000".to_owned(),
            "process:p1:01.00.000".to_owned(),
        ]
    );
    assert_eq!(report.profile_id, UNIT_PROFILE);
    assert_eq!(report.root_count, 1);
    assert_eq!(report.dataset_count, 3);
    assert_eq!(report.reference_count, 4);
    assert_eq!(report.dataset_keys, keys);
    assert!(!report.dataset_keys_truncated);
    let expected_hash = tidas_tools::runtime::digest_hex(&tidas_tools::runtime::sha256_of(
        &serde_json::to_vec(&keys).unwrap(),
    ));
    assert_eq!(report.closure_sha256, expected_hash);

    let (result_entries, result_report) =
        walk_to_end(&index, ReleaseProfile::StandaloneResult, &release_documents).unwrap();
    assert_eq!(result_report.profile_id, RESULT_PROFILE);
    assert_eq!(result_entries.len(), 4);
    assert!(verify_result_contains_unit(&entries, &result_entries).is_ok());
    assert!(matches!(
        verify_result_contains_unit(&result_entries, &entries),
        Err(ReleaseError::StandaloneMissingUnitClosure(key)) if key == "lifecyclemodel:m1:01.00.000"
    ));
}

#[test]
fn closure_reports_a_reference_outside_the_index() {
    let mut index = DatasetIndex::new();
    index.add(entry("process", "unit_process", "p1", "processes/p1.json")).unwrap();
    let documents = |_: &DatasetEntry| {
        object(vec![
            ("a", reference("flow data set", "missing-a")),
            ("b", reference("flow data set", "missing-b")),
        ])
    };
    assert!(matches!(
        walk_to_end(&index, ReleaseProfile::UnitProcess, &documents),
        Err(ReleaseError::ReferenceClosureMissing(message))
            if message == "process:p1:01.00.000 $/b -> flow:missing-b:01.00.000"
    ));
}

#[test]
fn profile_without_roots_is_rejected() {
    let mut index = DatasetIndex::new();
    index.add(entry("flow", "flow", "f1", "flows/f1.json")).unwrap();
    assert!(matches!(
        ClosureWalk::start(&index, ReleaseProfile::StandaloneResult),
        Err(ReleaseError::ProfileRootsMissing(profile)) if profile == RESULT_PROFILE
    ));
}

#[test]
fn mismatches_are_counted_and_kept_up_to_the_inline_limit() {
    let mut mismatches = Vec::new();
    let mut count = 0_u64;
    for index in 0..300 {
        record_mismatch(
            &mut mismatches,
            &mut count,
            RoundtripMismatchV1 {
                path: format!("{index}.json"),
                location: "$".to_owned(),
                code: "value_mismatch".to_owned(),
            },
        )
        .unwrap();
    }
    assert_eq!(count, 300);
    assert_eq!(mismatches.len(), 256);
    let mut full = u64::MAX;
    assert!(matches!(
        record_mismatch(
            &mut mismatches,
            &mut full,
            RoundtripMismatchV1 {
                path: String::new(),
                location: String::new(),
                code: String::new(),
            },
        ),
        Err(ReleaseError::SizeOverflow)
    ));
}

#[test]
fn requests_name_their_action_and_profiles_their_id() {
    let request = ReleaseRequest::ValidateClosure {
        input_dir: "in".to_owned(),
        dataset_index: "index.json".to_owned(),
        profile: ReleaseProfile::UnitProcess,
    };
    assert_eq!(request.action(), ReleaseAction::ValidateClosure);
    assert_eq!(
        ReleaseRequest::ConvertIlcd {
            input_dir: "in".to_owned(),
            output_dir: "out".to_owned(),
        }
        .action(),
        ReleaseAction::ConvertIlcd
    );
    assert_eq!(ReleaseProfile::UnitProcess.id(), UNIT_PROFILE);
    assert_eq!(ReleaseProfile::StandaloneResult.id(), RESULT_PROFILE);
}

fn package(profile: &str, format: ReleaseDataFormat, sha: &str) -> ReleasePackageV1 {
    ReleasePackageV1 {
        profile_id: profile.to_owned(),
        format,
        self_contained: true,
        closure_sha256: String::new(),
        dataset_count: 0,
        artifact: ReleaseArtifactV1 {
            path: String::new(),
            media_type: String::new(),
            sha256: sha.to_owned(),
            bytes: 0,
            member_count: 0,
        },
    }
}

#[test]
fn artifact_set_hash_digests_length_prefixed_package_records() {
    let packages = vec![
        package("complete", ReleaseDataFormat::Tidas, "aa"),
        package("complete", ReleaseDataFormat::Ilcd, "bb"),
    ];
    let mut hasher = Sha256::new();
    for value in ["complete", "tidas", "aa", "complete", "ilcd", "bb"] {
        hasher.update((value.len() as u64).to_le_bytes());
        hasher.update(value.as_bytes());
    }
    let expected: String = hasher
        .finalize()
        .iter()
        .map(|byte| format!("{byte:02x}"))
        .collect();
    assert_eq!(artifact_set_hash(&packages), expected);
    assert_eq!(
        artifact_set_hash(&Vec::new()),
        "e3b0c44298fc1c149afbf4c8996fb92427ae41e4649b934ca495991b7852b855"
    );
    let first_only = vec![package("complete", ReleaseDataFormat::Tidas, "aa")];
    assert_ne!(artifact_set_hash(&first_only), expected);
}

#[test]
fn portable_paths_join_components_and_refuse_escapes() {
    assert_eq!(portable("tidas/processes/a.json").unwrap(), "tidas/processes/a.json");
    assert_eq!(portable("tidas//processes/./a.json").unwrap(), "tidas/processes/a.json");
    assert!(matches!(portable("../a.json"), Err(ReleaseError::UnsafePath(p)) if p == "../a.json"));
    assert!(matches!(portable("/abs/a.json"), Err(ReleaseError::UnsafePath(_))));
}

#[test]
fn release_output_may_not_overlap_its_input() {
    assert!(reject_overlapping_output("/data/in", "/data/out").is_ok());
    assert!(reject_overlapping_output("/data/in", "/data/input").is_ok());
    match reject_overlapping_output("/data/in", "/data/in/out") {
        Err(ReleaseError::OutputInsideInput(path)) => assert_eq!(path, "/data/in/out"),
        other => panic!("unexpected: {other:?}"),
    }
    assert!(matches!(reject_overlapping_output("/data/in", "/data"), Err(ReleaseError::OutputInsideInput(_))));
    assert!(matches!(reject_overlapping_output("/data/in", "/data/in"), Err(ReleaseError::OutputInsideInput(_))));
}
