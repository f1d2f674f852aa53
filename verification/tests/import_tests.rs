use tidas_tools::adapters::{AdapterContext, AdapterError, adapter_for};
use tidas_tools::detect::{DetectedFormat, DetectionConfidence, SourceFormat};
use tidas_tools::pipeline::{
    ImportCoreError, ImportExecutionError, ImportRequest, ImportTarget, adapter_for_detected,
    check_import_request, core_report, ensure_valid, reject_nested_output,
};
use tidas_tools::report::{ImportReportV1, IssueSeverity, IssueSpool};
use tidas_tools::runtime::{CancellationToken, MemoryBudget, RuntimeError};
use tidas_tools::source::{
    EntryDecision, SourceReadError, SourceReadRequest, SourceReadSummary, admit_archive_entry,
    admit_entry, check_read, extension_allowed, stable_path_key, zip_entry_is_symlink,
};
use tidas_tools::writers::{compliance_source_id, contact_id, format_source_id, stable_id};

fn read_request() -> SourceReadRequest {
    SourceReadRequest {
        source: "/data".to_owned(),
        allowed_extensions: vec!["json".to_owned(), "XML".to_owned()],
        max_entry_bytes: 1024,
    }
}

#[test]
fn stable_ids_are_name_based_uuids() {
    let expected = uuid::Uuid::new_v5(&uuid::Uuid::NAMESPACE_URL, b"tidas-tools/import/contact").to_string();
    assert_eq!(contact_id(), expected);
    assert_eq!(contact_id(), stable_id("tidas-tools/import/contact"));
    assert_ne!(contact_id(), format_source_id());
    assert_ne!(format_source_id(), compliance_source_id());
    let id = compliance_source_id();
    assert_eq!(id.len(), 36);
    assert_eq!(&id[14..15], "5");
    assert_ne!(stable_id("a"), "a");
}

#[test]
fn entries_are_admitted_by_kind_extension_and_size() {
    let request = read_request();
    assert!(matches!(admit_entry(&request, "a.json", true, true, 1), Err(SourceReadError::Symlink(p)) if p == "a.json"));
    assert_eq!(admit_entry(&request, "dir", false, false, 0).unwrap(), EntryDecision::Skip);
    assert_eq!(admit_entry(&request, "a.csv", false, true, 1).unwrap(), EntryDecision::Skip);
    assert_eq!(admit_entry(&request, "a.Xml", false, true, 1024).unwrap(), EntryDecision::Read);
    assert!(matches!(
        admit_entry(&request, "a.json", false, true, 1025),
        Err(SourceReadError::EntryTooLarge { actual: 1025, limit: 1024, .. })
    ));
    assert!(extension_allowed("dir/b.JSON", &request.allowed_extensions));
    assert!(!extension_allowed("dir/.json", &request.allowed_extensions));
    assert!(matches!(check_read(1025, 1024), Err(SourceReadError::EntryTooLarge { path, .. }) if path == "<stream>"));
    assert!(check_read(1024, 1024).is_ok());
}

#[test]
fn zip_entries_are_bounded_and_unsafe_names_are_rejected() {
    let request = read_request();
    assert!(matches!(
        admit_archive_entry(&request, "../escape.json", None, false, None, 1),
        Err(SourceReadError::UnsafeArchivePath(name)) if name == "../escape.json"
    ));
    assert!(matches!(
        admit_archive_entry(&request, "link.json", Some("link.json"), false, Some(0o120777), 1),
        Err(SourceReadError::ArchiveSymlink(_))
    ));
    assert_eq!(
        admit_archive_entry(&request, "dir/", Some("dir"), true, None, 0).unwrap(),
        EntryDecision::Skip
    );
    assert_eq!(
        admit_archive_entry(&request, "a.json", Some("a.json"), false, Some(0o100644), 10).unwrap(),
        EntryDecision::Read
    );
    assert!(zip_entry_is_symlink(Some(0o120644)));
    assert!(!zip_entry_is_symlink(Some(0o100644)));
    assert!(!zip_entry_is_symlink(None));
}

#[test]
fn stable_keys_and_summaries() {
    assert_eq!(stable_path_key("./a//b/../c.json"), "a/b/c.json");
    assert_eq!(stable_path_key("/root/x.json"), "root/x.json");
    let mut summary = SourceReadSummary::new();
    summary.count(2);
    summary.count(u64::MAX);
    assert_eq!(summary.entries_visited, 2);
    assert_eq!(summary.bytes_read, u64::MAX);
}

#[test]
fn targets_and_adapters() {
    assert!(ImportTarget::Both.includes_ilcd() && ImportTarget::Both.keeps_tidas());
    assert!(!ImportTarget::Tidas.includes_ilcd());
    assert!(!ImportTarget::Ilcd.keeps_tidas());
    assert_eq!(adapter_for(SourceFormat::SimaproCsv).unwrap().format(), SourceFormat::SimaproCsv);
    assert!(adapter_for(SourceFormat::Unknown).is_none());
    assert!(matches!(adapter_for_detected(SourceFormat::UnsupportedZolca), Err(ImportCoreError::ZolcaUnsupported)));
    assert!(matches!(adapter_for_detected(SourceFormat::Unknown), Err(ImportCoreError::UnknownFormat)));
    assert_eq!(adapter_for_detected(SourceFormat::Ilcd).unwrap().format(), SourceFormat::Ilcd);
}

#[test]
fn expansion_reservations_are_checked() {
    let context = AdapterContext { source: "x".to_owned(), max_entry_bytes: 10 };
    let mut budget = MemoryBudget::new(100);
    let reservation = context.reserve_structured_expansion(&mut budget, 10, 4).unwrap();
    assert_eq!(reservation.bytes(), 40);
    assert_eq!(budget.used(), 40);
    assert!(matches!(
        context.reserve_structured_expansion(&mut budget, 10, u64::MAX),
        Err(AdapterError::Runtime(RuntimeError::SizeOverflow))
    ));
    assert!(matches!(
        context.reserve_structured_expansion(&mut budget, 20, 4),
        Err(AdapterError::Runtime(RuntimeError::BudgetExceeded { .. }))
    ));
}

fn import_request(source: &str, output: &str, queue_capacity: usize) -> ImportRequest {
    ImportRequest {
        source: source.to_owned(),
        requested_format: None,
        output_dir: output.to_owned(),
        target: ImportTarget::Both,
        write_mapping: true,
        write_process_bundles: true,
        cancellation: CancellationToken::new(),
        memory_budget: MemoryBudget::new(1024),
        queue_capacity,
        max_entry_bytes: 1024,
        max_issue_bytes: 1024,
    }
}

#[test]
fn nested_output_and_empty_queue_are_rejected() {
    assert!(matches!(
        check_import_request(&import_request("/src", "/out", 0), true),
        Err(ImportExecutionError::ZeroQueueCapacity)
    ));
    assert!(matches!(
        check_import_request(&import_request("/src", "/src/out", 2), true),
        Err(ImportExecutionError::OutputNestedInSource(path)) if path == "/src/out"
    ));
    assert!(check_import_request(&import_request("/src", "/src/out", 2), false).is_ok());
    assert!(check_import_request(&import_request("/src", "/srcx/out", 2), true).is_ok());
    assert!(reject_nested_output(true, "./src", "src/out").is_ok());
    assert!(reject_nested_output(true, "src/", "src//out").is_err());
    assert!(matches!(
        ensure_valid("ilcd", false, 3),
        Err(ImportExecutionError::GeneratedPackageInvalid { format: "ilcd", issues: 3 })
    ));
}

#[test]
fn issue_spool_counts_by_severity() {
    let mut spool = IssueSpool::new(64);
    let mut written = Vec::new();
    for (severity, event) in [
        (IssueSeverity::Warning, b"{\"code\":\"w\"}".as_slice()),
        (IssueSeverity::Error, b"{\"code\":\"e\"}".as_slice()),
        (IssueSeverity::Note, b"{\"code\":\"n\"}".as_slice()),
    ] {
        let line = spool.prepare(event).unwrap();
        written.extend_from_slice(&line);
        spool.record(severity, &line).unwrap();
    }
    let summary = spool.finish();
    assert_eq!((summary.issue_count, summary.warning_count, summary.error_count), (3, 1, 1));
    assert_eq!(summary.spool.event_count, 3);
    assert_eq!(summary.spool.bytes, written.len() as u64);

    let report = core_report(
        "/data/source.csv".to_owned(),
        DetectedFormat {
            format: SourceFormat::SimaproCsv,
            confidence: DetectionConfidence::High,
            evidence: vec!["source.csv: first line starts with '{SimaPro '".to_owned()],
        },
        vec![("processes".to_owned(), 1)],
        &summary,
        42,
    );
    assert_eq!(report.schema_version, "tidas.import-report.v1");
    assert_eq!(report.target, "tidas");
    assert_eq!((report.warning_count, report.error_count, report.issues_spooled), (1, 1, 3));
    assert_eq!(report.peak_accounted_memory_bytes, 42);

    let fresh = ImportReportV1::new("x".to_owned(), SourceFormat::Ilcd, Vec::new());
    assert!(fresh.object_counts.is_empty());
    assert_eq!(fresh.output_bytes, None);
}
