//! The import pipeline's decisions: what a request must hold, which detected
//! formats can be imported, which outputs a target keeps, and what the report
//! says once the source has been read.
use vstd::prelude::*;

use crate::adapters::{Adapter, adapter_for};
use crate::detect::{DetectedFormat, SourceFormat};
use crate::paths::{path_starts_with, starts_with_path};
use crate::report::{ImportReportV1, IssueSpoolSummary};
use crate::runtime::{CancellationToken, MemoryBudget};
use crate::text::owned;

verus! {

/// Which packages an import produces.
#[derive(Clone, Copy, Debug, PartialEq, Eq, Structural)]
pub enum ImportTarget {
    Tidas,
    Ilcd,
    Both,
}

impl ImportTarget {
    /// Whether the import converts to ILCD.
    pub fn includes_ilcd(self) -> (r: bool)
        ensures
            r <==> (self == ImportTarget::Ilcd || self == ImportTarget::Both),
    {
        match self {
            ImportTarget::Ilcd | ImportTarget::Both => true,
            ImportTarget::Tidas => false,
        }
    }

    /// Whether the import keeps its TIDAS package.
    pub fn keeps_tidas(self) -> (r: bool)
        ensures
            r <==> (self == ImportTarget::Tidas || self == ImportTarget::Both),
    {
        match self {
            ImportTarget::Tidas | ImportTarget::Both => true,
            ImportTarget::Ilcd => false,
        }
    }
}

/// A complete import request.
pub struct ImportRequest {
    pub source: String,
    pub requested_format: Option<SourceFormat>,
    pub output_dir: String,
    pub target: ImportTarget,
    pub write_mapping: bool,
    pub write_process_bundles: bool,
    pub cancellation: CancellationToken,
    pub memory_budget: MemoryBudget,
    pub queue_capacity: usize,
    pub max_entry_bytes: u64,
    pub max_issue_bytes: usize,
}

/// The part of a request that reading the source needs.
pub struct ImportCoreRequest {
    pub source: String,
    pub requested_format: Option<SourceFormat>,
    pub spool_parent: Option<String>,
    pub max_entry_bytes: u64,
    pub max_issue_bytes: usize,
}

/// Why reading the source stopped.
#[derive(Debug)]
pub enum ImportCoreError {
    ZolcaUnsupported,
    UnknownFormat,
    AdapterUnavailable(SourceFormat),
    ZeroIssueLimit,
    Runtime(String),
    Detection(String),
    Store(String),
    Adapter(String),
    Issue(String),
}

/// Why an import stopped.
#[derive(Debug)]
pub enum ImportExecutionError {
    ZeroQueueCapacity,
    OutputNestedInSource(String),
    GeneratedPackageInvalid { format: &'static str, issues: u64 },
    SourceIssues { count: u64 },
    CommitRollback { source: String, restore: String },
    Io(String),
    Json(String),
    Runtime(String),
    Core(ImportCoreError),
    Package(String),
    Conversion(String),
    Validation(String),
    Mapping(String),
    Bundles(String),
}

/// A core request must allow issue lines of at least one byte.
pub fn check_core_request(request: &ImportCoreRequest) -> (r: Result<(), ImportCoreError>)
    ensures
        r is Ok <==> request.max_issue_bytes > 0,
        r matches Err(e) ==> e is ZeroIssueLimit,
{
    if request.max_issue_bytes == 0 {
        Err(ImportCoreError::ZeroIssueLimit)
    } else {
        Ok(())
    }
}

/// The adapter for a detected format: the unsupported archive and an unknown
/// format are errors.
pub fn adapter_for_detected(format: SourceFormat) -> (r: Result<Adapter, ImportCoreError>)
    ensures
        format == SourceFormat::UnsupportedZolca ==> (r matches Err(e) && e is ZolcaUnsupported),
        format == SourceFormat::Unknown ==> (r matches Err(e) && e is UnknownFormat),
        format != SourceFormat::UnsupportedZolca && format != SourceFormat::Unknown ==> (r matches Ok(
            a,
        ) && a.spec_format() == format),
{
    match format {
        SourceFormat::UnsupportedZolca => return Err(ImportCoreError::ZolcaUnsupported),
        SourceFormat::Unknown => return Err(ImportCoreError::UnknownFormat),
        _ => {},
    }
    match adapter_for(format) {
        Some(a) => Ok(a),
        None => Err(ImportCoreError::AdapterUnavailable(format)),
    }
}

/// The report of a read source: the detection, the counts of the canonical
/// objects, the issue counts, and the peak of accounted memory.
pub fn core_report(
    source: String,
    detected: DetectedFormat,
    object_counts: Vec<(String, u64)>,
    issues: &IssueSpoolSummary,
    peak: u64,
) -> (r: ImportReportV1)
    ensures
        r.source_path == source,
        r.detected_format == detected.format,
        r.detection_evidence == detected.evidence,
        r.object_counts == object_counts,
        r.warning_count == issues.warning_count,
        r.error_count == issues.error_count,
        r.issues_spooled == issues.issue_count,
        r.peak_accounted_memory_bytes == peak,
        r.target@ == "tidas"@,
        r.schema_version@ == crate::report::IMPORT_REPORT_SCHEMA_V1@,
        r.output_tree_sha256 is None,
        r.output_bytes is None,
{
    let mut report = ImportReportV1::new(source, detected.format, detected.evidence);
    report.object_counts = object_counts;
    report.warning_count = issues.warning_count;
    report.error_count = issues.error_count;
    report.issues_spooled = issues.issue_count;
    report.peak_accounted_memory_bytes = peak;
    report
}

/// An import request needs a queue, and its output may not lie inside a source
/// directory (compared by path components).
pub fn check_import_request(request: &ImportRequest, source_is_dir: bool) -> (r: Result<
    (),
    ImportExecutionError,
>)
    ensures
        request.queue_capacity == 0 ==> (r matches Err(e) && e is ZeroQueueCapacity),
        request.queue_capacity > 0 ==> (r is Ok <==> !(source_is_dir && path_starts_with(
            request.output_dir@,
            request.source@,
        ))),
        request.queue_capacity > 0 && r is Err ==> (r matches Err(
            ImportExecutionError::OutputNestedInSource(p),
        ) && p@ == request.output_dir@),
{
    if request.queue_capacity == 0 {
        return Err(ImportExecutionError::ZeroQueueCapacity);
    }
    reject_nested_output(source_is_dir, request.source.as_str(), request.output_dir.as_str())
}

/// The output of an import may not lie inside its source directory.
pub fn reject_nested_output(source_is_dir: bool, source: &str, output: &str) -> (r: Result<
    (),
    ImportExecutionError,
>)
    ensures
        r is Ok <==> !(source_is_dir && path_starts_with(output@, source@)),
        r matches Err(e) ==> (e matches ImportExecutionError::OutputNestedInSource(p) && p@
            == output@),
{
    if source_is_dir && starts_with_path(output, source) {
        return Err(ImportExecutionError::OutputNestedInSource(owned(output)));
    }
    Ok(())
}

/// A source with error issues produces no package.
pub fn check_source_issues(issues: &IssueSpoolSummary) -> (r: Result<(), ImportExecutionError>)
    ensures
        r is Ok <==> issues.error_count == 0,
        r matches Err(e) ==> (e matches ImportExecutionError::SourceIssues { count } && count
            == issues.error_count),
{
    if issues.error_count > 0 {
        Err(ImportExecutionError::SourceIssues { count: issues.error_count })
    } else {
        Ok(())
    }
}

/// A generated package must validate.
pub fn ensure_valid(format: &'static str, ok: bool, issue_count: u64) -> (r: Result<
    (),
    ImportExecutionError,
>)
    ensures
        r is Ok <==> ok,
        r matches Err(e) ==> (e matches ImportExecutionError::GeneratedPackageInvalid {
            format: f,
            issues,
        } && f == format && issues == issue_count),
{
    if ok {
        Ok(())
    } else {
        Err(ImportExecutionError::GeneratedPackageInvalid { format, issues: issue_count })
    }
}

} // verus!
