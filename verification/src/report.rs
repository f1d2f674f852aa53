//! Import reports and the spool of import issues.
use vstd::prelude::*;

use crate::detect::SourceFormat;
use crate::json::JsonValue;
use crate::runtime::{JsonlSpool, RuntimeError, SpoolSummaryV1, sha256};
use crate::text::hex;
use crate::text::owned;

verus! {

pub const IMPORT_REPORT_SCHEMA_V1: &'static str = "tidas.import-report.v1";

/// How serious an import issue is.
#[derive(Clone, Copy, Debug, PartialEq, Eq, Structural)]
pub enum IssueSeverity {
    Note,
    Warning,
    Error,
}

/// One issue found while importing.
#[derive(Debug)]
pub struct ImportIssue {
    pub severity: IssueSeverity,
    pub code: String,
    pub message: String,
    pub source_object: Option<String>,
    pub context: Vec<(String, JsonValue)>,
}

/// A spool of issues that counts them by severity. The caller encodes each issue,
/// writes the line the spool prepares, and records it with its severity.
pub struct IssueSpool {
    spool: JsonlSpool,
    issue_count: u64,
    warning_count: u64,
    error_count: u64,
}

/// The counts of a finished issue spool and the summary of its lines.
#[derive(Debug)]
pub struct IssueSpoolSummary {
    pub issue_count: u64,
    pub warning_count: u64,
    pub error_count: u64,
    pub spool: SpoolSummaryV1,
}

/// A count that stops at the largest `u64`.
pub open spec fn bumped(n: u64) -> u64 {
    if n == u64::MAX {
        n
    } else {
        (n + 1) as u64
    }
}

impl IssueSpool {
    pub closed spec fn wf(self) -> bool {
        self.spool.wf()
    }

    pub closed spec fn counts(self) -> (u64, u64, u64) {
        (self.issue_count, self.warning_count, self.error_count)
    }

    pub closed spec fn lines(self) -> Seq<u8> {
        self.spool.recorded()
    }

    pub closed spec fn events(self) -> nat {
        self.spool.events()
    }

    pub closed spec fn max_event(self) -> nat {
        self.spool.max_event()
    }

    /// An empty spool whose lines may hold at most `max_event_bytes` bytes.
    pub fn new(max_event_bytes: usize) -> (s: Self)
        ensures
            s.wf(),
            s.counts() == (0u64, 0u64, 0u64),
            s.lines() == Seq::<u8>::empty(),
            s.events() == 0,
            s.max_event() == max_event_bytes,
    {
        IssueSpool {
            spool: JsonlSpool::new(max_event_bytes),
            issue_count: 0,
            warning_count: 0,
            error_count: 0,
        }
    }

    /// The line for one encoded issue (see `JsonlSpool::prepare`).
    pub fn prepare(&self, encoded: &[u8]) -> (r: Result<Vec<u8>, RuntimeError>)
        ensures
            r is Ok <==> encoded@.len() + 1 <= self.max_event(),
            r matches Ok(line) ==> line@ == encoded@.push(10u8),
            r matches Err(e) ==> e == (RuntimeError::EventTooLarge {
                actual: (encoded@.len() + 1) as usize,
                limit: self.max_event() as usize,
            }),
    {
        self.spool.prepare(encoded)
    }

    /// Records a written issue line: the spool takes the line, the issue count
    /// grows, and so does the warning or error count for those severities (each
    /// count stops at the largest `u64`).
    pub fn record(&mut self, severity: IssueSeverity, line: &[u8]) -> (r: Result<(), RuntimeError>)
        requires
            old(self).wf(),
        ensures
            final(self).wf(),
            final(self).max_event() == old(self).max_event(),
            r is Ok <==> old(self).events() < u64::MAX && old(self).lines().len() + line@.len()
                <= u64::MAX,
            r is Ok ==> final(self).lines() == old(self).lines() + line@ && final(self).events()
                == old(self).events() + 1 && final(self).counts() == ({
                let (i, w, e) = old(self).counts();
                (
                    bumped(i),
                    if severity == IssueSeverity::Warning { bumped(w) } else { w },
                    if severity == IssueSeverity::Error { bumped(e) } else { e },
                )
            }),
            r is Err ==> final(self).lines() == old(self).lines() && final(self).counts() == old(
                self,
            ).counts() && final(self).events() == old(self).events(),
            r matches Err(e) ==> e is SizeOverflow,
    {
        match self.spool.record(line) {
            Ok(()) => {},
            Err(e) => return Err(e),
        }
        self.issue_count = self.issue_count.saturating_add(1);
        match severity {
            IssueSeverity::Note => {},
            IssueSeverity::Warning => {
                self.warning_count = self.warning_count.saturating_add(1);
            },
            IssueSeverity::Error => {
                self.error_count = self.error_count.saturating_add(1);
            },
        }
        Ok(())
    }

    /// The counts and the summary of every recorded line.
    pub fn finish(self) -> (s: IssueSpoolSummary)
        requires
            self.wf(),
        ensures
            (s.issue_count, s.warning_count, s.error_count) == self.counts(),
            s.spool.event_count == self.events(),
            s.spool.bytes == self.lines().len(),
            s.spool.sha256@ == hex(sha256(self.lines())),
    {
        let IssueSpool { spool, issue_count, warning_count, error_count } = self;
        IssueSpoolSummary { issue_count, warning_count, error_count, spool: spool.finish() }
    }
}

/// The report of one import.
#[derive(Debug)]
pub struct ImportReportV1 {
    pub schema_version: String,
    pub source_path: String,
    pub detected_format: SourceFormat,
    pub detection_evidence: Vec<String>,
    pub target: String,
    pub object_counts: Vec<(String, u64)>,
    pub warning_count: u64,
    pub error_count: u64,
    pub issues_spooled: u64,
    pub output_tree_sha256: Option<String>,
    pub output_bytes: Option<u64>,
    pub peak_accounted_memory_bytes: u64,
}

impl ImportReportV1 {
    /// A report of a detected source that has counted nothing yet.
    pub fn new(source_path: String, detected_format: SourceFormat, detection_evidence: Vec<String>) -> (r: Self)
        ensures
            r.schema_version@ == IMPORT_REPORT_SCHEMA_V1@,
            r.source_path == source_path,
            r.detected_format == detected_format,
            r.detection_evidence == detection_evidence,
            r.target@ == "tidas"@,
            r.object_counts@.len() == 0,
            r.warning_count == 0,
            r.error_count == 0,
            r.issues_spooled == 0,
            r.output_tree_sha256 is None,
            r.output_bytes is None,
            r.peak_accounted_memory_bytes == 0,
    {
        ImportReportV1 {
            schema_version: owned(IMPORT_REPORT_SCHEMA_V1),
            source_path,
            detected_format,
            detection_evidence,
            target: owned("tidas"),
            object_counts: Vec::new(),
            warning_count: 0,
            error_count: 0,
            issues_spooled: 0,
            output_tree_sha256: None,
            output_bytes: None,
            peak_accounted_memory_bytes: 0,
        }
    }
}

} // verus!
