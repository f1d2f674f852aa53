//! Process bundles: the dependencies that each exchange of a process pulls into
//! the process's bundle, decided one answer at a time as the package files and
//! the store answer, and the totals of a run.
use vstd::prelude::*;
use vstd::string::StringSliceAdditionalSpecFns;

use crate::table::TextMap;
use crate::text::owned;
use crate::writers::{compliance_source_id, contact_id, format_source_id, uuid_v5_url};

verus! {

/// What a run of the bundle writer did.
#[derive(Debug, Clone, Copy, PartialEq, Eq, Structural)]
pub struct ProcessBundleReportV1 {
    pub process_count: u64,
    pub unresolved_reference_count: u64,
    pub peak_accounted_memory_bytes: u64,
}

/// Where the walk of one exchange's dependencies stands.
#[derive(Debug)]
pub enum ExchangeWalk {
    /// Nothing is known of the exchange yet.
    Start,
    /// The exchange's flow was asked to be copied into the bundle.
    CopyingFlow(String),
    /// The flow's property reference was asked for.
    ReadingFlow(String),
    /// The flow's property was asked to be copied.
    CopyingProperty(String),
    /// The property's unit group reference was asked for.
    ReadingProperty(String),
    /// The property's unit group was asked to be copied.
    CopyingUnitGroup(String),
    /// The exchange is done.
    Done,
}

/// An answer from outside.
#[derive(Debug)]
pub enum WalkEvent {
    /// The exchange, by its `flowRefId` string (none where it has none).
    Exchange(Option<String>),
    /// Whether the dependency asked for was present, and is now in the bundle.
    Copied(bool),
    /// The reference read from the stored entity (none where there is no such
    /// entity, or it has no such string member).
    Read(Option<String>),
}

/// What to do next.
#[derive(Debug)]
pub enum WalkAction {
    /// Record that the exchange names no flow: category `flows`, an empty id,
    /// path `exchange.flowRefId`.
    RecordMissingFlowRef,
    /// Copy the dependency (category, id) into the bundle; a missing file is
    /// recorded as an unresolved dependency.
    Copy(&'static str, String),
    /// Read a string member of a stored entity (category, id, member).
    Read(&'static str, String, &'static str),
    /// Nothing more for this exchange.
    Finish,
}

/// The next state, the action and whether the exchange counts one more
/// unresolved reference: an exchange without a flow, or a flow, property or
/// unit group that is not in the package, is unresolved; a flow or property
/// that the store does not know, or that names nothing further, ends the walk.
pub open spec fn walk_step(walk: ExchangeWalk, event: WalkEvent) -> (ExchangeWalk, WalkAction, bool) {
    match (walk, event) {
        (ExchangeWalk::Start, WalkEvent::Exchange(None)) => (ExchangeWalk::Done, WalkAction::RecordMissingFlowRef, true),
        (ExchangeWalk::Start, WalkEvent::Exchange(Some(f))) => (ExchangeWalk::CopyingFlow(f), WalkAction::Copy("flows", f), false),
        (ExchangeWalk::CopyingFlow(f), WalkEvent::Copied(present)) => if present {
            (ExchangeWalk::ReadingFlow(f), WalkAction::Read("flows", f, "flowPropertyRefId"), false)
        } else {
            (ExchangeWalk::Done, WalkAction::Finish, true)
        },
        (ExchangeWalk::ReadingFlow(_), WalkEvent::Read(Some(p))) => (
            ExchangeWalk::CopyingProperty(p),
            WalkAction::Copy("flowproperties", p),
            false,
        ),
        (ExchangeWalk::CopyingProperty(p), WalkEvent::Copied(present)) => if present {
            (ExchangeWalk::ReadingProperty(p), WalkAction::Read("flowproperties", p, "unitGroupRefId"), false)
        } else {
            (ExchangeWalk::Done, WalkAction::Finish, true)
        },
        (ExchangeWalk::ReadingProperty(_), WalkEvent::Read(Some(g))) => (
            ExchangeWalk::CopyingUnitGroup(g),
            WalkAction::Copy("unitgroups", g),
            false,
        ),
        (ExchangeWalk::CopyingUnitGroup(_), WalkEvent::Copied(present)) => (ExchangeWalk::Done, WalkAction::Finish, !present),
        _ => (ExchangeWalk::Done, WalkAction::Finish, false),
    }
}

/// One step of an exchange's walk (see `walk_step`).
pub fn step(walk: ExchangeWalk, event: WalkEvent) -> (r: (ExchangeWalk, WalkAction, bool))
    ensures
        r == walk_step(walk, event),
{
    match (walk, event) {
        (ExchangeWalk::Start, WalkEvent::Exchange(None)) => (ExchangeWalk::Done, WalkAction::RecordMissingFlowRef, true),
        (ExchangeWalk::Start, WalkEvent::Exchange(Some(f))) => {
            let g = f.clone();
            (ExchangeWalk::CopyingFlow(f), WalkAction::Copy("flows", g), false)
        },
        (ExchangeWalk::CopyingFlow(f), WalkEvent::Copied(present)) => if present {
            let g = f.clone();
            (ExchangeWalk::ReadingFlow(f), WalkAction::Read("flows", g, "flowPropertyRefId"), false)
        } else {
            (ExchangeWalk::Done, WalkAction::Finish, true)
        },
        (ExchangeWalk::ReadingFlow(_), WalkEvent::Read(Some(p))) => {
            let q = p.clone();
            (ExchangeWalk::CopyingProperty(p), WalkAction::Copy("flowproperties", q), false)
        },
        (ExchangeWalk::CopyingProperty(p), WalkEvent::Copied(present)) => if present {
            let q = p.clone();
            (ExchangeWalk::ReadingProperty(p), WalkAction::Read("flowproperties", q, "unitGroupRefId"), false)
        } else {
            (ExchangeWalk::Done, WalkAction::Finish, true)
        },
        (ExchangeWalk::ReadingProperty(_), WalkEvent::Read(Some(g))) => {
            let h = g.clone();
            (ExchangeWalk::CopyingUnitGroup(g), WalkAction::Copy("unitgroups", h), false)
        },
        (ExchangeWalk::CopyingUnitGroup(_), WalkEvent::Copied(present)) => (ExchangeWalk::Done, WalkAction::Finish, !present),
        _ => (ExchangeWalk::Done, WalkAction::Finish, false),
    }
}

/// The number of unresolved references counted while a walk answers the events.
pub open spec fn walk_count(walk: ExchangeWalk, events: Seq<WalkEvent>) -> nat
    decreases events.len(),
{
    if events.len() == 0 {
        0
    } else {
        let (next, _, unresolved) = walk_step(walk, events[0]);
        (if unresolved { 1nat } else { 0nat }) + walk_count(next, events.drop_first())
    }
}

proof fn lemma_done_counts_nothing(events: Seq<WalkEvent>)
    ensures
        walk_count(ExchangeWalk::Done, events) == 0,
    decreases events.len(),
{
    if events.len() > 0 {
        lemma_done_counts_nothing(events.drop_first());
    }
}

/// Law: an exchange counts at most one unresolved reference, whatever the
/// answers it gets.
pub proof fn law_exchange_counts_at_most_once(walk: ExchangeWalk, events: Seq<WalkEvent>)
    ensures
        walk_count(walk, events) <= 1,
    decreases events.len(),
{
    if events.len() > 0 {
        let (next, _, unresolved) = walk_step(walk, events[0]);
        if unresolved {
            assert(next == ExchangeWalk::Done);
            lemma_done_counts_nothing(events.drop_first());
        } else {
            law_exchange_counts_at_most_once(next, events.drop_first());
        }
    }
}

/// Why a bundle run stopped.
#[derive(Debug, Clone, Copy, PartialEq, Eq, Structural)]
pub enum BundleTotalsError {
    /// A total does not fit in 64 bits.
    SizeOverflow,
}

/// The totals of a bundle run: processes written and unresolved references.
#[derive(Debug, Clone, Copy, PartialEq, Eq, Structural)]
pub struct BundleTotals {
    pub process_count: u64,
    pub unresolved_reference_count: u64,
}

impl BundleTotals {
    pub fn new() -> (r: Self)
        ensures
            r.process_count == 0,
            r.unresolved_reference_count == 0,
    {
        BundleTotals { process_count: 0, unresolved_reference_count: 0 }
    }

    /// Counts one unresolved reference of the process being written, where the
    /// step says so; the count stops at the largest `u64`.
    pub fn count_unresolved(process_unresolved: u64, unresolved: bool) -> (r: u64)
        ensures
            r == if unresolved {
                if process_unresolved == u64::MAX {
                    u64::MAX as int
                } else {
                    process_unresolved + 1
                }
            } else {
                process_unresolved as int
            },
    {
        if unresolved {
            process_unresolved.saturating_add(1)
        } else {
            process_unresolved
        }
    }

    /// Adds a written process and its unresolved references; refused, with
    /// the totals as they were, where a total would not fit.
    pub fn add_process(&mut self, process_unresolved: u64) -> (r: Result<(), BundleTotalsError>)
        ensures
            r is Ok <==> old(self).unresolved_reference_count + process_unresolved <= u64::MAX
                && old(self).process_count + 1 <= u64::MAX,
            r is Ok ==> final(self).unresolved_reference_count == old(self).unresolved_reference_count + process_unresolved
                && final(self).process_count == old(self).process_count + 1,
            r is Err ==> *final(self) == *old(self),
    {
        let unresolved = match self.unresolved_reference_count.checked_add(process_unresolved) {
            Some(u) => u,
            None => {
                return Err(BundleTotalsError::SizeOverflow);
            },
        };
        let processes = match self.process_count.checked_add(1) {
            Some(p) => p,
            None => {
                return Err(BundleTotalsError::SizeOverflow);
            },
        };
        self.unresolved_reference_count = unresolved;
        self.process_count = processes;
        Ok(())
    }

    /// The report of the run, with the memory peak it reached.
    pub fn report(&self, peak_accounted_memory_bytes: u64) -> (r: ProcessBundleReportV1)
        ensures
            r.process_count == self.process_count,
            r.unresolved_reference_count == self.unresolved_reference_count,
            r.peak_accounted_memory_bytes == peak_accounted_memory_bytes,
    {
        ProcessBundleReportV1 {
            process_count: self.process_count,
            unresolved_reference_count: self.unresolved_reference_count,
            peak_accounted_memory_bytes,
        }
    }
}

// ---------------------------------------------------------------------------
// The fixed dependencies and the copies counted
// ---------------------------------------------------------------------------

pub open spec fn dependency_views(v: Seq<(&'static str, String)>) -> Seq<(Seq<char>, Seq<char>)> {
    v.map_values(|d: (&'static str, String)| (d.0@, d.1@))
}

/// The dependencies every process bundle takes before its exchanges: the
/// process itself, the import contact, and the format and compliance sources.
pub open spec fn fixed_dependency_list(process_id: Seq<char>) -> Seq<(Seq<char>, Seq<char>)> {
    seq![
        ("processes"@, process_id),
        ("contacts"@, uuid_v5_url("tidas-tools/import/contact".spec_bytes())),
        ("sources"@, uuid_v5_url("tidas-tools/import/ilcd-format".spec_bytes())),
        ("sources"@, uuid_v5_url("tidas-tools/import/not-defined-compliance".spec_bytes())),
    ]
}

/// The dependencies a process bundle copies first, in order (see
/// `fixed_dependency_list`).
pub fn fixed_dependencies(process_id: &str) -> (r: Vec<(&'static str, String)>)
    ensures
        dependency_views(r@) == fixed_dependency_list(process_id@),
{
    let mut r: Vec<(&'static str, String)> = Vec::new();
    r.push(("processes", owned(process_id)));
    r.push(("contacts", contact_id()));
    r.push(("sources", format_source_id()));
    r.push(("sources", compliance_source_id()));
    assert(dependency_views(r@) =~= fixed_dependency_list(process_id@));
    r
}

/// What becomes of one dependency.
#[derive(Debug, Clone, Copy, PartialEq, Eq, Structural)]
pub enum DependencyOutcome {
    /// The package has no such file: it is recorded as unresolved.
    Unresolved,
    /// The file is copied into the bundle and counted under its category.
    Copied,
    /// The bundle holds it already.
    AlreadyPresent,
}

/// The outcome of a dependency, from whether the package holds its file and
/// whether the bundle holds it already.
pub fn dependency_outcome(source_is_file: bool, target_exists: bool) -> (r: DependencyOutcome)
    ensures
        r == if !source_is_file {
            DependencyOutcome::Unresolved
        } else if !target_exists {
            DependencyOutcome::Copied
        } else {
            DependencyOutcome::AlreadyPresent
        },
{
    if !source_is_file {
        DependencyOutcome::Unresolved
    } else if !target_exists {
        DependencyOutcome::Copied
    } else {
        DependencyOutcome::AlreadyPresent
    }
}

/// The count of copies under a category.
pub open spec fn copies(counts: Map<Seq<char>, u64>, category: Seq<char>) -> nat {
    if counts.contains_key(category) {
        counts[category] as nat
    } else {
        0
    }
}

/// Counts one more copy under a category.
pub fn count_copy(counts: &mut TextMap<u64>, category: &str)
    requires
        copies(old(counts).view(), category@) < u64::MAX,
    ensures
        final(counts).view() == old(counts).view().insert(category@, (copies(old(counts).view(), category@) + 1) as u64),
{
    let n: u64 = match counts.get(category) {
        Some(c) => *c,
        None => 0,
    };
    counts.insert(owned(category), n + 1);
}

} // verus!
