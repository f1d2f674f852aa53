//! Source-format detection: signatures found in files are accumulated per
//! format with bounded evidence, and one format is selected by aggregate score.
use vstd::prelude::*;

use quick_xml::events::Event;

use crate::json::{deref_opt, JsonValue};
use crate::paths::{extension, extension_of, has_extension};
use crate::text::{
    chars_eq, chars_of, concat, concat3, contains, occurs_at, decimal, decimal_string, ends_with, eq_ignore_ascii_case, join,
    join_strings, last_piece, last_piece_chars, lit, lower, lower_chars, owned, starts_with, str_contains,
    str_ends_with, str_eq, str_starts_with, string_of, to_ascii_lowercase,
};

verus! {

/// At most this many evidence lines are kept per format.
pub const EVIDENCE_LIMIT: usize = 25;

/// The formats that detection can report.
#[derive(Clone, Copy, Debug, PartialEq, Eq, Structural)]
pub enum SourceFormat {
    Ecospold1,
    Ecospold2,
    SimaproCsv,
    OpenlcaJsonld,
    OpenlcaProcessXlsx,
    Ilcd,
    UnsupportedZolca,
    Unknown,
}

impl SourceFormat {
    /// The position of the format in the declared order of formats.
    pub open spec fn rank(self) -> int {
        match self {
            SourceFormat::Ecospold1 => 0,
            SourceFormat::Ecospold2 => 1,
            SourceFormat::SimaproCsv => 2,
            SourceFormat::OpenlcaJsonld => 3,
            SourceFormat::OpenlcaProcessXlsx => 4,
            SourceFormat::Ilcd => 5,
            SourceFormat::UnsupportedZolca => 6,
            SourceFormat::Unknown => 7,
        }
    }

    pub open spec fn at_rank(i: int) -> SourceFormat {
        if i == 0 {
            SourceFormat::Ecospold1
        } else if i == 1 {
            SourceFormat::Ecospold2
        } else if i == 2 {
            SourceFormat::SimaproCsv
        } else if i == 3 {
            SourceFormat::OpenlcaJsonld
        } else if i == 4 {
            SourceFormat::OpenlcaProcessXlsx
        } else if i == 5 {
            SourceFormat::Ilcd
        } else if i == 6 {
            SourceFormat::UnsupportedZolca
        } else {
            SourceFormat::Unknown
        }
    }

    /// The format's name in reports.
    pub open spec fn name(self) -> Seq<char> {
        match self {
            SourceFormat::Ecospold1 => "ecospold1"@,
            SourceFormat::Ecospold2 => "ecospold2"@,
            SourceFormat::SimaproCsv => "simapro-csv"@,
            SourceFormat::OpenlcaJsonld => "openlca-jsonld"@,
            SourceFormat::OpenlcaProcessXlsx => "openlca-process-xlsx"@,
            SourceFormat::Ilcd => "ilcd"@,
            SourceFormat::UnsupportedZolca => "unsupported-zolca"@,
            SourceFormat::Unknown => "unknown"@,
        }
    }

    /// Different formats have different names, so a report's name gives the
    /// format back.
    pub proof fn law_format_names_are_distinct(self, other: SourceFormat)
        ensures
            self.name() == other.name() ==> self == other,
    {
        reveal_strlit("ecospold1");
        reveal_strlit("ecospold2");
        reveal_strlit("simapro-csv");
        reveal_strlit("openlca-jsonld");
        reveal_strlit("openlca-process-xlsx");
        reveal_strlit("ilcd");
        reveal_strlit("unsupported-zolca");
        reveal_strlit("unknown");
        if self.name() == other.name() && self != other {
            assert(self.name().len() == other.name().len());
            assert(self.name()[8] == other.name()[8]);
        }
    }

    pub fn as_str(self) -> (r: &'static str)
        ensures
            r@ == self.name(),
    {
        match self {
            SourceFormat::Ecospold1 => "ecospold1",
            SourceFormat::Ecospold2 => "ecospold2",
            SourceFormat::SimaproCsv => "simapro-csv",
            SourceFormat::OpenlcaJsonld => "openlca-jsonld",
            SourceFormat::OpenlcaProcessXlsx => "openlca-process-xlsx",
            SourceFormat::Ilcd => "ilcd",
            SourceFormat::UnsupportedZolca => "unsupported-zolca",
            SourceFormat::Unknown => "unknown",
        }
    }

    pub fn rank_of(self) -> (r: usize)
        ensures
            r == self.rank(),
            r < 8,
    {
        match self {
            SourceFormat::Ecospold1 => 0,
            SourceFormat::Ecospold2 => 1,
            SourceFormat::SimaproCsv => 2,
            SourceFormat::OpenlcaJsonld => 3,
            SourceFormat::OpenlcaProcessXlsx => 4,
            SourceFormat::Ilcd => 5,
            SourceFormat::UnsupportedZolca => 6,
            SourceFormat::Unknown => 7,
        }
    }

    pub fn from_rank(i: usize) -> (f: SourceFormat)
        requires
            i < 8,
        ensures
            f == SourceFormat::at_rank(i as int),
            f.rank() == i,
    {
        if i == 0 {
            SourceFormat::Ecospold1
        } else if i == 1 {
            SourceFormat::Ecospold2
        } else if i == 2 {
            SourceFormat::SimaproCsv
        } else if i == 3 {
            SourceFormat::OpenlcaJsonld
        } else if i == 4 {
            SourceFormat::OpenlcaProcessXlsx
        } else if i == 5 {
            SourceFormat::Ilcd
        } else if i == 6 {
            SourceFormat::UnsupportedZolca
        } else {
            SourceFormat::Unknown
        }
    }
}

/// How strongly a signature indicates a format.
#[derive(Clone, Copy, Debug, PartialEq, Eq, Structural)]
pub enum DetectionConfidence {
    Low,
    Medium,
    High,
}

impl DetectionConfidence {
    pub open spec fn spec_score(self) -> u64 {
        match self {
            DetectionConfidence::Low => 1,
            DetectionConfidence::Medium => 2,
            DetectionConfidence::High => 3,
        }
    }

    pub fn score(self) -> (r: u64)
        ensures
            r == self.spec_score(),
    {
        match self {
            DetectionConfidence::Low => 1,
            DetectionConfidence::Medium => 2,
            DetectionConfidence::High => 3,
        }
    }

    /// The stronger of two confidences (`Ord::max`).
    pub open spec fn stronger(self, other: Self) -> Self {
        if other.spec_score() >= self.spec_score() {
            other
        } else {
            self
        }
    }

    pub fn max(self, other: Self) -> (r: Self)
        ensures
            r == self.stronger(other),
    {
        if other.score() >= self.score() {
            other
        } else {
            self
        }
    }
}

/// What a source was requested to be read as.
pub struct DetectionRequest {
    pub source: String,
    pub requested_format: Option<SourceFormat>,
}

/// The outcome of detection.
#[derive(Debug)]
pub struct DetectedFormat {
    pub format: SourceFormat,
    pub confidence: DetectionConfidence,
    pub evidence: Vec<String>,
}

/// Why detection failed.
#[derive(Debug)]
pub enum DetectionError {
    MissingSource(String),
    InvalidRequestedFormat(SourceFormat),
    Ambiguous(String),
    ProbeTooLarge(u64),
    Io(String),
    Walk(String),
    Zip(String),
}

/// One signature found in the source.
pub struct Candidate {
    pub format: SourceFormat,
    pub confidence: DetectionConfidence,
    pub evidence: String,
}

pub fn candidate(format: SourceFormat, confidence: DetectionConfidence, evidence: String) -> (c:
    Candidate)
    ensures
        c.format == format,
        c.confidence == confidence,
        c.evidence == evidence,
{
    Candidate { format, confidence, evidence }
}

/// The signatures accumulated for one format.
pub struct CandidateGroup {
    pub aggregate_score: u64,
    pub strongest_confidence: DetectionConfidence,
    pub evidence: Vec<String>,
    pub total: u64,
}

/// The accounting of one format's signatures, as values.
pub struct GroupView {
    pub score: u64,
    pub strongest: DetectionConfidence,
    pub evidence: Seq<Seq<char>>,
    pub total: u64,
}

pub open spec fn strings(v: Seq<String>) -> Seq<Seq<char>> {
    v.map_values(|s: String| s@)
}

impl CandidateGroup {
    pub open spec fn view_group(self) -> GroupView {
        GroupView {
            score: self.aggregate_score,
            strongest: self.strongest_confidence,
            evidence: strings(self.evidence@),
            total: self.total,
        }
    }
}

pub open spec fn sat_add(a: u64, b: u64) -> u64 {
    if a + b > u64::MAX {
        u64::MAX
    } else {
        (a + b) as u64
    }
}

/// The group of a format after one more signature for it.
pub open spec fn pushed(g: Option<GroupView>, confidence: DetectionConfidence, evidence: Seq<
    char,
>) -> GroupView {
    let base = match g {
        Some(g) => g,
        None => GroupView { score: 0, strongest: confidence, evidence: Seq::empty(), total: 0 },
    };
    GroupView {
        score: sat_add(base.score, confidence.spec_score()),
        strongest: base.strongest.stronger(confidence),
        evidence: if base.evidence.len() < EVIDENCE_LIMIT {
            base.evidence.push(evidence)
        } else {
            base.evidence
        },
        total: sat_add(base.total, 1),
    }
}

/// The groups after one more signature for `format`.
pub open spec fn added(
    gs: Seq<Option<GroupView>>,
    format: SourceFormat,
    confidence: DetectionConfidence,
    evidence: Seq<char>,
) -> Seq<Option<GroupView>> {
    gs.update(format.rank(), Some(pushed(gs[format.rank()], confidence, evidence)))
}

/// Accounting bounds that every accumulated group keeps.
pub open spec fn group_bounded(g: GroupView) -> bool {
    &&& 1 <= g.evidence.len() <= EVIDENCE_LIMIT
    &&& g.evidence.len() <= g.total
}

/// The signatures found so far, grouped by format.
pub struct CandidateAccumulator {
    groups: Vec<Option<CandidateGroup>>,
}

pub open spec fn opt_view(g: Option<CandidateGroup>) -> Option<GroupView> {
    match g {
        Some(g) => Some(g.view_group()),
        None => None,
    }
}

impl CandidateAccumulator {
    /// Every format has a slot, and every accumulated group is bounded.
    pub open spec fn wf(self) -> bool {
        &&& self.groups().len() == 8
        &&& forall|i: int|
            0 <= i < 8 ==> (#[trigger] self.groups()[i] matches Some(g) ==> group_bounded(g))
    }

    /// The group of each format, by rank.
    pub closed spec fn groups(self) -> Seq<Option<GroupView>> {
        self.groups@.map_values(|g: Option<CandidateGroup>| opt_view(g))
    }

    /// An accumulator with no signatures.
    pub fn new() -> (a: Self)
        ensures
            a.wf(),
            a.groups() == Seq::new(8, |i: int| None::<GroupView>),
    {
        let mut groups: Vec<Option<CandidateGroup>> = Vec::new();
        let mut i: usize = 0;
        while i < 8
            invariant
                i <= 8,
                groups@.len() == i,
                forall|k: int| 0 <= k < i ==> groups@[k] is None,
            decreases 8 - i,
        {
            groups.push(None);
            i = i + 1;
        }
        let a = CandidateAccumulator { groups };
        assert(a.groups() =~= Seq::new(8, |i: int| None::<GroupView>));
        a
    }

    /// Accounts one more signature: the format's score, strongest confidence and
    /// total grow, and its evidence is kept while fewer than the limit are held.
    pub fn push(&mut self, candidate: Candidate)
        requires
            old(self).wf(),
        ensures
            final(self).wf(),
            final(self).groups() == added(
                old(self).groups(),
                candidate.format,
                candidate.confidence,
                candidate.evidence@,
            ),
    {
        let idx = candidate.format.rank_of();
        let ghost before = self.groups();
        let mut group = match &self.groups[idx] {
            Some(g) => CandidateGroup {
                aggregate_score: g.aggregate_score,
                strongest_confidence: g.strongest_confidence,
                evidence: g.evidence.clone(),
                total: g.total,
            },
            None => CandidateGroup {
                aggregate_score: 0,
                strongest_confidence: candidate.confidence,
                evidence: Vec::new(),
                total: 0,
            },
        };
        assert(group.view_group().evidence =~= match before[idx as int] {
            Some(g) => g.evidence,
            None => Seq::<Seq<char>>::empty(),
        });
        group.aggregate_score = group.aggregate_score.saturating_add(candidate.confidence.score());
        group.strongest_confidence = group.strongest_confidence.max(candidate.confidence);
        group.total = group.total.saturating_add(1);
        if group.evidence.len() < EVIDENCE_LIMIT {
            let ghost ev = group.evidence@;
            group.evidence.push(candidate.evidence);
            assert(strings(group.evidence@) =~= strings(ev).push(candidate.evidence@));
        }
        let ghost g_view = group.view_group();
        assert(g_view == pushed(before[idx as int], candidate.confidence, candidate.evidence@));
        self.groups.set(idx, Some(group));
        assert(self.groups() =~= before.update(idx as int, Some(g_view)));
        proof {
            law_pushed_stays_bounded(before[idx as int], candidate.confidence, candidate.evidence@);
        }
    }

    /// The group of one format.
    pub fn group(&self, format: SourceFormat) -> (r: Option<&CandidateGroup>)
        requires
            self.wf(),
        ensures
            r matches Some(g) ==> self.groups()[format.rank()] == Some(g.view_group()),
            r is None ==> self.groups()[format.rank()] is None,
    {
        let i = format.rank_of();
        assert(self.groups()[i as int] == opt_view(self.groups@[i as int]));
        match &self.groups[i] {
            Some(g) => Some(g),
            None => None,
        }
    }
}

/// Accumulating signatures keeps every group's evidence bounded by the limit,
/// however many signatures arrive.
pub proof fn law_pushed_stays_bounded(
    g: Option<GroupView>,
    confidence: DetectionConfidence,
    evidence: Seq<char>,
)
    requires
        g matches Some(x) ==> group_bounded(x),
    ensures
        group_bounded(pushed(g, confidence, evidence)),
        pushed(g, confidence, evidence).total == sat_add(
            match g {
                Some(x) => x.total,
                None => 0,
            },
            1,
        ),
{
}

// ---------------------------------------------------------------------------
// Selection
// ---------------------------------------------------------------------------

/// How many signatures a group holds beyond its kept evidence.
pub open spec fn omitted(g: GroupView) -> nat {
    if g.total >= g.evidence.len() {
        (g.total - g.evidence.len()) as nat
    } else {
        0
    }
}

/// A group's evidence lines, each behind `prefix`, and a closing line for the
/// signatures whose evidence was not kept.
pub open spec fn render(g: GroupView, prefix: Seq<char>) -> Seq<Seq<char>> {
    let items = g.evidence.map_values(|e: Seq<char>| prefix + e);
    if omitted(g) > 0 {
        items.push(prefix + decimal(omitted(g)) + " additional matching signatures omitted"@)
    } else {
        items
    }
}

/// The highest aggregate score among the first `n` groups (0 when there is none).
pub open spec fn top_score_upto(gs: Seq<Option<GroupView>>, n: int) -> u64
    decreases n,
{
    if n <= 0 {
        0
    } else {
        let m = top_score_upto(gs, n - 1);
        match gs[n - 1] {
            Some(g) => if g.score > m {
                g.score
            } else {
                m
            },
            None => m,
        }
    }
}

/// The ranks, in order, among the first `n` whose group reaches `top`.
pub open spec fn tops_upto(gs: Seq<Option<GroupView>>, n: int, top: u64) -> Seq<int>
    decreases n,
{
    if n <= 0 {
        Seq::<int>::empty()
    } else {
        let prev = tops_upto(gs, n - 1, top);
        match gs[n - 1] {
            Some(g) => if g.score == top {
                prev.push(n - 1)
            } else {
                prev
            },
            None => prev,
        }
    }
}

/// The ranks of the formats with the highest aggregate score.
pub open spec fn top_formats(gs: Seq<Option<GroupView>>) -> Seq<int> {
    tops_upto(gs, 8, top_score_upto(gs, 8))
}

/// How one tied format is described when detection is ambiguous.
pub open spec fn tie_description(gs: Seq<Option<GroupView>>, i: int) -> Seq<char> {
    let g = gs[i]->0;
    let more: Seq<char> = if g.total >= 2 {
        " (+"@ + decimal((g.total - 1) as nat) + " more)"@
    } else {
        Seq::<char>::empty()
    };
    SourceFormat::at_rank(i).name() + ": "@ + g.evidence[0] + more
}

/// The evidence of the groups other than `selected` among the first `n`, each
/// behind the name of its format.
pub open spec fn secondaries_upto(gs: Seq<Option<GroupView>>, selected: int, n: int) -> Seq<
    Seq<char>,
>
    decreases n,
{
    if n <= 0 {
        Seq::<Seq<char>>::empty()
    } else {
        let prev = secondaries_upto(gs, selected, n - 1);
        match gs[n - 1] {
            Some(g) => if n - 1 != selected {
                prev + render(g, "secondary "@ + SourceFormat::at_rank(n - 1).name() + ": "@)
            } else {
                prev
            },
            None => prev,
        }
    }
}

pub open spec fn no_groups(gs: Seq<Option<GroupView>>) -> bool {
    forall|i: int| 0 <= i < 8 ==> #[trigger] gs[i] is None
}

/// A detection outcome as values: the format, its confidence and the evidence.
pub type DetectionView = (SourceFormat, DetectionConfidence, Seq<Seq<char>>);

/// The detection that accumulated signatures select: nothing found gives
/// `Unknown`; any `.zolca` signature wins outright; otherwise the single format
/// with the highest aggregate score wins, and a tie is an error that names the
/// tied formats.
pub open spec fn selection(gs: Seq<Option<GroupView>>) -> Result<DetectionView, Seq<char>> {
    if no_groups(gs) {
        Ok(
            (
                SourceFormat::Unknown,
                DetectionConfidence::Low,
                seq!["no supported LCA format signature found"@],
            ),
        )
    } else if gs[6] is Some {
        Ok((SourceFormat::UnsupportedZolca, DetectionConfidence::High, render(gs[6]->0, Seq::empty())))
    } else {
        let tops = top_formats(gs);
        if tops.len() != 1 {
            Err(join(tops.map_values(|i: int| tie_description(gs, i)), ", "@))
        } else {
            let sel = tops[0];
            Ok(
                (
                    SourceFormat::at_rank(sel),
                    gs[sel]->0.strongest,
                    render(gs[sel]->0, Seq::empty()) + secondaries_upto(gs, sel, 8),
                ),
            )
        }
    }
}

/// A detection outcome as values.
pub open spec fn detected_view(d: DetectedFormat) -> DetectionView {
    (d.format, d.confidence, strings(d.evidence@))
}

/// Appends `more` to `out`.
fn extend_strings(out: &mut Vec<String>, more: Vec<String>)
    ensures
        strings(final(out)@) == strings(old(out)@) + strings(more@),
{
    let mut i: usize = 0;
    let ghost start = strings(out@);
    while i < more.len()
        invariant
            i <= more@.len(),
            strings(out@) == start + strings(more@.subrange(0, i as int)),
        decreases more@.len() - i,
    {
        let ghost before = strings(out@);
        out.push(more[i].clone());
        i = i + 1;
        assert(strings(out@) =~= before.push(more@[i - 1]@));
        assert(strings(more@.subrange(0, i as int)) =~= strings(more@.subrange(0, i - 1)).push(
            more@[i - 1]@,
        ));
        assert(strings(out@) =~= start + strings(more@.subrange(0, i as int)));
    }
    assert(more@.subrange(0, more@.len() as int) =~= more@);
}

impl CandidateGroup {
    /// The group's evidence lines behind `prefix`, with a closing line for the
    /// omitted signatures.
    pub fn render_evidence(&self, prefix: &str) -> (r: Vec<String>)
        ensures
            strings(r@) == render(self.view_group(), prefix@),
    {
        let ghost g = self.view_group();
        let mut out: Vec<String> = Vec::new();
        let mut i: usize = 0;
        while i < self.evidence.len()
            invariant
                i <= self.evidence@.len(),
                g == self.view_group(),
                strings(out@) == g.evidence.subrange(0, i as int).map_values(
                    |e: Seq<char>| prefix@ + e,
                ),
            decreases self.evidence@.len() - i,
        {
            let ghost before = strings(out@);
            let line = concat(prefix, self.evidence[i].as_str());
            out.push(line);
            i = i + 1;
            assert(strings(out@) =~= before.push(line@));
            assert(g.evidence[i - 1] == self.evidence@[i - 1]@);
            assert(strings(out@) =~= g.evidence.subrange(0, i as int).map_values(
                |e: Seq<char>| prefix@ + e,
            ));
        }
        assert(g.evidence.subrange(0, g.evidence.len() as int) =~= g.evidence);
        let kept = self.evidence.len() as u64;
        let extra = self.total.saturating_sub(kept);
        if extra > 0 {
            let line = concat3(
                prefix,
                decimal_string(extra).as_str(),
                " additional matching signatures omitted",
            );
            out.push(line);
            assert(strings(out@) =~= render(g, prefix@));
        }
        out
    }
}

/// Selects the detected format from accumulated signatures (see `selection`).
pub fn select_candidate(candidates: CandidateAccumulator) -> (r: Result<
    DetectedFormat,
    DetectionError,
>)
    requires
        candidates.wf(),
    ensures
        r matches Ok(d) ==> selection(candidates.groups()) == Ok::<DetectionView, Seq<char>>(
            detected_view(d),
        ),
        r matches Err(e) ==> (e matches DetectionError::Ambiguous(m) && selection(
            candidates.groups(),
        ) == Err::<DetectionView, Seq<char>>(m@)),
        r is Ok <==> selection(candidates.groups()) is Ok,
{
    let ghost gs = candidates.groups();
    let groups = &candidates.groups;
    assert forall|i: int| 0 <= i < 8 implies #[trigger] gs[i] == opt_view(groups@[i]) by {}
    // Nothing found.
    let mut any = false;
    let mut i: usize = 0;
    while i < 8
        invariant
            i <= 8,
            gs == groups@.map_values(|g: Option<CandidateGroup>| opt_view(g)),
            gs.len() == 8,
            any == exists|k: int| 0 <= k < i && gs[k] is Some,
        decreases 8 - i,
    {
        assert(gs[i as int] == opt_view(groups@[i as int]));
        if groups[i].is_some() {
            any = true;
        }
        i = i + 1;
    }
    if !any {
        let mut evidence: Vec<String> = Vec::new();
        evidence.push(owned("no supported LCA format signature found"));
        assert(strings(evidence@) =~= seq!["no supported LCA format signature found"@]);
        return Ok(
            DetectedFormat {
                format: SourceFormat::Unknown,
                confidence: DetectionConfidence::Low,
                evidence,
            },
        );
    }
    assert(!no_groups(gs));
    // Any unsupported archive wins outright.
    if let Some(zolca) = &groups[6] {
        let evidence = zolca.render_evidence("");
        proof {
        reveal_strlit("");
    }
    assert(""@ =~= Seq::<char>::empty());
        return Ok(
            DetectedFormat {
                format: SourceFormat::UnsupportedZolca,
                confidence: DetectionConfidence::High,
                evidence,
            },
        );
    }
    // The highest aggregate score.
    let mut top: u64 = 0;
    let mut i: usize = 0;
    while i < 8
        invariant
            i <= 8,
            gs == groups@.map_values(|g: Option<CandidateGroup>| opt_view(g)),
            gs.len() == 8,
            top == top_score_upto(gs, i as int),
        decreases 8 - i,
    {
        if let Some(g) = &groups[i] {
            if g.aggregate_score > top {
                top = g.aggregate_score;
            }
        }
        i = i + 1;
    }
    // The formats that reach it.
    let mut tops: Vec<usize> = Vec::new();
    let mut i: usize = 0;
    while i < 8
        invariant
            i <= 8,
            gs == groups@.map_values(|g: Option<CandidateGroup>| opt_view(g)),
            gs.len() == 8,
            top == top_score_upto(gs, 8),
            tops@.map_values(|t: usize| t as int) == tops_upto(gs, i as int, top),
            forall|k: int| 0 <= k < tops@.len() ==> tops@[k] < i,
        decreases 8 - i,
    {
        if let Some(g) = &groups[i] {
            if g.aggregate_score == top {
                tops.push(i);
            }
        }
        i = i + 1;
        assert(tops@.map_values(|t: usize| t as int) =~= tops_upto(gs, i as int, top));
    }
    let ghost tv = tops@.map_values(|t: usize| t as int);
    assert(tv == top_formats(gs));
    if tops.len() != 1 {
        let mut items: Vec<String> = Vec::new();
        let mut k: usize = 0;
        while k < tops.len()
            invariant
                k <= tops@.len(),
                gs == groups@.map_values(|g: Option<CandidateGroup>| opt_view(g)),
                gs.len() == 8,
                candidates.wf(),
                gs == candidates.groups(),
                tv == tops@.map_values(|t: usize| t as int),
                tv == tops_upto(gs, 8, top),
                forall|m: int| 0 <= m < tops@.len() ==> tops@[m] < 8,
                strings(items@) == tv.subrange(0, k as int).map_values(
                    |t: int| tie_description(gs, t),
                ),
            decreases tops@.len() - k,
        {
            let t = tops[k];
            proof {
                lemma_tops_are_groups(gs, 8, top);
                assert(tv[k as int] == t as int);
            }
            let g = match &groups[t] {
                Some(g) => g,
                None => {
                    proof {
                        assert(gs[t as int] is Some);
                    }
                    return Err(DetectionError::Ambiguous(String::new()));
                },
            };
            proof {
                assert(gs[t as int] == Some(g.view_group()));
                assert(group_bounded(g.view_group()));
            }
            let name_part = concat(SourceFormat::from_rank(t).as_str(), ": ");
            let first = concat(name_part.as_str(), g.evidence[0].as_str());
            let extra = g.total.saturating_sub(1);
            let item = if extra == 0 {
                first
            } else {
                let more = concat3(" (+", decimal_string(extra).as_str(), " more)");
                concat(first.as_str(), more.as_str())
            };
            assert(item@ == tie_description(gs, t as int));
            let ghost before = strings(items@);
            items.push(item);
            assert(strings(items@) =~= before.push(tie_description(gs, t as int)));
            k = k + 1;
            assert(strings(items@) =~= tv.subrange(0, k as int).map_values(
                |t: int| tie_description(gs, t),
            ));
        }
        assert(tv.subrange(0, tv.len() as int) =~= tv);
        let details = join_strings(&items, ", ");
        assert(items@.map_values(|p: String| p@) =~= strings(items@));
        return Err(DetectionError::Ambiguous(details));
    }
    // One winner: its evidence, then every other format's as secondary.
    let sel = tops[0];
    proof {
        lemma_tops_are_groups(gs, 8, top);
        assert(tv[0] == sel as int);
    }
    let selected = match &groups[sel] {
        Some(g) => g,
        None => {
            proof {
                assert(gs[sel as int] is Some);
            }
            return Err(DetectionError::Ambiguous(String::new()));
        },
    };
    let mut evidence = selected.render_evidence("");
    proof {
        reveal_strlit("");
    }
    assert(""@ =~= Seq::<char>::empty());
    let ghost first_part = strings(evidence@);
    let mut i: usize = 0;
    while i < 8
        invariant
            i <= 8,
            sel < 8,
            gs == groups@.map_values(|g: Option<CandidateGroup>| opt_view(g)),
            gs.len() == 8,
            strings(evidence@) == first_part + secondaries_upto(gs, sel as int, i as int),
        decreases 8 - i,
    {
        if i != sel {
            if let Some(g) = &groups[i] {
                let prefix = concat3("secondary ", SourceFormat::from_rank(i).as_str(), ": ");
                let more = g.render_evidence(prefix.as_str());
                extend_strings(&mut evidence, more);
            }
        }
        i = i + 1;
        assert(strings(evidence@) =~= first_part + secondaries_upto(gs, sel as int, i as int));
    }
    Ok(
        DetectedFormat {
            format: SourceFormat::from_rank(sel),
            confidence: selected.strongest_confidence,
            evidence,
        },
    )
}

/// The ranks that `tops_upto` lists are ranks of existing groups, below `n`.
pub proof fn lemma_tops_are_groups(gs: Seq<Option<GroupView>>, n: int, top: u64)
    requires
        0 <= n <= gs.len(),
    ensures
        forall|k: int|
            0 <= k < tops_upto(gs, n, top).len() ==> {
                let t = #[trigger] tops_upto(gs, n, top)[k];
                0 <= t < n && gs[t] is Some
            },
    decreases n,
{
    if n > 0 {
        lemma_tops_are_groups(gs, n - 1, top);
        let prev = tops_upto(gs, n - 1, top);
        assert forall|k: int|
            0 <= k < tops_upto(gs, n, top).len() implies {
                let t = #[trigger] tops_upto(gs, n, top)[k];
                0 <= t < n && gs[t] is Some
            } by {
            if k < prev.len() {
                assert(tops_upto(gs, n, top)[k] == prev[k]);
            }
        }
    }
}

// ---------------------------------------------------------------------------
// Signatures
// ---------------------------------------------------------------------------

/// The bytes after every leading UTF-8 byte-order mark.
pub open spec fn strip_bom(b: Seq<u8>) -> Seq<u8>
    decreases b.len(),
{
    if b.len() >= 3 && b[0] == 0xefu8 && b[1] == 0xbbu8 && b[2] == 0xbfu8 {
        strip_bom(b.subrange(3, b.len() as int))
    } else {
        b
    }
}

/// `{SimaPro ` as bytes.
pub open spec fn simapro_marker() -> Seq<u8> {
    seq![0x7bu8, 0x53u8, 0x69u8, 0x6du8, 0x61u8, 0x50u8, 0x72u8, 0x6fu8, 0x20u8]
}

/// A SimaPro export: the first line, after any byte-order marks, starts with
/// `{SimaPro `.
pub open spec fn simapro_signature(b: Seq<u8>) -> bool {
    let t = strip_bom(b);
    simapro_marker().len() <= t.len() && t.subrange(0, simapro_marker().len() as int)
        == simapro_marker()
}

/// Looks for the SimaPro signature in the first bytes of a text file.
pub fn scan_csv(bytes: &[u8], label: &str, candidates: &mut CandidateAccumulator)
    requires
        old(candidates).wf(),
    ensures
        final(candidates).wf(),
        simapro_signature(bytes@) ==> final(candidates).groups() == added(
            old(candidates).groups(),
            SourceFormat::SimaproCsv,
            DetectionConfidence::High,
            label@ + ": first line starts with '{SimaPro '"@,
        ),
        !simapro_signature(bytes@) ==> final(candidates).groups() == old(candidates).groups(),
{
    let mut start: usize = 0;
    assert(bytes@.subrange(0, bytes@.len() as int) =~= bytes@);
    while bytes.len() - start >= 3 && bytes[start] == 0xef && bytes[start + 1] == 0xbb
        && bytes[start + 2] == 0xbf
        invariant
            start <= bytes@.len(),
            strip_bom(bytes@) == strip_bom(bytes@.subrange(start as int, bytes@.len() as int)),
        decreases bytes@.len() - start,
    {
        let ghost t = bytes@.subrange(start as int, bytes@.len() as int);
        assert(t[0] == 0xefu8 && t[1] == 0xbbu8 && t[2] == 0xbfu8);
        start = start + 3;
        assert(t.subrange(3, t.len() as int) =~= bytes@.subrange(
            start as int,
            bytes@.len() as int,
        ));
    }
    let ghost t = bytes@.subrange(start as int, bytes@.len() as int);
    assert(strip_bom(t) == t);
    let marker: [u8; 9] = [0x7b, 0x53, 0x69, 0x6d, 0x61, 0x50, 0x72, 0x6f, 0x20];
    assert(marker@ =~= simapro_marker());
    let mut matches = bytes.len() - start >= 9;
    assert(!matches ==> !simapro_signature(bytes@));
    let mut k: usize = 0;
    while matches && k < 9
        invariant
            start <= bytes@.len(),
            t == bytes@.subrange(start as int, bytes@.len() as int),
            strip_bom(bytes@) == t,
            marker@ == simapro_marker(),
            k <= 9,
            matches ==> start + 9 <= bytes@.len(),
            bytes@.len() == bytes.len(),
            matches ==> t.len() >= 9 && forall|m: int| 0 <= m < k ==> t[m] == marker@[m],
            !matches ==> !simapro_signature(bytes@),
        decreases 9 - k,
    {
        if bytes[start + k] != marker[k] {
            matches = false;
            assert(t[k as int] == bytes@[start + k]);
            assert(t.subrange(0, 9)[k as int] != simapro_marker()[k as int]);
        }
        k = k + 1;
    }
    if matches {
        assert(t.subrange(0, 9) =~= simapro_marker());
        let evidence = concat(label, ": first line starts with '{SimaPro '");
        candidates.push(candidate(SourceFormat::SimaproCsv, DetectionConfidence::High, evidence));
    }
}

/// The name of an XML root element and its default or prefixed namespace
/// declaration as text.
pub struct XmlRoot {
    pub name: String,
    pub namespace: String,
}

/// The namespace that identifies an XML root: the value of its first `xmlns` or
/// `xmlns:*` attribute, or empty.
pub open spec fn declared_namespace(attrs: Seq<(Seq<char>, Seq<char>)>) -> Seq<char>
    decreases attrs.len(),
{
    if attrs.len() == 0 {
        Seq::<char>::empty()
    } else if attrs[0].0 == "xmlns"@ || starts_with(attrs[0].0, "xmlns:"@) {
        attrs[0].1
    } else {
        declared_namespace(attrs.drop_first())
    }
}

pub open spec fn pair_views(v: Seq<(String, String)>) -> Seq<(Seq<char>, Seq<char>)> {
    v.map_values(|p: (String, String)| (p.0@, p.1@))
}

/// The namespace declared by a root element's attributes.
pub fn namespace_of(attrs: &Vec<(String, String)>) -> (r: String)
    ensures
        r@ == declared_namespace(pair_views(attrs@)),
{
    let ghost views = pair_views(attrs@);
    let mut i: usize = 0;
    assert(views.subrange(0, views.len() as int) =~= views);
    while i < attrs.len()
        invariant
            i <= attrs@.len(),
            views == pair_views(attrs@),
            declared_namespace(views) == declared_namespace(views.subrange(
                i as int,
                views.len() as int,
            )),
        decreases attrs@.len() - i,
    {
        let ghost rest = views.subrange(i as int, views.len() as int);
        assert(rest[0] == (attrs@[i as int].0@, attrs@[i as int].1@));
        if str_eq(attrs[i].0.as_str(), "xmlns") || str_starts_with(attrs[i].0.as_str(), "xmlns:") {
            return attrs[i].1.clone();
        }
        i = i + 1;
        assert(rest.drop_first() =~= views.subrange(i as int, views.len() as int));
    }
    assert(views.subrange(i as int, views.len() as int) =~= Seq::<(Seq<char>, Seq<char>)>::empty());
    String::new()
}

/// The root element of an XML document as `quick_xml` reads it: its qualified
/// name and its attributes in order, decoded lossily as UTF-8.
pub uninterp spec fn xml_root_element(bytes: Seq<u8>) -> Option<
    (Seq<char>, Seq<(Seq<char>, Seq<char>)>),
>;

/// `quick_xml::reader::Reader`: the first start or empty element of the document
/// (`None` when the reader fails or the document ends first), with the
/// attributes that parse.
#[verifier::external_body]
fn read_xml_root(bytes: &[u8]) -> (r: Option<(String, Vec<(String, String)>)>)
    ensures
        r matches Some(x) ==> xml_root_element(bytes@) == Some((x.0@, pair_views(x.1@))),
        r is None ==> xml_root_element(bytes@) is None,
{
    let mut reader = quick_xml::reader::Reader::from_reader(bytes);
    reader.config_mut().check_end_names = true;
    let mut buffer = Vec::new();
    loop {
        match reader.read_event_into(&mut buffer).ok()? {
            Event::Start(e) | Event::Empty(e) => return Some((e.name().as_ref().to_owned(), e.attributes().with_checks(true).filter_map(Result::ok).map(|a| (a.key.as_ref().to_owned(), a.value.into_owned())).collect())),
            Event::Eof => return None,
            _ => buffer.clear(),
        }
    }
}

/// The root element name and namespace of an XML document.
pub open spec fn xml_root_of(bytes: Seq<u8>) -> Option<(Seq<char>, Seq<char>)> {
    match xml_root_element(bytes) {
        Some((name, attrs)) => Some((name, declared_namespace(attrs))),
        None => None,
    }
}

/// The root element name and namespace of an XML document.
pub fn xml_root(bytes: &[u8]) -> (r: Option<XmlRoot>)
    ensures
        r matches Some(x) ==> xml_root_of(bytes@) == Some((x.name@, x.namespace@)),
        r is None ==> xml_root_of(bytes@) is None,
{
    match read_xml_root(bytes) {
        Some((name, attrs)) => {
            let namespace = namespace_of(&attrs);
            Some(XmlRoot { name, namespace })
        },
        None => None,
    }
}

/// What the root element of an XML file says about its format.
pub open spec fn xml_signature(name: Seq<char>, namespace: Seq<char>) -> Option<
    (SourceFormat, DetectionConfidence),
> {
    let local = last_piece(name, ':');
    let signature = lower(name + " "@ + namespace);
    if contains(signature, "ecospold02"@) || lower(local) == lower("ecospold2"@) {
        Some((SourceFormat::Ecospold2, DetectionConfidence::High))
    } else if contains(signature, "ecospold01"@) || lower(local) == lower("ecospold"@) {
        Some(
            (
                SourceFormat::Ecospold1,
                if contains(signature, "ecospold01"@) {
                    DetectionConfidence::High
                } else {
                    DetectionConfidence::Medium
                },
            ),
        )
    } else if contains(signature, "lca.jrc.it/ilcd"@) && ends_with(lower(local), "dataset"@) {
        Some((SourceFormat::Ilcd, DetectionConfidence::High))
    } else {
        None
    }
}

proof fn lemma_signature_contains(name: Seq<char>, namespace: Seq<char>, p: Seq<char>)
    requires
        contains(lower(name), p) || contains(lower(namespace), p),
    ensures
        contains(lower(name + " "@ + namespace), p),
{
    let s = name + " "@ + namespace;
    let head = name + " "@;
    assert(lower(s) =~= lower(name) + lower(" "@) + lower(namespace));
    assert(lower(head) =~= lower(name) + lower(" "@));
    if contains(lower(name), p) {
        let i = choose|i: int| occurs_at(lower(name), p, i);
        assert(lower(s).subrange(i, i + p.len()) =~= lower(name).subrange(i, i + p.len()));
        assert(occurs_at(lower(s), p, i));
    } else {
        let i = choose|i: int| occurs_at(lower(namespace), p, i);
        let j = i + lower(head).len();
        assert(lower(s) =~= lower(head) + lower(namespace));
        assert(lower(s).subrange(j, j + p.len()) =~= lower(namespace).subrange(i, i + p.len()));
        assert(occurs_at(lower(s), p, j));
    }
}

/// Law: a root whose name or namespace names EcoSpold 2 (`ecospold02`, in any
/// ASCII case), or whose local name is `ecospold2`, is signed as EcoSpold 2 with
/// high confidence, and so never as EcoSpold 1.
pub proof fn law_ecospold02_roots_are_ecospold2(name: Seq<char>, namespace: Seq<char>)
    requires
        contains(lower(name), "ecospold02"@) || contains(lower(namespace), "ecospold02"@) || lower(
            last_piece(name, ':'),
        ) == lower("ecospold2"@),
    ensures
        xml_signature(name, namespace) == Some((SourceFormat::Ecospold2, DetectionConfidence::High)),
        !(xml_signature(name, namespace) matches Some((SourceFormat::Ecospold1, _))),
{
    if contains(lower(name), "ecospold02"@) || contains(lower(namespace), "ecospold02"@) {
        lemma_signature_contains(name, namespace, "ecospold02"@);
    }
}

/// Law: a root that does not name EcoSpold 2 but whose name or namespace names
/// EcoSpold 1 (`ecospold01`, in any ASCII case) is signed as EcoSpold 1 with
/// high confidence; one that names neither, with the local name `ecoSpold`, as
/// EcoSpold 1 with medium confidence.
pub proof fn law_ecospold01_roots_are_ecospold1(name: Seq<char>, namespace: Seq<char>)
    requires
        !contains(lower(name + " "@ + namespace), "ecospold02"@),
        lower(last_piece(name, ':')) != lower("ecospold2"@),
    ensures
        contains(lower(name), "ecospold01"@) || contains(lower(namespace), "ecospold01"@) ==> xml_signature(name, namespace)
            == Some((SourceFormat::Ecospold1, DetectionConfidence::High)),
        !contains(lower(name + " "@ + namespace), "ecospold01"@) && lower(last_piece(name, ':')) == lower("ecospold"@)
            ==> xml_signature(name, namespace) == Some((SourceFormat::Ecospold1, DetectionConfidence::Medium)),
{
    if contains(lower(name), "ecospold01"@) || contains(lower(namespace), "ecospold01"@) {
        lemma_signature_contains(name, namespace, "ecospold01"@);
    }
}

/// Records the format that an XML root element indicates.
pub fn scan_xml(root: Option<&XmlRoot>, label: &str, candidates: &mut CandidateAccumulator)
    requires
        old(candidates).wf(),
    ensures
        final(candidates).wf(),
        root matches Some(x) ==> (xml_signature(x.name@, x.namespace@) matches Some((f, c))
            ==> final(candidates).groups() == added(
            old(candidates).groups(),
            f,
            c,
            label@ + ": XML root {"@ + x.namespace@ + "}"@ + last_piece(x.name@, ':'),
        )),
        (root is None || xml_signature(root->0.name@, root->0.namespace@) is None)
            ==> final(candidates).groups() == old(candidates).groups(),
{
    let x = match root {
        Some(x) => x,
        None => return ,
    };
    let name = chars_of(x.name.as_str());
    let local = string_of(last_piece_chars(name.as_slice(), ':').as_slice());
    let spaced = concat3(x.name.as_str(), " ", x.namespace.as_str());
    let signature = to_ascii_lowercase(spaced.as_str());
    let head = concat3(label, ": XML root {", x.namespace.as_str());
    let evidence = concat3(head.as_str(), "}", local.as_str());
    let eco01 = str_contains(signature.as_str(), "ecospold01");
    if str_contains(signature.as_str(), "ecospold02") || eq_ignore_ascii_case(
        local.as_str(),
        "ecospold2",
    ) {
        candidates.push(candidate(SourceFormat::Ecospold2, DetectionConfidence::High, evidence));
    } else if eco01 || eq_ignore_ascii_case(local.as_str(), "ecospold") {
        let confidence = if eco01 {
            DetectionConfidence::High
        } else {
            DetectionConfidence::Medium
        };
        candidates.push(candidate(SourceFormat::Ecospold1, confidence, evidence));
    } else if str_contains(signature.as_str(), "lca.jrc.it/ilcd") && str_ends_with(
        to_ascii_lowercase(local.as_str()).as_str(),
        "dataset",
    ) {
        candidates.push(candidate(SourceFormat::Ilcd, DetectionConfidence::High, evidence));
    }
}

/// Records an XLSX workbook container: it holds both `[Content_Types].xml` and
/// `xl/workbook.xml`.
pub fn scan_xlsx(entry_names: &Vec<String>, label: &str, candidates: &mut CandidateAccumulator)
    requires
        old(candidates).wf(),
    ensures
        final(candidates).wf(),
        ((exists|i: int| 0 <= i < entry_names@.len() && entry_names@[i]@ == "[Content_Types].xml"@)
            && (exists|i: int|
            0 <= i < entry_names@.len() && entry_names@[i]@ == "xl/workbook.xml"@))
            ==> final(candidates).groups() == added(
            old(candidates).groups(),
            SourceFormat::OpenlcaProcessXlsx,
            DetectionConfidence::Medium,
            label@ + ": valid XLSX workbook container"@,
        ),
        !((exists|i: int|
            0 <= i < entry_names@.len() && entry_names@[i]@ == "[Content_Types].xml"@) && (exists|
            i: int,
        | 0 <= i < entry_names@.len() && entry_names@[i]@ == "xl/workbook.xml"@))
            ==> final(candidates).groups() == old(candidates).groups(),
{
    let mut content_types = false;
    let mut workbook = false;
    let mut i: usize = 0;
    while i < entry_names.len()
        invariant
            i <= entry_names@.len(),
            content_types == exists|k: int|
                0 <= k < i && entry_names@[k]@ == "[Content_Types].xml"@,
            workbook == exists|k: int| 0 <= k < i && entry_names@[k]@ == "xl/workbook.xml"@,
        decreases entry_names@.len() - i,
    {
        if str_eq(entry_names[i].as_str(), "[Content_Types].xml") {
            content_types = true;
        }
        if str_eq(entry_names[i].as_str(), "xl/workbook.xml") {
            workbook = true;
        }
        i = i + 1;
    }
    if content_types && workbook {
        let evidence = concat(label, ": valid XLSX workbook container");
        candidates.push(
            candidate(SourceFormat::OpenlcaProcessXlsx, DetectionConfidence::Medium, evidence),
        );
    }
}

/// An openLCA JSON-LD `@context`: a string naming openLCA, an array holding one,
/// or an object with an `olca` or `openlca` key.
pub open spec fn openlca_context(v: JsonValue) -> bool
    decreases v,
{
    match v {
        JsonValue::String(s) => contains(lower(s@), "openlca"@) || contains(lower(s@), "olca"@)
            || contains(lower(s@), "context.jsonld"@),
        JsonValue::Array(items) => any_openlca_context(items@),
        JsonValue::Object(members) => any_openlca_key(members@),
        _ => false,
    }
}

/// Whether some member of `s` is named `olca` or `openlca`, in any ASCII case.
pub open spec fn any_openlca_key(s: Seq<(String, JsonValue)>) -> bool
    decreases s.len(),
{
    if s.len() == 0 {
        false
    } else {
        lower(s[0].0@) == "olca"@ || lower(s[0].0@) == "openlca"@ || any_openlca_key(
            s.subrange(1, s.len() as int),
        )
    }
}

/// Whether some value of `s` is an openLCA `@context`.
pub open spec fn any_openlca_context(s: Seq<JsonValue>) -> bool
    decreases s,
{
    if s.len() == 0 {
        false
    } else {
        openlca_context(s[0]) || any_openlca_context(s.subrange(1, s.len() as int))
    }
}

/// The `@type` values of openLCA entities, spaces removed and lower-cased.
pub open spec fn openlca_types() -> Seq<Seq<char>> {
    seq![
        "actor"@,
        "source"@,
        "unitgroup"@,
        "flowproperty"@,
        "flow"@,
        "process"@,
        "impactcategory"@,
        "impactmethod"@,
        "productsystem"@,
        "epd"@,
    ]
}

/// The text without its spaces.
pub open spec fn without_spaces(s: Seq<char>) -> Seq<char>
    decreases s.len(),
{
    if s.len() == 0 {
        s
    } else if s.last() == ' ' {
        without_spaces(s.drop_last())
    } else {
        without_spaces(s.drop_last()).push(s.last())
    }
}

/// An openLCA `@type`: a string naming an openLCA entity type.
pub open spec fn openlca_type(v: Option<JsonValue>) -> bool {
    match v {
        Some(JsonValue::String(s)) => openlca_types().contains(lower(without_spaces(s@))),
        _ => false,
    }
}

/// What a parsed JSON document says about its format, with the evidence text
/// that follows the label.
pub open spec fn json_signature(payload: Option<JsonValue>) -> Option<
    (DetectionConfidence, Seq<char>),
> {
    match payload {
        Some(p) => if p is Object {
            if (p.member("@context"@) matches Some(c) && openlca_context(c)) || openlca_type(
                p.member("@type"@),
            ) {
                Some((DetectionConfidence::High, ": JSON-LD @context/@type looks like openLCA"@))
            } else if (p.member("@id"@) is Some || p.member("refId"@) is Some || p.member(
                "version"@,
            ) is Some) && (p.member("name"@) is Some || p.member("category"@) is Some || p.member(
                "flowType"@,
            ) is Some || p.member("processType"@) is Some) {
                Some((DetectionConfidence::Medium, ": JSON object has openLCA-like fields"@))
            } else {
                None
            }
        } else {
            None
        },
        None => None,
    }
}

/// Whether a JSON-LD `@context` value looks like openLCA's.
pub fn looks_like_openlca_context(value: Option<&JsonValue>) -> (r: bool)
    ensures
        r == (value matches Some(v) && openlca_context(*v)),
{
    match value {
        Some(v) => context_value(v),
        None => false,
    }
}

fn context_value(v: &JsonValue) -> (r: bool)
    ensures
        r == openlca_context(*v),
    decreases v,
{
    match v {
        JsonValue::String(s) => {
            let l = to_ascii_lowercase(s.as_str());
            str_contains(l.as_str(), "openlca") || str_contains(l.as_str(), "olca") || str_contains(
                l.as_str(),
                "context.jsonld",
            )
        },
        JsonValue::Array(items) => {
            let mut i: usize = 0;
            assert(items@.subrange(0, items@.len() as int) =~= items@);
            while i < items.len()
                invariant
                    i <= items@.len(),
                    *v == JsonValue::Array(*items),
                    openlca_context(*v) == any_openlca_context(items@.subrange(
                        i as int,
                        items@.len() as int,
                    )),
                decreases items@.len() - i,
            {
                proof {
                    assert(decreases_to!(*v => (*v)->Array_0));
                    vstd::std_specs::vec::axiom_vec_index_decreases(*items, i as int);
                }
                let ghost rest = items@.subrange(i as int, items@.len() as int);
                assert(rest[0] == items@[i as int]);
                if context_value(&items[i]) {
                    return true;
                }
                i = i + 1;
                assert(rest.subrange(1, rest.len() as int) =~= items@.subrange(
                    i as int,
                    items@.len() as int,
                ));
            }
            false
        },
        JsonValue::Object(members) => {
            let mut i: usize = 0;
            assert(members@.subrange(0, members@.len() as int) =~= members@);
            while i < members.len()
                invariant
                    i <= members@.len(),
                    *v == JsonValue::Object(*members),
                    openlca_context(*v) == any_openlca_key(members@.subrange(
                        i as int,
                        members@.len() as int,
                    )),
                decreases members@.len() - i,
            {
                let ghost rest = members@.subrange(i as int, members@.len() as int);
                assert(rest[0] == members@[i as int]);
                let key = to_ascii_lowercase(members[i].0.as_str());
                if str_eq(key.as_str(), "olca") || str_eq(key.as_str(), "openlca") {
                    return true;
                }
                i = i + 1;
                assert(rest.subrange(1, rest.len() as int) =~= members@.subrange(
                    i as int,
                    members@.len() as int,
                ));
            }
            false
        },
        _ => false,
    }
}

/// The text without its spaces.
pub fn remove_spaces(s: &[char]) -> (r: Vec<char>)
    ensures
        r@ == without_spaces(s@),
{
    let mut r: Vec<char> = Vec::new();
    let mut i: usize = 0;
    while i < s.len()
        invariant
            i <= s@.len(),
            r@ == without_spaces(s@.subrange(0, i as int)),
        decreases s@.len() - i,
    {
        let ghost prev = s@.subrange(0, i as int);
        if s[i] != ' ' {
            r.push(s[i]);
        }
        i = i + 1;
        assert(s@.subrange(0, i as int).drop_last() =~= prev);
    }
    assert(s@.subrange(0, s@.len() as int) =~= s@);
    r
}

/// Whether a JSON-LD `@type` value names an openLCA entity type.
pub fn looks_like_openlca_type(value: Option<&JsonValue>) -> (r: bool)
    ensures
        r == openlca_type(deref_opt(value)),
{
    let s = match value {
        Some(JsonValue::String(s)) => s,
        _ => return false,
    };
    let c = chars_of(s.as_str());
    let compact = lower_chars(remove_spaces(c.as_slice()).as_slice());
    let names = ["actor", "source", "unitgroup", "flowproperty", "flow", "process",
        "impactcategory", "impactmethod", "productsystem", "epd"];
    let ghost want = openlca_types();
    proof {
        reveal_strlit("actor");
    }
    let mut i: usize = 0;
    while i < 10
        invariant
            i <= 10,
            want == openlca_types(),
            deref_opt(value) == Some(JsonValue::String(*s)),
            compact@ == lower(without_spaces(s@)),
            forall|k: int| 0 <= k < i ==> want[k] != compact@,
            forall|k: int| 0 <= k < 10 ==> names@[k]@ == #[trigger] want[k],
        decreases 10 - i,
    {
        let n = chars_of(names[i]);
        if chars_eq(n.as_slice(), compact.as_slice()) {
            assert(want[i as int] == compact@);
            return true;
        }
        i = i + 1;
    }
    assert(!want.contains(compact@));
    false
}

/// Records what a parsed JSON document says about its format: an openLCA
/// `@context` or `@type` is a strong signature, and an identifier field beside a
/// naming field a medium one.
pub fn scan_json(payload: Option<&JsonValue>, label: &str, candidates: &mut CandidateAccumulator)
    requires
        old(candidates).wf(),
    ensures
        final(candidates).wf(),
        json_signature(deref_opt(payload)) matches Some((c, e)) ==> final(candidates).groups()
            == added(old(candidates).groups(), SourceFormat::OpenlcaJsonld, c, label@ + e),
        json_signature(deref_opt(payload)) is None ==> final(candidates).groups() == old(
            candidates,
        ).groups(),
{
    let p = match payload {
        Some(p) => p,
        None => return ,
    };
    if p.as_object().is_none() {
        return ;
    }
    if looks_like_openlca_context(p.get("@context")) || looks_like_openlca_type(p.get("@type")) {
        let evidence = concat(label, ": JSON-LD @context/@type looks like openLCA");
        candidates.push(candidate(SourceFormat::OpenlcaJsonld, DetectionConfidence::High, evidence));
        return ;
    }
    let has_id = p.get("@id").is_some() || p.get("refId").is_some() || p.get("version").is_some();
    let has_name = p.get("name").is_some() || p.get("category").is_some() || p.get(
        "flowType",
    ).is_some() || p.get("processType").is_some();
    if has_id && has_name {
        let evidence = concat(label, ": JSON object has openLCA-like fields");
        candidates.push(
            candidate(SourceFormat::OpenlcaJsonld, DetectionConfidence::Medium, evidence),
        );
    }
}

/// Whether detection must scan the source: it exists, is not a `.zolca`
/// archive, and no format was requested.
pub open spec fn scan_needed(request: DetectionRequest, source_exists: bool) -> bool {
    source_exists && extension(request.source@) != Some("zolca"@)
        && request.requested_format is None
}

/// Whether detection must scan the source before it can decide.
pub fn needs_scan(request: &DetectionRequest, source_exists: bool) -> (r: bool)
    ensures
        r == scan_needed(*request, source_exists),
{
    source_exists && !has_extension(request.source.as_str(), "zolca")
        && request.requested_format.is_none()
}

/// Detects the format of a source: a missing source is an error; a `.zolca`
/// archive is reported as unsupported whatever was requested; a requested format
/// is taken as it is (unless it is `Unknown` or the unsupported archive); and
/// otherwise the signatures that scanning the source found decide (see
/// `selection`).
pub fn detect_format(
    request: &DetectionRequest,
    source_exists: bool,
    scanned: CandidateAccumulator,
) -> (r: Result<DetectedFormat, DetectionError>)
    requires
        scanned.wf(),
    ensures
        !source_exists ==> (r matches Err(DetectionError::MissingSource(p)) && p@
            == request.source@),
        source_exists && extension(request.source@) == Some("zolca"@) ==> (r matches Ok(d)
            && detected_view(d) == (
            SourceFormat::UnsupportedZolca,
            DetectionConfidence::High,
            seq!["file extension .zolca"@],
        )),
        source_exists && extension(request.source@) != Some("zolca"@) ==> (
        request.requested_format matches Some(f) ==> if f is Unknown || f is UnsupportedZolca {
            r matches Err(DetectionError::InvalidRequestedFormat(g)) && g == f
        } else {
            r matches Ok(d) && detected_view(d) == (
                f,
                DetectionConfidence::High,
                seq!["explicit --from-format "@ + f.name()],
            )
        }),
        scan_needed(*request, source_exists) ==> (r matches Ok(d) ==> selection(scanned.groups())
            == Ok::<DetectionView, Seq<char>>(detected_view(d))),
        scan_needed(*request, source_exists) ==> (r matches Err(e) ==> (e matches DetectionError::Ambiguous(m)
            && selection(scanned.groups()) == Err::<DetectionView, Seq<char>>(m@))),
        scan_needed(*request, source_exists) ==> (r is Ok <==> selection(scanned.groups()) is Ok),
{
    if !source_exists {
        return Err(DetectionError::MissingSource(request.source.clone()));
    }
    if has_extension(request.source.as_str(), "zolca") {
        let mut evidence: Vec<String> = Vec::new();
        evidence.push(owned("file extension .zolca"));
        assert(strings(evidence@) =~= seq!["file extension .zolca"@]);
        return Ok(
            DetectedFormat {
                format: SourceFormat::UnsupportedZolca,
                confidence: DetectionConfidence::High,
                evidence,
            },
        );
    }
    if let Some(format) = request.requested_format {
        match format {
            SourceFormat::Unknown | SourceFormat::UnsupportedZolca => {
                return Err(DetectionError::InvalidRequestedFormat(format));
            },
            _ => {},
        }
        let mut evidence: Vec<String> = Vec::new();
        evidence.push(concat("explicit --from-format ", format.as_str()));
        assert(strings(evidence@) =~= seq!["explicit --from-format "@ + format.name()]);
        return Ok(DetectedFormat { format, confidence: DetectionConfidence::High, evidence });
    }
    select_candidate(scanned)
}

} // verus!
