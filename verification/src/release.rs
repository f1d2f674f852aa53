//! Release control: requests and reports, the canonical dataset index, portable
//! relative paths, exact dataset references and their closure.
use vstd::prelude::*;

use crate::json::{JsonValue, encode_string_array, json_string_array};
use crate::paths::{path_starts_with, starts_with_path};
use crate::runtime::{
    CancellationToken, MemoryBudget, Sha256State, digest_hex, sha256, sha256_finalize, sha256_input,
    sha256_new, sha256_of, sha256_update,
};
use crate::text::{
    chars_of, concat, concat3, ends_with, eq_ignore_ascii_case, is_hex_digit, is_hex_digit_char,
    join, last_piece, last_piece_chars, lower, owned, split, split_chars, starts_with, str_eq,
    string_of, to_ascii_lowercase, upper, upper_chars, decimal, unicode_lower, text_lt, hex,
    lemma_text_lt_trichotomy, lemma_text_lt_irreflexive, lemma_text_lt_transitive, compare_str,
};

verus! {

pub const UNIT_PROFILE: &'static str = "unit-process-full-closure.v1";

pub const RESULT_PROFILE: &'static str = "standalone-lifecyclemodel-result-full-closure.v1";

pub const RELEASE_REPORT_SCHEMA_V1: &'static str = "tidas.release-report.v1";

/// Reports list at most this many items inline.
pub const INLINE_ITEM_LIMIT: usize = 256;

/// The closure profiles that a release publishes.
#[derive(Clone, Copy, Debug, PartialEq, Eq, Structural)]
pub enum ReleaseProfile {
    UnitProcess,
    StandaloneResult,
}

impl ReleaseProfile {
    pub open spec fn spec_id(self) -> Seq<char> {
        match self {
            ReleaseProfile::UnitProcess => UNIT_PROFILE@,
            ReleaseProfile::StandaloneResult => RESULT_PROFILE@,
        }
    }

    /// The profile's identifier in reports.
    pub fn id(self) -> (r: &'static str)
        ensures
            r@ == self.spec_id(),
    {
        match self {
            ReleaseProfile::UnitProcess => UNIT_PROFILE,
            ReleaseProfile::StandaloneResult => RESULT_PROFILE,
        }
    }
}

/// What a release request does.
#[derive(Clone, Copy, Debug, PartialEq, Eq, Structural)]
pub enum ReleaseAction {
    BuildPackages,
    ConvertIlcd,
    SemanticRoundtrip,
    ValidateClosure,
    ValidateIlcd,
    ValidateTidas,
}

/// A release request and its paths.
#[derive(Debug)]
pub enum ReleaseRequest {
    BuildPackages { tidas_dir: String, dataset_index: String, output_dir: String },
    ConvertIlcd { input_dir: String, output_dir: String },
    SemanticRoundtrip { tidas_dir: String, ilcd_dir: String },
    ValidateClosure { input_dir: String, dataset_index: String, profile: ReleaseProfile },
    ValidateIlcd { input_dir: String },
    ValidateTidas { input_dir: String },
}

impl ReleaseRequest {
    pub open spec fn spec_action(&self) -> ReleaseAction {
        match self {
            ReleaseRequest::BuildPackages { .. } => ReleaseAction::BuildPackages,
            ReleaseRequest::ConvertIlcd { .. } => ReleaseAction::ConvertIlcd,
            ReleaseRequest::SemanticRoundtrip { .. } => ReleaseAction::SemanticRoundtrip,
            ReleaseRequest::ValidateClosure { .. } => ReleaseAction::ValidateClosure,
            ReleaseRequest::ValidateIlcd { .. } => ReleaseAction::ValidateIlcd,
            ReleaseRequest::ValidateTidas { .. } => ReleaseAction::ValidateTidas,
        }
    }

    /// The action a request performs.
    pub fn action(&self) -> (r: ReleaseAction)
        ensures
            r == self.spec_action(),
    {
        match self {
            ReleaseRequest::BuildPackages { .. } => ReleaseAction::BuildPackages,
            ReleaseRequest::ConvertIlcd { .. } => ReleaseAction::ConvertIlcd,
            ReleaseRequest::SemanticRoundtrip { .. } => ReleaseAction::SemanticRoundtrip,
            ReleaseRequest::ValidateClosure { .. } => ReleaseAction::ValidateClosure,
            ReleaseRequest::ValidateIlcd { .. } => ReleaseAction::ValidateIlcd,
            ReleaseRequest::ValidateTidas { .. } => ReleaseAction::ValidateTidas,
        }
    }
}

/// The execution limits of a release run.
pub struct ReleaseRuntime {
    pub cancellation: CancellationToken,
    pub memory_budget: MemoryBudget,
    pub queue_capacity: usize,
}

/// The closure of one release profile, as reported.
#[derive(Debug)]
pub struct ReferenceClosureReportV1 {
    pub profile_id: String,
    pub root_count: u64,
    pub dataset_count: u64,
    pub reference_count: u64,
    pub closure_sha256: String,
    pub dataset_keys: Vec<String>,
    pub dataset_keys_truncated: bool,
}

/// The outcome of converting a TIDAS tree to ILCD.
#[derive(Debug)]
pub struct IlcdConversionReportV1 {
    pub dataset_count: u64,
    pub input_bytes: u64,
    pub output_bytes: u64,
    pub conversion_set_sha256: String,
    pub output_tree_sha256: String,
    pub asset_fingerprint: String,
}

/// One difference found by the semantic round trip.
#[derive(Debug)]
pub struct RoundtripMismatchV1 {
    pub path: String,
    pub location: String,
    pub code: String,
}

/// The outcome of the semantic round trip.
#[derive(Debug)]
pub struct SemanticRoundtripReportV1 {
    pub ok: bool,
    pub dataset_count: u64,
    pub mismatch_count: u64,
    pub semantic_set_sha256: String,
    pub mismatches: Vec<RoundtripMismatchV1>,
    pub mismatches_truncated: bool,
}

/// The data format of a released tree.
#[derive(Clone, Copy, Debug, PartialEq, Eq, Structural)]
pub enum ReleaseDataFormat {
    Ilcd,
    Tidas,
}

/// One published archive.
#[derive(Debug)]
pub struct ReleaseArtifactV1 {
    pub path: String,
    pub media_type: String,
    pub sha256: String,
    pub bytes: u64,
    pub member_count: u64,
}

/// One published package.
#[derive(Debug)]
pub struct ReleasePackageV1 {
    pub profile_id: String,
    pub format: ReleaseDataFormat,
    pub self_contained: bool,
    pub closure_sha256: String,
    pub dataset_count: u64,
    pub artifact: ReleaseArtifactV1,
}

/// Why a release operation stopped. Paths are given as text; failures of the
/// file system, archive, JSON and validation layers carry their messages.
#[derive(Debug)]
pub enum ReleaseError {
    ZeroQueueCapacity,
    InputNotDirectory(String),
    OutputInsideInput(String),
    OutputNotDirectory(String),
    UnsafePath(String),
    PathOutsideRoot(String),
    Symlink(String),
    DatasetIndexInvalid(String),
    DatasetIndexSchemaUnsupported(String),
    DatasetIndexEmpty,
    DuplicateDatasetIdentity(String),
    DuplicateDatasetPath(String),
    DatasetFileMissing(String),
    DatasetFileHashMismatch(String),
    ProfileRootsMissing(String),
    ReferenceVersionMissing(String),
    ReferenceClosureMissing(String),
    StandaloneMissingUnitClosure(String),
    DatasetJson { path: String, message: String },
    OrderingSchemaMissing(String),
    OrderingSchemaReference(String),
    OrderingSchemaCycle(String),
    ValidationIssues(ReleaseDataFormat),
    SemanticRoundtripIssues { count: u64 },
    InvalidGeneratedPath,
    DuplicateArchiveMember(String),
    SizeOverflow,
    CommitRollback { source: String, restore: String },
    Conversion(String),
    Validation(String),
    Runtime(String),
    Asset(String),
    Json(String),
    Zip(String),
    Walk(String),
    Io(String),
}

// ---------------------------------------------------------------------------
// Index fields
// ---------------------------------------------------------------------------

/// A SHA-256 value as the index writes it: 64 hexadecimal digits.
pub open spec fn is_sha256_text(s: Seq<char>) -> bool {
    s.len() == 64 && forall|i: int| 0 <= i < 64 ==> is_hex_digit(#[trigger] s[i])
}

/// Accepts a SHA-256 value of the index.
pub fn validate_hash(value: &str) -> (r: Result<(), ReleaseError>)
    ensures
        r is Ok <==> is_sha256_text(value@),
        r matches Err(e) ==> (e matches ReleaseError::DatasetIndexInvalid(m) && m@
            == "invalid SHA-256 value: "@ + value@),
{
    let c = chars_of(value);
    let mut ok = c.len() == 64;
    let mut i: usize = 0;
    while ok && i < c.len()
        invariant
            c@ == value@,
            i <= c@.len(),
            ok ==> c@.len() == 64 && forall|k: int| 0 <= k < i ==> is_hex_digit(#[trigger] c@[k]),
            !ok ==> !is_sha256_text(value@),
        decreases c@.len() - i,
    {
        if !is_hex_digit_char(c[i]) {
            ok = false;
        }
        i = i + 1;
    }
    if ok {
        Ok(())
    } else {
        Err(ReleaseError::DatasetIndexInvalid(concat("invalid SHA-256 value: ", value)))
    }
}

/// Accepts a required index field that is not empty.
pub fn required(value: String, field: &str) -> (r: Result<String, ReleaseError>)
    ensures
        r is Ok <==> value@.len() > 0,
        r matches Ok(v) ==> v == value,
        r matches Err(e) ==> (e matches ReleaseError::DatasetIndexInvalid(m) && m@ == field@
            + " must not be empty"@),
{
    if value.as_str().is_empty() {
        Err(ReleaseError::DatasetIndexInvalid(concat(field, " must not be empty")))
    } else {
        Ok(value)
    }
}

// ---------------------------------------------------------------------------
// Portable relative paths
// ---------------------------------------------------------------------------

/// A control character (Unicode category Cc).
pub open spec fn is_control(c: char) -> bool {
    c <= '\u{1f}' || ('\u{7f}' <= c && c <= '\u{9f}')
}

/// A character that Windows does not allow in file names.
pub open spec fn is_reserved_char(c: char) -> bool {
    c == '<' || c == '>' || c == ':' || c == '"' || c == '|' || c == '?' || c == '*'
}

/// The part of a file name before its first `.`, upper-cased.
pub open spec fn upper_stem(v: Seq<char>) -> Seq<char> {
    upper(split(v, '.')[0])
}

/// A stem that Windows reserves for devices.
pub open spec fn is_device_stem(stem: Seq<char>) -> bool {
    ||| stem == "CON"@
    ||| stem == "PRN"@
    ||| stem == "AUX"@
    ||| stem == "NUL"@
    ||| (stem.len() == 4 && (starts_with(stem, "COM"@) || starts_with(stem, "LPT"@)) && '1'
        <= stem[3] && stem[3] <= '9')
}

/// A path component that is valid on every supported platform: it does not end in
/// a space or a dot, holds no control or reserved character, and is not a device
/// name.
pub open spec fn portable_component(v: Seq<char>) -> bool {
    &&& !ends_with(v, " "@)
    &&& !ends_with(v, "."@)
    &&& forall|i: int| 0 <= i < v.len() ==> !is_control(#[trigger] v[i]) && !is_reserved_char(v[i])
    &&& !is_device_stem(upper_stem(v))
}

/// Whether a path component is portable.
pub fn is_portable_component(value: &str) -> (r: bool)
    ensures
        r == portable_component(value@),
{
    let c = chars_of(value);
    proof {
        reveal_strlit(" ");
        reveal_strlit(".");
        assert(" "@ =~= seq![' ']);
        assert("."@ =~= seq!['.']);
    }
    if c.len() > 0 && (c[c.len() - 1] == ' ' || c[c.len() - 1] == '.') {
        assert(c@.subrange(c@.len() - 1, c@.len() as int) =~= seq![c@[c@.len() - 1]]);
        return false;
    }
    proof {
        if c@.len() > 0 {
            let tail = c@.subrange(c@.len() - 1, c@.len() as int);
            assert(tail =~= seq![c@[c@.len() - 1]]);
            assert(tail[0] != ' ' && tail[0] != '.');
            assert(tail != " "@);
            assert(tail != "."@);
        }
    }
    assert(!ends_with(value@, " "@));
    assert(!ends_with(value@, "."@));
    let mut i: usize = 0;
    while i < c.len()
        invariant
            c@ == value@,
            i <= c@.len(),
            forall|k: int| 0 <= k < i ==> !is_control(#[trigger] c@[k]) && !is_reserved_char(c@[k]),
        decreases c@.len() - i,
    {
        let ch = c[i];
        if ch <= '\u{1f}' || (ch >= '\u{7f}' && ch <= '\u{9f}') || ch == '<' || ch == '>' || ch
            == ':' || ch == '"' || ch == '|' || ch == '?' || ch == '*' {
            return false;
        }
        i = i + 1;
    }
    let parts = split_chars(c.as_slice(), '.');
    proof {
        crate::text::lemma_split_nonempty(c@, '.');
        assert(parts@.map_values(|v: Vec<char>| v@)[0] == parts@[0]@);
    }
    let stem = upper_chars(parts[0].as_slice());
    let s = string_of(stem.as_slice());
    let device = str_eq(s.as_str(), "CON") || str_eq(s.as_str(), "PRN") || str_eq(s.as_str(), "AUX")
        || str_eq(s.as_str(), "NUL") || (stem.len() == 4 && (crate::text::str_starts_with(
        s.as_str(),
        "COM",
    ) || crate::text::str_starts_with(s.as_str(), "LPT")) && stem[3] >= '1' && stem[3] <= '9');
    !device
}

/// A relative path that is safe to resolve under a root on every platform: not
/// empty, no backslash, and every `/`-separated component non-empty, not `.` or
/// `..`, and portable.
pub open spec fn safe_relative_path(raw: Seq<char>) -> bool {
    &&& raw.len() > 0
    &&& forall|i: int| 0 <= i < raw.len() ==> #[trigger] raw[i] != '\\'
    &&& forall|k: int|
        0 <= k < split(raw, '/').len() ==> {
            let part = #[trigger] split(raw, '/')[k];
            &&& part.len() > 0
            &&& part != "."@
            &&& part != ".."@
            &&& portable_component(part)
        }
}

/// Accepts a safe relative path (see `safe_relative_path`) and returns it.
pub fn safe_relative(raw: &str) -> (r: Result<String, ReleaseError>)
    ensures
        r is Ok <==> safe_relative_path(raw@),
        r matches Ok(s) ==> s@ == raw@,
        r matches Err(e) ==> (e matches ReleaseError::UnsafePath(p) && p@ == raw@),
{
    let c = chars_of(raw);
    if c.len() == 0 {
        return Err(ReleaseError::UnsafePath(owned(raw)));
    }
    let mut i: usize = 0;
    while i < c.len()
        invariant
            c@ == raw@,
            i <= c@.len(),
            forall|k: int| 0 <= k < i ==> #[trigger] c@[k] != '\\',
        decreases c@.len() - i,
    {
        if c[i] == '\\' {
            return Err(ReleaseError::UnsafePath(owned(raw)));
        }
        i = i + 1;
    }
    let parts = split_chars(c.as_slice(), '/');
    let ghost pv = parts@.map_values(|v: Vec<char>| v@);
    proof {
        reveal_strlit(".");
        reveal_strlit("..");
    }
    let mut k: usize = 0;
    while k < parts.len()
        invariant
            c@ == raw@,
            pv == parts@.map_values(|v: Vec<char>| v@),
            pv == split(raw@, '/'),
            k <= parts@.len(),
            forall|m: int|
                0 <= m < k ==> {
                    let part = #[trigger] pv[m];
                    &&& part.len() > 0
                    &&& part != "."@
                    &&& part != ".."@
                    &&& portable_component(part)
                },
        decreases parts@.len() - k,
    {
        let part = string_of(parts[k].as_slice());
        assert(pv[k as int] == part@);
        if part.as_str().is_empty() || str_eq(part.as_str(), ".") || str_eq(part.as_str(), "..")
            || !is_portable_component(part.as_str()) {
            return Err(ReleaseError::UnsafePath(owned(raw)));
        }
        k = k + 1;
    }
    Ok(owned(raw))
}

/// A release output may neither lie inside its input nor contain it; both paths
/// are taken as already resolved to their canonical form.
pub fn reject_overlapping_output(input: &str, output: &str) -> (r: Result<(), ReleaseError>)
    ensures
        r is Ok <==> !(path_starts_with(output@, input@) || path_starts_with(input@, output@)),
        r matches Err(e) ==> (e matches ReleaseError::OutputInsideInput(p) && p@ == output@),
{
    if starts_with_path(output, input) || starts_with_path(input, output) {
        Err(ReleaseError::OutputInsideInput(owned(output)))
    } else {
        Ok(())
    }
}

// ---------------------------------------------------------------------------
// Round-trip reporting
// ---------------------------------------------------------------------------

/// Counts a mismatch and keeps it while fewer than the inline limit are kept.
pub fn record_mismatch(
    mismatches: &mut Vec<RoundtripMismatchV1>,
    mismatch_count: &mut u64,
    mismatch: RoundtripMismatchV1,
) -> (r: Result<(), ReleaseError>)
    ensures
        r is Ok <==> *old(mismatch_count) < u64::MAX,
        r is Ok ==> *final(mismatch_count) == *old(mismatch_count) + 1,
        r is Ok ==> final(mismatches)@ == if old(mismatches)@.len() < INLINE_ITEM_LIMIT {
            old(mismatches)@.push(mismatch)
        } else {
            old(mismatches)@
        },
        r matches Err(e) ==> e is SizeOverflow && *final(mismatch_count) == *old(mismatch_count)
            && final(mismatches)@ == old(mismatches)@,
{
    if *mismatch_count == u64::MAX {
        return Err(ReleaseError::SizeOverflow);
    }
    *mismatch_count = *mismatch_count + 1;
    if mismatches.len() < INLINE_ITEM_LIMIT {
        mismatches.push(mismatch);
    }
    Ok(())
}

// ---------------------------------------------------------------------------
// Exact dataset references
// ---------------------------------------------------------------------------

/// The dataset type that a reference's `@type` names (compared in ASCII lower
/// case).
pub open spec fn dataset_type_of(t: Seq<char>) -> Option<Seq<char>> {
    let l = lower(t);
    if l == "contact data set"@ {
        Some("contact"@)
    } else if l == "flow data set"@ {
        Some("flow"@)
    } else if l == "flow property data set"@ {
        Some("flowproperty"@)
    } else if l == "unit group data set"@ {
        Some("unitgroup"@)
    } else if l == "process data set"@ {
        Some("process"@)
    } else if l == "source data set"@ {
        Some("source"@)
    } else if l == "lcia method data set"@ {
        Some("lciamethod"@)
    } else if l == "life cycle model data set"@ {
        Some("lifecyclemodel"@)
    } else {
        None
    }
}

/// The plural of a dataset type's name: `y` becomes `ies`, a final `s` takes
/// `es`, any other name takes `s`.
pub open spec fn plural(k: Seq<char>) -> Seq<char> {
    if k.len() > 0 && k.last() == 'y' {
        k.drop_last() + "ies"@
    } else if k.len() > 0 && k.last() == 's' {
        k + "es"@
    } else {
        k + "s"@
    }
}

/// Law: each of the eight ILCD dataset type names, in any ASCII case, names
/// its dataset type, and no other text names one.
pub proof fn law_dataset_type_names(t: Seq<char>)
    ensures
        lower(t) == "contact data set"@ ==> dataset_type_of(t) == Some("contact"@),
        lower(t) == "flow data set"@ ==> dataset_type_of(t) == Some("flow"@),
        lower(t) == "flow property data set"@ ==> dataset_type_of(t) == Some("flowproperty"@),
        lower(t) == "unit group data set"@ ==> dataset_type_of(t) == Some("unitgroup"@),
        lower(t) == "process data set"@ ==> dataset_type_of(t) == Some("process"@),
        lower(t) == "source data set"@ ==> dataset_type_of(t) == Some("source"@),
        lower(t) == "lcia method data set"@ ==> dataset_type_of(t) == Some("lciamethod"@),
        lower(t) == "life cycle model data set"@ ==> dataset_type_of(t) == Some("lifecyclemodel"@),
        dataset_type_of(t) is Some ==> (lower(t) == "contact data set"@ || lower(t) == "flow data set"@ || lower(t)
            == "flow property data set"@ || lower(t) == "unit group data set"@ || lower(t) == "process data set"@
            || lower(t) == "source data set"@ || lower(t) == "lcia method data set"@ || lower(t)
            == "life cycle model data set"@),
{
    crate::references::lemma_type_names_differ();
    crate::references::lemma_type_name_lengths();
}

/// Law: the dataset type a reference's `@type` names in a release and the
/// category its `@type` names when references are extracted agree: the
/// category is the plural of the dataset type; and every `... data set` name
/// that has a category, but the `lifecycle model data set` spelling, has a
/// dataset type.
pub proof fn law_dataset_type_agrees_with_category(t: Seq<char>)
    ensures
        dataset_type_of(t) matches Some(k) ==> crate::references::type_category(lower(t)) == Some(plural(k)),
        crate::references::type_category(lower(t)) is Some && ends_with(lower(t), " data set"@) && lower(t)
            != "lifecycle model data set"@ ==> dataset_type_of(t) is Some,
{
    crate::references::lemma_type_names_differ();
    crate::references::lemma_type_name_lengths();
    crate::references::lemma_category_lengths();
    let l = lower(t);
    reveal_strlit("s");
    reveal_strlit("es");
    reveal_strlit("ies");
    reveal_strlit("contact");
    reveal_strlit("contacts");
    reveal_strlit("flow");
    reveal_strlit("flows");
    reveal_strlit("flowproperty");
    reveal_strlit("flowproperties");
    reveal_strlit("unitgroup");
    reveal_strlit("unitgroups");
    reveal_strlit("process");
    reveal_strlit("processes");
    reveal_strlit("source");
    reveal_strlit("sources");
    reveal_strlit("lciamethod");
    reveal_strlit("lciamethods");
    reveal_strlit("lifecyclemodel");
    reveal_strlit("lifecyclemodels");
    assert(plural("contact"@) =~= "contacts"@);
    assert(plural("flow"@) =~= "flows"@);
    assert(plural("flowproperty"@) =~= "flowproperties"@);
    assert(plural("unitgroup"@) =~= "unitgroups"@);
    assert(plural("process"@) =~= "processes"@);
    assert(plural("source"@) =~= "sources"@);
    assert(plural("lciamethod"@) =~= "lciamethods"@);
    assert(plural("lifecyclemodel"@) =~= "lifecyclemodels"@);
    if crate::references::type_category(l) is Some && ends_with(l, " data set"@) && l != "lifecycle model data set"@ {
        reveal_strlit(" data set");
        reveal_strlit("contact");
        reveal_strlit("flow");
        reveal_strlit("flow property");
        reveal_strlit("lcia method");
        reveal_strlit("life cycle model");
        reveal_strlit("lifecycle model");
        reveal_strlit("process");
        reveal_strlit("source");
        reveal_strlit("unit group");
        assert(l != "contact"@ && l != "flow"@ && l != "flow property"@ && l != "lcia method"@ && l != "life cycle model"@
            && l != "lifecycle model"@ && l != "process"@ && l != "source"@ && l != "unit group"@) by {
            let tail = l.subrange(l.len() - 9, l.len() as int);
            assert(tail == " data set"@);
            assert(tail[0] == ' ');
            assert(tail[1] == 'd');
            if l == "flow property"@ {
                assert(l[5] == 'p');
                assert(tail[1] == l[5]);
            }
        }
    }
}

/// The dataset type named by a reference's `@type`.
pub fn reference_dataset_type(value: &str) -> (r: Option<&'static str>)
    ensures
        r matches Some(t) ==> dataset_type_of(value@) == Some(t@),
        r is None ==> dataset_type_of(value@) is None,
{
    let l = to_ascii_lowercase(value);
    let s = l.as_str();
    if str_eq(s, "contact data set") {
        Some("contact")
    } else if str_eq(s, "flow data set") {
        Some("flow")
    } else if str_eq(s, "flow property data set") {
        Some("flowproperty")
    } else if str_eq(s, "unit group data set") {
        Some("unitgroup")
    } else if str_eq(s, "process data set") {
        Some("process")
    } else if str_eq(s, "source data set") {
        Some("source")
    } else if str_eq(s, "lcia method data set") {
        Some("lciamethod")
    } else if str_eq(s, "life cycle model data set") {
        Some("lifecyclemodel")
    } else {
        None
    }
}

/// A member that points to an earlier version of the dataset itself; references
/// below it are not part of the closure.
pub open spec fn preceding_version_key(key: Seq<char>) -> bool {
    lower(last_piece(key, ':')) == lower("referenceToPrecedingDataSetVersion"@)
}

pub fn is_preceding_version_reference(key: &str) -> (r: bool)
    ensures
        r == preceding_version_key(key@),
{
    let c = chars_of(key);
    let name = string_of(last_piece_chars(c.as_slice(), ':').as_slice());
    eq_ignore_ascii_case(name.as_str(), "referenceToPrecedingDataSetVersion")
}

/// A reference found in a document: the referenced dataset key and where it was
/// found.
pub type Reference = (Seq<char>, Seq<char>);

/// The reference an object itself makes, if any: an object with `@refObjectId`
/// and a dataset `@type` (not under a preceding-version member) references
/// `type:id:version`, and must name its `@version`.
pub open spec fn own_reference(v: JsonValue, location: Seq<char>, parent: Option<Seq<char>>) -> Result<
    Set<Reference>,
    Seq<char>,
> {
    if parent matches Some(p) && preceding_version_key(p) {
        Ok(Set::empty())
    } else {
        match (v.member_text("@refObjectId"@), v.member_text("@type"@)) {
            (Some(id), Some(t)) => match dataset_type_of(t) {
                Some(dt) => match v.member_text("@version"@) {
                    Some(version) => if version.len() > 0 {
                        Ok(set![(dt + ":"@ + unicode_lower(id) + ":"@ + version, location)])
                    } else {
                        Err(location + " -> "@ + t + " "@ + id)
                    },
                    None => Err(location + " -> "@ + t + " "@ + id),
                },
                None => Ok(Set::empty()),
            },
            _ => Ok(Set::empty()),
        }
    }
}

pub open spec fn union_result(
    a: Result<Set<Reference>, Seq<char>>,
    b: Result<Set<Reference>, Seq<char>>,
) -> Result<Set<Reference>, Seq<char>> {
    match a {
        Err(e) => Err(e),
        Ok(x) => match b {
            Err(e) => Err(e),
            Ok(y) => Ok(x + y),
        },
    }
}

/// The references in a JSON document below `location`, or the location of the
/// first reference (in document order) that omits its version.
pub open spec fn references_in(v: JsonValue, location: Seq<char>, parent: Option<Seq<char>>) -> Result<
    Set<Reference>,
    Seq<char>,
>
    decreases v,
{
    match v {
        JsonValue::Object(members) => union_result(
            own_reference(v, location, parent),
            references_in_members(members@, location),
        ),
        JsonValue::Array(items) => references_in_items(items@, location, parent, 0),
        _ => Ok(Set::empty()),
    }
}

pub open spec fn references_in_members(ms: Seq<(String, JsonValue)>, location: Seq<char>) -> Result<
    Set<Reference>,
    Seq<char>,
>
    decreases ms,
{
    if ms.len() == 0 {
        Ok(Set::empty())
    } else {
        union_result(
            references_in(ms[0].1, location + "/"@ + ms[0].0@, Some(ms[0].0@)),
            references_in_members(ms.subrange(1, ms.len() as int), location),
        )
    }
}

pub open spec fn references_in_items(
    items: Seq<JsonValue>,
    location: Seq<char>,
    parent: Option<Seq<char>>,
    first_index: nat,
) -> Result<Set<Reference>, Seq<char>>
    decreases items,
{
    if items.len() == 0 {
        Ok(Set::empty())
    } else {
        union_result(
            references_in(items[0], location + "/"@ + decimal(first_index), parent),
            references_in_items(items.subrange(1, items.len() as int), location, parent, first_index + 1),
        )
    }
}

/// The order of references: by key, then by location.
pub open spec fn reference_lt(a: Reference, b: Reference) -> bool {
    text_lt(a.0, b.0) || (a.0 == b.0 && text_lt(a.1, b.1))
}

pub proof fn lemma_reference_order(a: Reference, b: Reference, c: Reference)
    ensures
        reference_lt(a, b) || reference_lt(b, a) || a == b,
        !(reference_lt(a, b) && reference_lt(b, a)),
        !reference_lt(a, a),
        reference_lt(a, b) && reference_lt(b, c) ==> reference_lt(a, c),
{
    lemma_text_lt_trichotomy(a.0, b.0);
    lemma_text_lt_trichotomy(a.1, b.1);
    lemma_text_lt_irreflexive(a.0);
    lemma_text_lt_irreflexive(a.1);
    if reference_lt(a, b) && reference_lt(b, c) {
        if text_lt(a.0, b.0) && text_lt(b.0, c.0) {
            lemma_text_lt_transitive(a.0, b.0, c.0);
        }
        if a.0 == b.0 && b.0 == c.0 && text_lt(a.1, b.1) && text_lt(b.1, c.1) {
            lemma_text_lt_transitive(a.1, b.1, c.1);
        }
    }
    if a.0 == b.0 && a.1 == b.1 {
        assert(a == b);
    }
}

/// A set of references kept in ascending order.
pub struct ReferenceSet {
    items: Vec<(String, String)>,
}

pub open spec fn reference_views(v: Seq<(String, String)>) -> Seq<Reference> {
    v.map_values(|p: (String, String)| (p.0@, p.1@))
}

impl ReferenceSet {
    /// The references, in ascending order.
    pub closed spec fn view_seq(self) -> Seq<Reference> {
        reference_views(self.items@)
    }

    pub open spec fn refs(self) -> Set<Reference> {
        self.view_seq().to_set()
    }

    /// The references are strictly ascending.
    pub open spec fn wf(self) -> bool {
        forall|i: int, j: int|
            0 <= i < j < self.view_seq().len() ==> reference_lt(
                #[trigger] self.view_seq()[i],
                #[trigger] self.view_seq()[j],
            )
    }

    pub fn new() -> (s: Self)
        ensures
            s.wf(),
            s.view_seq() == Seq::<Reference>::empty(),
            s.refs() == Set::<Reference>::empty(),
    {
        let s = ReferenceSet { items: Vec::new() };
        assert(s.view_seq() =~= Seq::<Reference>::empty());
        assert(s.refs() =~= Set::<Reference>::empty());
        s
    }

    pub fn len(&self) -> (n: usize)
        ensures
            n == self.view_seq().len(),
    {
        self.items.len()
    }

    /// The reference at a position of the ascending order.
    pub fn get(&self, i: usize) -> (r: &(String, String))
        requires
            i < self.view_seq().len(),
        ensures
            (r.0@, r.1@) == self.view_seq()[i as int],
    {
        &self.items[i]
    }

    /// Adds a reference (nothing changes when it is already present).
    pub fn insert(&mut self, key: String, location: String)
        requires
            old(self).wf(),
        ensures
            final(self).wf(),
            final(self).refs() == old(self).refs().insert((key@, location@)),
    {
        let ghost x: Reference = (key@, location@);
        let ghost v = self.view_seq();
        let mut p: usize = 0;
        let mut found = false;
        while !found && p < self.items.len()
            invariant
                p <= v.len(),
                v == self.view_seq(),
                x == (key@, location@),
                v.len() == self.items@.len(),
                forall|k: int| 0 <= k < p ==> reference_lt(#[trigger] v[k], x),
                found ==> p < v.len() && !reference_lt(v[p as int], x),
            decreases v.len() - p, if found { 0int } else { 1int },
        {
            assert(v[p as int] == (self.items@[p as int].0@, self.items@[p as int].1@));
            let c1 = compare_str(self.items[p].0.as_str(), key.as_str());
            let c2 = compare_str(self.items[p].1.as_str(), location.as_str());
            let below = c1 == -1 || (c1 == 0 && c2 == -1);
            assert(below == reference_lt(v[p as int], x));
            if below {
                p = p + 1;
            } else {
                found = true;
            }
        }
        if p < self.items.len() {
            let same = str_eq(self.items[p].0.as_str(), key.as_str()) && str_eq(
                self.items[p].1.as_str(),
                location.as_str(),
            );
            if same {
                assert(v[p as int] == x);
                assert(v.to_set().insert(x) =~= v.to_set()) by {
                    assert(v.contains(x));
                }
                return ;
            }
        }
        proof {
            assert forall|k: int| p <= k < v.len() implies reference_lt(x, #[trigger] v[k]) by {
                lemma_reference_order(v[p as int], x, x);
                if k > p {
                    lemma_reference_order(x, v[p as int], v[k]);
                }
            }
        }
        self.items.insert(p, (key, location));
        let ghost w = self.view_seq();
        assert(w =~= v.insert(p as int, x));
        proof {
            assert forall|i: int, j: int| 0 <= i < j < w.len() implies reference_lt(
                #[trigger] w[i],
                #[trigger] w[j],
            ) by {
                if i < p && j == p {
                } else if i < p && j > p {
                    assert(w[j] == v[j - 1]);
                    assert(w[i] == v[i]);
                } else if i == p {
                    assert(w[j] == v[j - 1]);
                } else if i > p {
                    assert(w[i] == v[i - 1]);
                    assert(w[j] == v[j - 1]);
                } else {
                    assert(w[i] == v[i]);
                    assert(w[j] == v[j]);
                }
            }
            assert forall|y: Reference| w.to_set().contains(y) == v.to_set().insert(x).contains(y) by {
                if w.contains(y) {
                    let k = choose|k: int| 0 <= k < w.len() && w[k] == y;
                    if k < p {
                        assert(v[k] == y);
                    } else if k > p {
                        assert(v[k - 1] == y);
                    }
                }
                if v.contains(y) {
                    let k = choose|k: int| 0 <= k < v.len() && v[k] == y;
                    if k < p {
                        assert(w[k] == y);
                    } else {
                        assert(w[k + 1] == y);
                    }
                }
                if y == x {
                    assert(w[p as int] == x);
                }
            }
            assert(w.to_set() =~= v.to_set().insert(x));
        }
    }
}

/// The text of an optional key.
pub open spec fn opt_text(o: Option<&str>) -> Option<Seq<char>> {
    match o {
        Some(s) => Some(s@),
        None => None,
    }
}

/// The reference an object makes itself (see `own_reference`).
fn own_reference_of(
    value: &JsonValue,
    location: &str,
    parent_key: Option<&str>,
    output: &mut ReferenceSet,
) -> (r: Result<(), ReleaseError>)
    requires
        old(output).wf(),
    ensures
        final(output).wf(),
        match own_reference(*value, location@, opt_text(parent_key)) {
            Ok(s) => r is Ok && final(output).refs() == old(output).refs() + s,
            Err(m) => r matches Err(ReleaseError::ReferenceVersionMissing(x)) && x@ == m,
        },
{
    if let Some(p) = parent_key {
        if is_preceding_version_reference(p) {
            assert(old(output).refs() + Set::<Reference>::empty() =~= old(output).refs());
            return Ok(());
        }
    }
    let id = match value.get_str("@refObjectId") {
        Some(id) => id,
        None => {
            assert(old(output).refs() + Set::<Reference>::empty() =~= old(output).refs());
            return Ok(());
        },
    };
    let kind = match value.get_str("@type") {
        Some(t) => t,
        None => {
            assert(old(output).refs() + Set::<Reference>::empty() =~= old(output).refs());
            return Ok(());
        },
    };
    let dt = match reference_dataset_type(kind) {
        Some(dt) => dt,
        None => {
            assert(old(output).refs() + Set::<Reference>::empty() =~= old(output).refs());
            return Ok(());
        },
    };
    let version = match value.get_str("@version") {
        Some(v) => if v.is_empty() {
            None
        } else {
            Some(v)
        },
        None => None,
    };
    match version {
        Some(version) => {
            let lowered = crate::text::to_lowercase(id);
            let head = concat3(dt, ":", lowered.as_str());
            let key = concat3(head.as_str(), ":", version);
            output.insert(key, owned(location));
            assert(old(output).refs().insert((key@, location@)) =~= old(output).refs() + set![
                (key@, location@),
            ]);
            Ok(())
        },
        None => {
            let head = concat3(location, " -> ", kind);
            let message = concat3(head.as_str(), " ", id);
            Err(ReleaseError::ReferenceVersionMissing(message))
        },
    }
}

/// Collects the exact dataset references of a JSON document below `location`
/// (see `references_in`).
pub fn walk_references(
    value: &JsonValue,
    location: &str,
    parent_key: Option<&str>,
    output: &mut ReferenceSet,
) -> (r: Result<(), ReleaseError>)
    requires
        old(output).wf(),
    ensures
        final(output).wf(),
        match references_in(*value, location@, opt_text(parent_key)) {
            Ok(s) => r is Ok && final(output).refs() == old(output).refs() + s,
            Err(m) => r matches Err(ReleaseError::ReferenceVersionMissing(x)) && x@ == m,
        },
    decreases value,
{
    let ghost goal = union_result(Ok(old(output).refs()), references_in(*value, location@, opt_text(parent_key)));
    match value {
        JsonValue::Object(members) => {
            let ghost start = output.refs();
            match own_reference_of(value, location, parent_key, output) {
                Ok(()) => {},
                Err(e) => return Err(e),
            }
            let mut i: usize = 0;
            assert(members@.subrange(0, members@.len() as int) =~= members@);
            assert(goal =~= union_result(Ok(output.refs()), references_in_members(members@, location@))) by {
                let own = own_reference(*value, location@, opt_text(parent_key));
                let rest = references_in_members(members@, location@);
                if let Ok(a) = own {
                    if let Ok(b) = rest {
                        assert(start + (a + b) =~= (start + a) + b);
                    }
                }
            }
            while i < members.len()
                invariant
                    i <= members@.len(),
                    *value == JsonValue::Object(*members),
                    output.wf(),
                    goal == union_result(Ok(old(output).refs()), references_in(*value, location@, opt_text(parent_key))),
                    goal == union_result(
                        Ok(output.refs()),
                        references_in_members(members@.subrange(i as int, members@.len() as int), location@),
                    ),
                decreases members@.len() - i,
            {
                let ghost rest = members@.subrange(i as int, members@.len() as int);
                let ghost before = output.refs();
                assert(rest[0] == members@[i as int]);
                proof {
                    assert(decreases_to!(*value => (*value)->Object_0));
                    vstd::std_specs::vec::axiom_vec_index_decreases(*members, i as int);
                    assert(decreases_to!(members@[i as int] => members@[i as int].1));
                }
                let child_location = concat3(location, "/", members[i].0.as_str());
                match walk_references(&members[i].1, child_location.as_str(), Some(members[i].0.as_str()), output) {
                    Ok(()) => {},
                    Err(e) => {
                        proof {
                            assert(references_in_members(rest, location@) == union_result(
                                references_in(rest[0].1, location@ + "/"@ + rest[0].0@, Some(rest[0].0@)),
                                references_in_members(rest.subrange(1, rest.len() as int), location@),
                            ));
                        }
                        return Err(e);
                    },
                }
                i = i + 1;
                let ghost tail = members@.subrange(i as int, members@.len() as int);
                assert(rest.subrange(1, rest.len() as int) =~= tail);
                proof {
                    let a = references_in(members@[i - 1].1, location@ + "/"@ + members@[i - 1].0@, Some(members@[i - 1].0@));
                    let b = references_in_members(tail, location@);
                    if let Ok(x) = a {
                        if let Ok(y) = b {
                            assert(before + (x + y) =~= (before + x) + y);
                        }
                    }
                }
            }
            proof {
                assert(members@.subrange(i as int, members@.len() as int) =~= Seq::<(String, JsonValue)>::empty());
                assert(output.refs() + Set::<Reference>::empty() =~= output.refs());
            }
            Ok(())
        },
        JsonValue::Array(items) => {
            let mut i: usize = 0;
            assert(items@.subrange(0, items@.len() as int) =~= items@);
            assert(goal =~= union_result(Ok(output.refs()), references_in_items(items@, location@, opt_text(parent_key), 0)));
            while i < items.len()
                invariant
                    i <= items@.len(),
                    *value == JsonValue::Array(*items),
                    output.wf(),
                    goal == union_result(Ok(old(output).refs()), references_in(*value, location@, opt_text(parent_key))),
                    goal == union_result(
                        Ok(output.refs()),
                        references_in_items(items@.subrange(i as int, items@.len() as int), location@, opt_text(parent_key), i as nat),
                    ),
                decreases items@.len() - i,
            {
                let ghost rest = items@.subrange(i as int, items@.len() as int);
                let ghost before = output.refs();
                assert(rest[0] == items@[i as int]);
                proof {
                    assert(decreases_to!(*value => (*value)->Array_0));
                    vstd::std_specs::vec::axiom_vec_index_decreases(*items, i as int);
                }
                let index_text = crate::text::decimal_string(i as u64);
                let child_location = concat3(location, "/", index_text.as_str());
                match walk_references(&items[i], child_location.as_str(), parent_key, output) {
                    Ok(()) => {},
                    Err(e) => {
                        proof {
                            assert(references_in_items(rest, location@, opt_text(parent_key), i as nat) == union_result(
                                references_in(rest[0], location@ + "/"@ + decimal(i as nat), opt_text(parent_key)),
                                references_in_items(rest.subrange(1, rest.len() as int), location@, opt_text(parent_key), (i + 1) as nat),
                            ));
                        }
                        return Err(e);
                    },
                }
                i = i + 1;
                let ghost tail = items@.subrange(i as int, items@.len() as int);
                assert(rest.subrange(1, rest.len() as int) =~= tail);
                proof {
                    let a = references_in(items@[i - 1], location@ + "/"@ + decimal((i - 1) as nat), opt_text(parent_key));
                    let b = references_in_items(tail, location@, opt_text(parent_key), i as nat);
                    if let Ok(x) = a {
                        if let Ok(y) = b {
                            assert(before + (x + y) =~= (before + x) + y);
                        }
                    }
                }
            }
            proof {
                assert(items@.subrange(i as int, items@.len() as int) =~= Seq::<JsonValue>::empty());
                assert(output.refs() + Set::<Reference>::empty() =~= output.refs());
            }
            Ok(())
        },
        _ => {
            assert(old(output).refs() + Set::<Reference>::empty() =~= old(output).refs());
            Ok(())
        },
    }
}

// ---------------------------------------------------------------------------
// The canonical dataset index
// ---------------------------------------------------------------------------

/// One dataset of the canonical index.
#[derive(Debug)]
pub struct DatasetEntry {
    pub dataset_type: String,
    pub role: String,
    pub uuid: String,
    pub version: String,
    pub relative_path: String,
    pub sha256: String,
    pub canonical_content_hash: String,
}

impl DatasetEntry {
    /// The identity of a dataset: `type:uuid:version`, the UUID in lower case.
    pub open spec fn spec_key(&self) -> Seq<char> {
        self.dataset_type@ + ":"@ + unicode_lower(self.uuid@) + ":"@ + self.version@
    }

    pub fn key(&self) -> (r: String)
        ensures
            r@ == self.spec_key(),
    {
        let uuid = crate::text::to_lowercase(self.uuid.as_str());
        let head = concat3(self.dataset_type.as_str(), ":", uuid.as_str());
        concat3(head.as_str(), ":", self.version.as_str())
    }

    pub fn duplicate(&self) -> (r: DatasetEntry)
        ensures
            r == *self,
    {
        DatasetEntry {
            dataset_type: self.dataset_type.clone(),
            role: self.role.clone(),
            uuid: self.uuid.clone(),
            version: self.version.clone(),
            relative_path: self.relative_path.clone(),
            sha256: self.sha256.clone(),
            canonical_content_hash: self.canonical_content_hash.clone(),
        }
    }
}

/// Datasets keyed by identity, in ascending key order.
pub struct DatasetIndex {
    entries: Vec<(String, DatasetEntry)>,
}

impl DatasetIndex {
    /// The keys in ascending order.
    pub closed spec fn keys(self) -> Seq<Seq<char>> {
        self.entries@.map_values(|p: (String, DatasetEntry)| p.0@)
    }

    /// The entries in key order.
    pub closed spec fn values(self) -> Seq<DatasetEntry> {
        self.entries@.map_values(|p: (String, DatasetEntry)| p.1)
    }

    /// Keys are strictly ascending and each belongs to its entry.
    pub open spec fn wf(self) -> bool {
        &&& self.keys().len() == self.values().len()
        &&& forall|i: int, j: int|
            0 <= i < j < self.keys().len() ==> text_lt(#[trigger] self.keys()[i], #[trigger] self.keys()[j])
        &&& forall|i: int| 0 <= i < self.keys().len() ==> #[trigger] self.keys()[i] == self.values()[i].spec_key()
    }

    /// Whether an entry with `key` is present.
    pub open spec fn has(self, key: Seq<char>) -> bool {
        self.keys().contains(key)
    }

    pub fn new() -> (x: Self)
        ensures
            x.wf(),
            x.keys().len() == 0,
    {
        let x = DatasetIndex { entries: Vec::new() };
        assert(x.keys() =~= Seq::<Seq<char>>::empty());
        assert(x.values() =~= Seq::<DatasetEntry>::empty());
        x
    }

    pub fn len(&self) -> (n: usize)
        ensures
            n == self.keys().len(),
    {
        self.entries.len()
    }

    /// The entry at a position of the key order.
    pub fn entry_at(&self, i: usize) -> (r: &DatasetEntry)
        requires
            i < self.keys().len(),
        ensures
            *r == self.values()[i as int],
    {
        &self.entries[i].1
    }

    /// The entries in key order.
    pub fn entries(&self) -> (r: Vec<&DatasetEntry>)
        ensures
            r@.len() == self.values().len(),
            forall|i: int| 0 <= i < r@.len() ==> *r@[i] == self.values()[i],
    {
        let mut out: Vec<&DatasetEntry> = Vec::new();
        let mut i: usize = 0;
        while i < self.entries.len()
            invariant
                i <= self.entries@.len(),
                out@.len() == i,
                forall|k: int| 0 <= k < i ==> *out@[k] == self.values()[k],
            decreases self.entries@.len() - i,
        {
            out.push(&self.entries[i].1);
            i = i + 1;
        }
        out
    }

    /// The position where `key` is or would be inserted.
    fn position(&self, key: &str) -> (r: (usize, bool))
        requires
            self.wf(),
        ensures
            r.0 <= self.keys().len(),
            forall|k: int| 0 <= k < r.0 ==> text_lt(#[trigger] self.keys()[k], key@),
            r.1 <==> (r.0 < self.keys().len() && self.keys()[r.0 as int] == key@),
            !r.1 ==> forall|k: int| r.0 <= k < self.keys().len() ==> text_lt(key@, #[trigger] self.keys()[k]),
    {
        let ghost ks = self.keys();
        let mut lo: usize = 0;
        let mut hi: usize = self.entries.len();
        while lo < hi
            invariant
                ks == self.keys(),
                self.wf(),
                lo <= hi <= ks.len(),
                ks.len() == self.entries@.len(),
                forall|k: int| 0 <= k < lo ==> text_lt(#[trigger] ks[k], key@),
                forall|k: int| hi <= k < ks.len() ==> !text_lt(#[trigger] ks[k], key@),
            decreases hi - lo,
        {
            let mid = lo + (hi - lo) / 2;
            assert(ks[mid as int] == self.entries@[mid as int].0@);
            let c = compare_str(self.entries[mid].0.as_str(), key);
            if c == -1 {
                proof {
                    assert forall|k: int| 0 <= k <= mid implies text_lt(#[trigger] ks[k], key@) by {
                        if k < mid {
                            lemma_text_lt_transitive(ks[k], ks[mid as int], key@);
                        }
                    }
                }
                lo = mid + 1;
            } else {
                proof {
                    assert forall|k: int| mid <= k < ks.len() implies !text_lt(#[trigger] ks[k], key@) by {
                        lemma_text_lt_trichotomy(ks[mid as int], key@);
                        if k > mid {
                            lemma_text_lt_trichotomy(ks[k], key@);
                            if text_lt(ks[k], key@) {
                                if ks[mid as int] == key@ {
                                    lemma_text_lt_trichotomy(ks[mid as int], ks[k]);
                                } else {
                                    lemma_text_lt_transitive(key@, ks[mid as int], ks[k]);
                                    lemma_text_lt_trichotomy(key@, ks[k]);
                                }
                            }
                        }
                    }
                }
                hi = mid;
            }
        }
        if lo < self.entries.len() {
            assert(ks[lo as int] == self.entries@[lo as int].0@);
            let same = str_eq(self.entries[lo].0.as_str(), key);
            proof {
                if !same {
                    lemma_text_lt_trichotomy(ks[lo as int], key@);
                    assert forall|k: int| lo <= k < ks.len() implies text_lt(key@, #[trigger] ks[k]) by {
                        lemma_text_lt_trichotomy(ks[k], key@);
                        if k > lo && ks[k] == key@ {
                            assert(text_lt(ks[lo as int], ks[k]));
                        }
                    }
                }
            }
            (lo, same)
        } else {
            (lo, false)
        }
    }

    /// The entry with `key`.
    pub fn get(&self, key: &str) -> (r: Option<&DatasetEntry>)
        requires
            self.wf(),
        ensures
            r is Some <==> self.has(key@),
            r matches Some(e) ==> e.spec_key() == key@ && self.values().contains(*e),
    {
        let (p, found) = self.position(key);
        proof {
            if !found {
                assert forall|k: int| 0 <= k < self.keys().len() implies self.keys()[k] != key@ by {
                    if k < p {
                        lemma_text_lt_irreflexive(key@);
                    } else {
                        lemma_text_lt_irreflexive(key@);
                    }
                }
            }
        }
        if found {
            assert(self.values()[p as int] == self.entries@[p as int].1);
            Some(&self.entries[p].1)
        } else {
            None
        }
    }

    /// Inserts an entry whose identity is new, at its place in key order.
    fn insert_new(&mut self, entry: DatasetEntry)
        requires
            old(self).wf(),
            !old(self).has(entry.spec_key()),
        ensures
            final(self).wf(),
            final(self).keys().to_set() == old(self).keys().to_set().insert(entry.spec_key()),
            final(self).values().to_set() == old(self).values().to_set().insert(entry),
    {
        let key = entry.key();
        let (p, found) = self.position(key.as_str());
        let ghost ks = self.keys();
        let ghost vs = self.values();
        let ghost e = entry;
        self.entries.insert(p, (key, entry));
        proof {
            assert(self.keys() =~= ks.insert(p as int, key@));
            assert(self.values() =~= vs.insert(p as int, e));
            let nk = self.keys();
            assert forall|i: int, j: int| 0 <= i < j < nk.len() implies text_lt(#[trigger] nk[i], #[trigger] nk[j]) by {
                if i < p && j == p {
                } else if i < p && j > p {
                    lemma_text_lt_transitive(nk[i], key@, nk[j]);
                } else if i == p {
                    assert(nk[j] == ks[j - 1]);
                } else if i > p {
                    assert(nk[i] == ks[i - 1]);
                    assert(nk[j] == ks[j - 1]);
                } else {
                    assert(nk[i] == ks[i]);
                    assert(nk[j] == ks[j]);
                }
            }
            lemma_insert_to_set(ks, p as int, key@);
            lemma_insert_to_set(vs, p as int, e);
        }
    }

    /// Adds an entry; its identity and its path must both be new.
    pub fn add(&mut self, entry: DatasetEntry) -> (r: Result<(), ReleaseError>)
        requires
            old(self).wf(),
        ensures
            final(self).wf(),
            old(self).has(entry.spec_key()) ==> (r matches Err(ReleaseError::DuplicateDatasetIdentity(k)) && k@ == entry.spec_key()),
            !old(self).has(entry.spec_key()) && (exists|i: int| 0 <= i < old(self).values().len() && old(self).values()[i].relative_path@ == entry.relative_path@) ==> (r matches Err(ReleaseError::DuplicateDatasetPath(p)) && p@ == entry.relative_path@),
            r is Ok ==> final(self).keys().to_set() == old(self).keys().to_set().insert(entry.spec_key()),
            r is Ok ==> final(self).values().to_set() == old(self).values().to_set().insert(entry),
            r is Err ==> final(self).keys() == old(self).keys() && final(self).values() == old(self).values(),
    {
        let key = entry.key();
        if self.get(key.as_str()).is_some() {
            return Err(ReleaseError::DuplicateDatasetIdentity(key));
        }
        let mut i: usize = 0;
        while i < self.entries.len()
            invariant
                i <= self.entries@.len(),
                *self == *old(self),
                self.wf(),
                !old(self).has(entry.spec_key()),
                self.values().len() == self.entries@.len(),
                forall|k: int| 0 <= k < i ==> self.values()[k].relative_path@ != entry.relative_path@,
            decreases self.entries@.len() - i,
        {
            assert(self.values()[i as int] == self.entries@[i as int].1);
            if str_eq(self.entries[i].1.relative_path.as_str(), entry.relative_path.as_str()) {
                return Err(ReleaseError::DuplicateDatasetPath(entry.relative_path.clone()));
            }
            i = i + 1;
        }
        self.insert_new(entry);
        Ok(())
    }
}

/// Inserting into a sequence adds the element to its set.
pub proof fn lemma_insert_to_set<A>(s: Seq<A>, p: int, x: A)
    requires
        0 <= p <= s.len(),
    ensures
        s.insert(p, x).to_set() == s.to_set().insert(x),
{
    let w = s.insert(p, x);
    assert forall|y: A| w.to_set().contains(y) == s.to_set().insert(x).contains(y) by {
        if w.contains(y) {
            let k = choose|k: int| 0 <= k < w.len() && w[k] == y;
            if k < p {
                assert(s[k] == y);
            } else if k > p {
                assert(s[k - 1] == y);
            }
        }
        if s.contains(y) {
            let k = choose|k: int| 0 <= k < s.len() && s[k] == y;
            if k < p {
                assert(w[k] == y);
            } else {
                assert(w[k + 1] == y);
            }
        }
        if y == x {
            assert(w[p] == x);
        }
    }
    assert(w.to_set() =~= s.to_set().insert(x));
}

/// The schema identifier of canonical dataset indexes.
pub const INDEX_SCHEMA: &'static str = "tiangong.release.canonical-dataset-index.v1";

/// A canonical dataset index as read from its JSON file.
#[derive(Debug)]
pub struct RawDatasetIndex {
    pub schema_version: String,
    pub dataset_count: u64,
    pub byte_size: u64,
    pub artifact_set_hash: String,
    pub datasets: Vec<RawDatasetEntry>,
}

/// One dataset of an index as read from its JSON file.
#[derive(Debug)]
pub struct RawDatasetEntry {
    pub dataset_type: String,
    pub role: String,
    pub uuid: String,
    pub version: String,
    pub path: String,
    pub sha256: String,
    pub byte_size: u64,
    pub canonical_content_hash: String,
}

/// Checks the header of an index: its schema, that it lists datasets, and that
/// its declared count matches.
pub fn check_index_header(raw: &RawDatasetIndex) -> (r: Result<(), ReleaseError>)
    ensures
        raw.schema_version@ != INDEX_SCHEMA@ ==> (r matches Err(
            ReleaseError::DatasetIndexSchemaUnsupported(s),
        ) && s@ == raw.schema_version@),
        raw.schema_version@ == INDEX_SCHEMA@ && raw.datasets@.len() == 0 ==> (r matches Err(
            ReleaseError::DatasetIndexEmpty,
        )),
        raw.schema_version@ == INDEX_SCHEMA@ && raw.datasets@.len() > 0 && raw.dataset_count
            != raw.datasets@.len() ==> (r matches Err(ReleaseError::DatasetIndexInvalid(m)) && m@
            == "datasetCount does not match datasets length"@),
        r is Ok <==> raw.schema_version@ == INDEX_SCHEMA@ && raw.datasets@.len() > 0
            && raw.dataset_count == raw.datasets@.len(),
{
    if !str_eq(raw.schema_version.as_str(), INDEX_SCHEMA) {
        return Err(ReleaseError::DatasetIndexSchemaUnsupported(raw.schema_version.clone()));
    }
    if raw.datasets.len() == 0 {
        return Err(ReleaseError::DatasetIndexEmpty);
    }
    if raw.dataset_count != raw.datasets.len() as u64 {
        return Err(
            ReleaseError::DatasetIndexInvalid(
                owned("datasetCount does not match datasets length"),
            ),
        );
    }
    Ok(())
}

/// The entry that a raw index entry describes when all its fields are valid.
pub open spec fn entry_valid(raw: RawDatasetEntry) -> bool {
    &&& is_sha256_text(raw.sha256@)
    &&& is_sha256_text(raw.canonical_content_hash@)
    &&& safe_relative_path(raw.path@)
    &&& raw.dataset_type@.len() > 0
    &&& raw.role@.len() > 0
    &&& raw.uuid@.len() > 0
    &&& raw.version@.len() > 0
}

/// Validates one raw index entry: hashes, path, then the required fields, in
/// that order; the UUID and hashes are stored in lower case.
pub fn index_entry(raw: RawDatasetEntry) -> (r: Result<DatasetEntry, ReleaseError>)
    ensures
        r is Ok <==> entry_valid(raw),
        r matches Ok(e) ==> e.dataset_type@ == raw.dataset_type@ && e.role@ == raw.role@
            && e.uuid@ == unicode_lower(raw.uuid@) && e.version@ == raw.version@
            && e.relative_path@ == raw.path@ && e.sha256@ == unicode_lower(raw.sha256@)
            && e.canonical_content_hash@ == unicode_lower(raw.canonical_content_hash@),
        !is_sha256_text(raw.sha256@) ==> (r matches Err(ReleaseError::DatasetIndexInvalid(m))
            && m@ == "invalid SHA-256 value: "@ + raw.sha256@),
        is_sha256_text(raw.sha256@) && !is_sha256_text(raw.canonical_content_hash@) ==> (
        r matches Err(ReleaseError::DatasetIndexInvalid(m)) && m@ == "invalid SHA-256 value: "@
            + raw.canonical_content_hash@),
        is_sha256_text(raw.sha256@) && is_sha256_text(raw.canonical_content_hash@)
            && !safe_relative_path(raw.path@) ==> (r matches Err(ReleaseError::UnsafePath(p)) && p@
            == raw.path@),
{
    validate_hash(raw.sha256.as_str())?;
    validate_hash(raw.canonical_content_hash.as_str())?;
    let relative = safe_relative(raw.path.as_str())?;
    let dataset_type = required(raw.dataset_type, "datasetType")?;
    let role = required(raw.role, "role")?;
    let uuid = required(raw.uuid, "uuid")?;
    let version = required(raw.version, "version")?;
    Ok(
        DatasetEntry {
            dataset_type,
            role,
            uuid: crate::text::to_lowercase(uuid.as_str()),
            version,
            relative_path: relative,
            sha256: crate::text::to_lowercase(raw.sha256.as_str()),
            canonical_content_hash: crate::text::to_lowercase(raw.canonical_content_hash.as_str()),
        },
    )
}

// ---------------------------------------------------------------------------
// Reference closure
// ---------------------------------------------------------------------------

/// Whether a dataset is a root of a release profile.
pub open spec fn is_profile_root(profile: ReleaseProfile, e: DatasetEntry) -> bool {
    match profile {
        ReleaseProfile::UnitProcess => e.role@ == "unit_process"@,
        ReleaseProfile::StandaloneResult => e.role@ == "lifecycle_model"@ || e.role@
            == "result_process"@,
    }
}

/// The dataset keys that a document's references name.
pub open spec fn referenced_keys(refs: Set<Reference>) -> Set<Seq<char>> {
    refs.map(|r: Reference| r.0)
}

/// A walk over the exact reference closure of a profile's roots: each selected
/// dataset's document is read by the caller, its references are handed back, and
/// every referenced dataset is selected in turn.
pub struct ClosureWalk {
    profile: ReleaseProfile,
    pending: Vec<String>,
    current: Option<DatasetEntry>,
    selected: DatasetIndex,
    root_count: u64,
    reference_count: u64,
    visited_refs: Ghost<Map<Seq<char>, Set<Seq<char>>>>,
    root_keys: Ghost<Set<Seq<char>>>,
}

/// The keys that a visit pushes: for the references from last to first, each
/// key not yet selected.
pub open spec fn pushed_keys(refs: Seq<Reference>, selected: Set<Seq<char>>) -> Seq<Seq<char>>
    decreases refs.len(),
{
    if refs.len() == 0 {
        Seq::empty()
    } else {
        let rest = pushed_keys(refs.subrange(1, refs.len() as int), selected);
        if selected.contains(refs[0].0) {
            rest
        } else {
            rest.push(refs[0].0)
        }
    }
}

/// Visiting one more reference (an earlier one) appends its key when it is not
/// selected.
pub proof fn lemma_pushed_keys_step(refs: Seq<Reference>, i: int, n: int, selected: Set<Seq<char>>)
    requires
        0 <= i < n <= refs.len(),
    ensures
        pushed_keys(refs.subrange(i, n), selected) == (if selected.contains(refs[i].0) {
            pushed_keys(refs.subrange(i + 1, n), selected)
        } else {
            pushed_keys(refs.subrange(i + 1, n), selected).push(refs[i].0)
        }),
{
    let tail = refs.subrange(i, n);
    assert(tail[0] == refs[i]);
    assert(tail.subrange(1, tail.len() as int) =~= refs.subrange(i + 1, n));
}

/// Every reference whose key is not selected has its key pushed.
pub proof fn lemma_pushed_keys_cover(refs: Seq<Reference>, selected: Set<Seq<char>>)
    ensures
        forall|j: int|
            0 <= j < refs.len() && !selected.contains(#[trigger] refs[j].0) ==> pushed_keys(
                refs,
                selected,
            ).contains(refs[j].0),
    decreases refs.len(),
{
    if refs.len() > 0 {
        let rest = refs.subrange(1, refs.len() as int);
        lemma_pushed_keys_cover(rest, selected);
        let p = pushed_keys(refs, selected);
        let q = pushed_keys(rest, selected);
        assert forall|j: int| 0 <= j < refs.len() && !selected.contains(#[trigger] refs[j].0) implies p.contains(refs[j].0) by {
            if j == 0 {
                assert(p[p.len() - 1] == refs[0].0);
            } else {
                assert(rest[j - 1] == refs[j]);
                assert(q.contains(refs[j].0));
                let t = choose|t: int| 0 <= t < q.len() && q[t] == refs[j].0;
                assert(p[t] == q[t]);
            }
        }
    }
}

/// Every pushed key is the key of one of the references.
pub proof fn lemma_pushed_keys_from(refs: Seq<Reference>, selected: Set<Seq<char>>)
    ensures
        forall|t: int|
            0 <= t < pushed_keys(refs, selected).len() ==> exists|j: int|
                0 <= j < refs.len() && refs[j].0 == #[trigger] pushed_keys(refs, selected)[t],
    decreases refs.len(),
{
    if refs.len() > 0 {
        let rest = refs.subrange(1, refs.len() as int);
        lemma_pushed_keys_from(rest, selected);
        let p = pushed_keys(refs, selected);
        let q = pushed_keys(rest, selected);
        assert forall|t: int| 0 <= t < p.len() implies exists|j: int|
            0 <= j < refs.len() && refs[j].0 == #[trigger] p[t] by {
            if t < q.len() {
                assert(p[t] == q[t]);
                let j = choose|j: int| 0 <= j < rest.len() && rest[j].0 == q[t];
                assert(refs[j + 1] == rest[j]);
            } else {
                assert(p[t] == refs[0].0);
            }
        }
    }
}

/// The position of the last reference whose dataset is not in the index.
fn last_missing(index: &DatasetIndex, references: &ReferenceSet) -> (r: Option<usize>)
    requires
        index.wf(),
    ensures
        r matches Some(i) ==> i < references.view_seq().len() && !index.has(
            references.view_seq()[i as int].0,
        ) && forall|j: int|
            #![trigger references.view_seq()[j]]
            i < j < references.view_seq().len() ==> index.has(references.view_seq()[j].0),
        r is None ==> forall|j: int|
            #![trigger references.view_seq()[j]]
            0 <= j < references.view_seq().len() ==> index.has(references.view_seq()[j].0),
{
    let n = references.len();
    let mut i: usize = n;
    while i > 0
        invariant
            i <= n,
            n == references.view_seq().len(),
            index.wf(),
            forall|j: int|
                #![trigger references.view_seq()[j]]
                i <= j < n ==> index.has(references.view_seq()[j].0),
        decreases i,
    {
        i = i - 1;
        let item = references.get(i);
        if index.get(item.0.as_str()).is_none() {
            return Some(i);
        }
    }
    None
}

/// The keys of entries, in order.
pub open spec fn closure_keys(entries: Seq<DatasetEntry>) -> Seq<Seq<char>> {
    entries.map_values(|e: DatasetEntry| e.spec_key())
}

/// The message of a reference to a dataset outside the index.
pub open spec fn missing_reference_message(from: Seq<char>, r: Reference) -> Seq<char> {
    from + " "@ + r.1 + " -> "@ + r.0
}

impl ClosureWalk {
    /// The keys waiting to be visited, the last one first.
    pub closed spec fn pending_keys(self) -> Seq<Seq<char>> {
        self.pending@.map_values(|k: String| k@)
    }

    /// Keys still to be visited: those waiting and the one being visited.
    pub closed spec fn open_keys(self) -> Set<Seq<char>> {
        let waiting = self.pending_keys().to_set();
        match self.current {
            Some(c) => waiting.insert(c.spec_key()),
            None => waiting,
        }
    }

    /// The keys selected so far.
    pub closed spec fn selected_keys(self) -> Set<Seq<char>> {
        self.selected.keys().to_set()
    }

    /// The entries selected so far.
    pub closed spec fn selected_entries(self) -> Set<DatasetEntry> {
        self.selected.values().to_set()
    }

    /// The keys that each selected dataset references.
    pub closed spec fn references_of(self) -> Map<Seq<char>, Set<Seq<char>>> {
        self.visited_refs@
    }

    /// The keys of the profile's roots.
    pub closed spec fn roots(self) -> Set<Seq<char>> {
        self.root_keys@
    }

    pub closed spec fn root_total(self) -> nat {
        self.root_count as nat
    }

    /// How many references the visited documents made.
    pub closed spec fn counted_references(self) -> nat {
        self.reference_count as nat
    }

    pub closed spec fn walk_profile(self) -> ReleaseProfile {
        self.profile
    }

    pub closed spec fn current_key(self) -> Option<Seq<char>> {
        match self.current {
            Some(c) => Some(c.spec_key()),
            None => None,
        }
    }

    pub closed spec fn done(self) -> bool {
        self.pending@.len() == 0 && self.current is None
    }

    /// Every selected dataset's references and every root are selected or still
    /// open, and selections come from the index.
    pub closed spec fn wf(self, index: DatasetIndex) -> bool {
        &&& self.selected.wf()
        &&& index.wf()
        &&& forall|k: Seq<char>| self.selected_keys().contains(k) ==> index.has(k)
        &&& self.selected_entries().subset_of(index.values().to_set())
        &&& forall|k: Seq<char>| #[trigger] self.open_keys().contains(k) ==> index.has(k)
        &&& self.visited_refs@.dom() == self.selected_keys()
        &&& forall|k: Seq<char>|
            #[trigger] self.visited_refs@.contains_key(k) ==> self.visited_refs@[k].subset_of(
                self.selected_keys() + self.open_keys(),
            )
        &&& self.root_keys@.subset_of(self.selected_keys() + self.open_keys())
        &&& (self.current matches Some(c) ==> !self.selected_keys().contains(c.spec_key())
            && index.values().contains(c))
    }

    /// Starts the walk at the profile's roots, in key order; a profile without
    /// roots is an error.
    pub fn start(index: &DatasetIndex, profile: ReleaseProfile) -> (r: Result<ClosureWalk, ReleaseError>)
        requires
            index.wf(),
        ensures
            (exists|i: int| 0 <= i < index.values().len() && is_profile_root(profile, #[trigger] index.values()[i])) <==> r is Ok,
            r matches Err(e) ==> (e matches ReleaseError::ProfileRootsMissing(p) && p@ == profile.spec_id()),
            r matches Ok(w) ==> w.wf(*index) && w.selected_keys() == Set::<Seq<char>>::empty()
                && w.walk_profile() == profile && w.counted_references() == 0
                && w.references_of() == Map::<Seq<char>, Set<Seq<char>>>::empty()
                && w.current_key() is None && w.roots() == Set::new(|k: Seq<char>| exists|i: int| 0 <= i < index.values().len()
                && is_profile_root(profile, index.values()[i]) && index.keys()[i] == k),
    {
        let mut roots: Vec<String> = Vec::new();
        let ghost mut root_set = Set::<Seq<char>>::empty();
        let mut i: usize = 0;
        while i < index.len()
            invariant
                index.wf(),
                i <= index.keys().len(),
                root_set == Set::new(|k: Seq<char>| exists|j: int| 0 <= j < i
                    && is_profile_root(profile, index.values()[j]) && index.keys()[j] == k),
                roots@.map_values(|k: String| k@).to_set() == root_set,
                forall|k: Seq<char>| root_set.contains(k) ==> index.has(k),
                (roots@.len() == 0) == (forall|j: int| 0 <= j < i ==> !is_profile_root(profile, #[trigger] index.values()[j])),
            decreases index.keys().len() - i,
        {
            let e = index.entry_at(i);
            let is_root = match profile {
                ReleaseProfile::UnitProcess => str_eq(e.role.as_str(), "unit_process"),
                ReleaseProfile::StandaloneResult => str_eq(e.role.as_str(), "lifecycle_model") || str_eq(e.role.as_str(), "result_process"),
            };
            let ghost before = roots@;
            if is_root {
                let key = e.key();
                proof {
                    assert(index.keys()[i as int] == key@);
                    root_set = root_set.insert(key@);
                }
                roots.push(key);
                proof {
                    assert(roots@.map_values(|k: String| k@) =~= before.map_values(|k: String| k@).push(key@));
                    lemma_insert_to_set(before.map_values(|k: String| k@), before.len() as int, key@);
                    assert(before.map_values(|k: String| k@).insert(before.len() as int, key@) =~= before.map_values(|k: String| k@).push(key@));
                }
            }
            i = i + 1;
            proof {
                assert(root_set =~= Set::new(|k: Seq<char>| exists|j: int| 0 <= j < i
                    && is_profile_root(profile, index.values()[j]) && index.keys()[j] == k)) by {
                    assert forall|k: Seq<char>| root_set.contains(k) == (exists|j: int| 0 <= j < i
                        && is_profile_root(profile, index.values()[j]) && index.keys()[j] == k) by {
                        if exists|j: int| 0 <= j < i && is_profile_root(profile, index.values()[j]) && index.keys()[j] == k {
                            let j = choose|j: int| 0 <= j < i && is_profile_root(profile, index.values()[j]) && index.keys()[j] == k;
                            if j < i - 1 {
                                assert(exists|j2: int| 0 <= j2 < i - 1 && is_profile_root(profile, index.values()[j2]) && index.keys()[j2] == k);
                            }
                        }
                    }
                }
            }
        }
        if roots.len() == 0 {
            return Err(ReleaseError::ProfileRootsMissing(owned(profile.id())));
        }
        let root_count = roots.len() as u64;
        let mut pending: Vec<String> = Vec::new();
        let mut j: usize = roots.len();
        while j > 0
            invariant
                j <= roots@.len(),
                pending@.map_values(|k: String| k@).to_set() == roots@.subrange(j as int, roots@.len() as int).map_values(|k: String| k@).to_set(),
            decreases j,
        {
            j = j - 1;
            let ghost before = pending@;
            pending.push(roots[j].clone());
            proof {
                let a = before.map_values(|k: String| k@);
                let b = roots@.subrange(j as int, roots@.len() as int).map_values(|k: String| k@);
                let c = roots@.subrange(j + 1, roots@.len() as int).map_values(|k: String| k@);
                assert(pending@.map_values(|k: String| k@) =~= a.push(roots@[j as int]@));
                assert(b =~= seq![roots@[j as int]@] + c);
                assert(a.push(roots@[j as int]@).to_set() =~= a.to_set().insert(roots@[j as int]@)) by {
                    lemma_insert_to_set(a, a.len() as int, roots@[j as int]@);
                    assert(a.insert(a.len() as int, roots@[j as int]@) =~= a.push(roots@[j as int]@));
                }
                assert(b.to_set() =~= c.to_set().insert(roots@[j as int]@)) by {
                    lemma_insert_to_set(c, 0, roots@[j as int]@);
                    assert(c.insert(0, roots@[j as int]@) =~= b);
                }
            }
        }
        assert(roots@.subrange(0, roots@.len() as int) =~= roots@);
        let w = ClosureWalk {
            profile,
            pending,
            current: None,
            selected: DatasetIndex::new(),
            root_count,
            reference_count: 0,
            visited_refs: Ghost(Map::empty()),
            root_keys: Ghost(root_set),
        };
        proof {
            assert(w.selected_keys() =~= Set::<Seq<char>>::empty());
            assert(w.selected_entries() =~= Set::<DatasetEntry>::empty());
            assert(w.visited_refs@.dom() =~= w.selected_keys());
            assert(w.open_keys() == root_set);
        }
        Ok(w)
    }

    /// Takes the next waiting key that is not selected yet, dropping those that
    /// are, and returns its entry for the caller to read; `None` once nothing
    /// is left to visit.
    pub fn next(&mut self, index: &DatasetIndex) -> (r: Option<DatasetEntry>)
        requires
            old(self).wf(*index),
            old(self).current_key() is None,
        ensures
            final(self).wf(*index),
            final(self).selected_keys() == old(self).selected_keys(),
            final(self).references_of() == old(self).references_of(),
            final(self).roots() == old(self).roots(),
            final(self).root_total() == old(self).root_total(),
            final(self).counted_references() == old(self).counted_references(),
            final(self).walk_profile() == old(self).walk_profile(),
            r is None <==> forall|i: int| 0 <= i < old(self).pending_keys().len()
                ==> old(self).selected_keys().contains(#[trigger] old(self).pending_keys()[i]),
            r is None ==> final(self).done(),
            r matches Some(e) ==> final(self).current_key() == Some(e.spec_key())
                && index.values().contains(e)
                && !old(self).selected_keys().contains(e.spec_key())
                && exists|i: int| 0 <= i < old(self).pending_keys().len()
                    && old(self).pending_keys()[i] == e.spec_key()
                    && final(self).pending_keys() == old(self).pending_keys().subrange(0, i)
                    && forall|j: int| i < j < old(self).pending_keys().len()
                        ==> old(self).selected_keys().contains(#[trigger] old(self).pending_keys()[j]),
    {
        let ghost start = self.pending_keys();
        loop
            invariant
                self.wf(*index),
                self.current is None,
                self.selected == old(self).selected,
                self.visited_refs == old(self).visited_refs,
                self.root_keys == old(self).root_keys,
                self.root_count == old(self).root_count,
                self.reference_count == old(self).reference_count,
                self.profile == old(self).profile,
                start == old(self).pending_keys(),
                self.pending_keys().len() <= start.len(),
                self.pending_keys() == start.subrange(0, self.pending_keys().len() as int),
                forall|j: int| self.pending_keys().len() <= j < start.len()
                    ==> old(self).selected_keys().contains(#[trigger] start[j]),
            decreases self.pending@.len(),
        {
            let ghost before = self.pending_keys();
            let popped = self.pending.pop();
            match popped {
                None => {
                    assert(self.pending_keys().len() == 0);
                    return None;
                },
                Some(key) => {
                    let ghost rest = self.pending_keys();
                    proof {
                        assert(before =~= rest.push(key@));
                        assert(before[rest.len() as int] == key@);
                        assert(start[rest.len() as int] == before[rest.len() as int]);
                        assert(rest =~= start.subrange(0, rest.len() as int));
                        lemma_insert_to_set(rest, rest.len() as int, key@);
                        assert(rest.insert(rest.len() as int, key@) =~= rest.push(key@));
                        assert(before.to_set() == rest.to_set().insert(key@));
                        assert(index.has(key@)) by {
                            assert(before.to_set().contains(key@));
                            assert(self.open_keys() == rest.to_set());
                        }
                    }
                    if self.selected.get(key.as_str()).is_some() {
                        proof {
                            assert(self.selected.has(key@));
                            assert(self.selected_keys().contains(key@));
                            assert(start[rest.len() as int] == key@);
                            assert forall|k: Seq<char>| #[trigger] self.open_keys().contains(k) implies index.has(k) by {
                                assert(before.to_set().contains(k));
                            }
                            assert forall|k: Seq<char>| #[trigger] self.visited_refs@.contains_key(k) implies self.visited_refs@[k].subset_of(
                                self.selected_keys() + self.open_keys()) by {
                                assert(self.visited_refs@[k].subset_of(self.selected_keys() + before.to_set()));
                            }
                            assert(self.root_keys@.subset_of(self.selected_keys() + before.to_set()));
                        }
                    } else {
                        match index.get(key.as_str()) {
                            Some(e) => {
                                let found = e.duplicate();
                                self.current = Some(e.duplicate());
                                proof {
                                    assert(self.open_keys() == rest.to_set().insert(key@));
                                    assert(self.open_keys() == before.to_set());
                                    assert(start[rest.len() as int] == key@);
                                }
                                return Some(found);
                            },
                            None => {
                                proof {
                                    assert(false);
                                }
                                return None;
                            },
                        }
                    }
                },
            }
        }
    }

    /// Records the visit of the current dataset, given the references its
    /// document makes: counts them, checks that each names a dataset of the
    /// index (from the last reference to the first, so the error names the last
    /// missing one), queues the keys not selected yet in that order, and selects
    /// the dataset.
    pub fn visit(&mut self, index: &DatasetIndex, references: &ReferenceSet) -> (r: Result<(), ReleaseError>)
        requires
            old(self).wf(*index),
            old(self).current_key() is Some,
            references.wf(),
        ensures
            old(self).counted_references() + references.view_seq().len() > u64::MAX ==> (r matches Err(
                ReleaseError::SizeOverflow,
            )),
            old(self).counted_references() + references.view_seq().len() <= u64::MAX && (exists|i: int|
                #![trigger references.view_seq()[i]]
                0 <= i < references.view_seq().len() && !index.has(references.view_seq()[i].0))
                ==> (r matches Err(ReleaseError::ReferenceClosureMissing(m)) && exists|i: int|
                #![trigger references.view_seq()[i]]
                0 <= i < references.view_seq().len() && !index.has(references.view_seq()[i].0)
                    && (forall|j: int|
                    #![trigger references.view_seq()[j]]
                    i < j < references.view_seq().len() ==> index.has(references.view_seq()[j].0))
                    && m@ == missing_reference_message(
                    old(self).current_key().unwrap(),
                    references.view_seq()[i],
                )),
            r is Ok <==> old(self).counted_references() + references.view_seq().len() <= u64::MAX
                && forall|i: int|
                #![trigger references.view_seq()[i]]
                0 <= i < references.view_seq().len() ==> index.has(references.view_seq()[i].0),
            r is Ok ==> final(self).wf(*index) && final(self).current_key() is None
                && final(self).selected_keys() == old(self).selected_keys().insert(
                old(self).current_key().unwrap(),
            ) && final(self).references_of() == old(self).references_of().insert(
                old(self).current_key().unwrap(),
                referenced_keys(references.refs()),
            ) && final(self).pending_keys() == old(self).pending_keys() + pushed_keys(
                references.view_seq(),
                old(self).selected_keys(),
            ) && final(self).counted_references() == old(self).counted_references()
                + references.view_seq().len() && final(self).roots() == old(self).roots()
                && final(self).root_total() == old(self).root_total()
                && final(self).walk_profile() == old(self).walk_profile(),
    {
        let n = references.len();
        let counted = match self.reference_count.checked_add(n as u64) {
            Some(t) => t,
            None => return Err(ReleaseError::SizeOverflow),
        };
        let ghost refs = references.view_seq();
        let ghost sel = self.selected_keys();
        let ghost pend0 = self.pending_keys();
        let ghost cur_key = self.current_key().unwrap();
        proof {
            assert(refs.subrange(n as int, n as int) =~= Seq::<Reference>::empty());
            assert(pend0 + pushed_keys(Seq::<Reference>::empty(), sel) =~= pend0);
            assert forall|t: int| 0 <= t < pend0.len() implies index.has(#[trigger] pend0[t]) by {
                assert(pend0.to_set().contains(pend0[t]));
                assert(self.open_keys().contains(pend0[t]));
            }
        }
        match last_missing(index, references) {
            Some(m) => {
                let item = references.get(m);
                let from = match &self.current {
                    Some(e) => e.key(),
                    None => String::new(),
                };
                let head = concat3(from.as_str(), " ", item.1.as_str());
                let message = concat3(head.as_str(), " -> ", item.0.as_str());
                return Err(ReleaseError::ReferenceClosureMissing(message));
            },
            None => {},
        }
        let mut i: usize = n;
        while i > 0
            invariant
                i <= n,
                n == refs.len(),
                refs == references.view_seq(),
                references.wf(),
                self.selected == old(self).selected,
                self.selected.wf(),
                self.current == old(self).current,
                self.visited_refs == old(self).visited_refs,
                self.root_keys == old(self).root_keys,
                self.root_count == old(self).root_count,
                self.reference_count == old(self).reference_count,
                self.profile == old(self).profile,
                sel == old(self).selected_keys(),
                pend0 == old(self).pending_keys(),
                self.pending_keys() == pend0 + pushed_keys(refs.subrange(i as int, n as int), sel),
            decreases i,
        {
            i = i - 1;
            let item = references.get(i);
            let ghost before = self.pending_keys();
            if self.selected.get(item.0.as_str()).is_none() {
                self.pending.push(item.0.clone());
                proof {
                    assert(self.pending_keys() =~= before.push(refs[i as int].0));
                }
            }
            proof {
                lemma_pushed_keys_step(refs, i as int, n as int, sel);
                assert(sel.contains(refs[i as int].0) <==> self.selected.has(refs[i as int].0));
                assert(self.pending_keys() =~= pend0 + pushed_keys(refs.subrange(i as int, n as int), sel));
            }
        }
        let taken = self.current.take();
        let entry = match taken {
            Some(e) => e,
            None => {
                proof {
                    assert(false);
                }
                return Err(ReleaseError::SizeOverflow);
            },
        };
        let ghost entry_view = entry;
        proof {
            let k = entry_view.spec_key();
            assert(index.values().contains(entry_view));
            let p = choose|p: int| 0 <= p < index.values().len() && index.values()[p] == entry_view;
            assert(index.keys()[p] == k);
            assert(index.has(k));
        }
        self.selected.insert_new(entry);
        self.visited_refs = Ghost(self.visited_refs@.insert(cur_key, referenced_keys(references.refs())));
        self.reference_count = counted;
        proof {
            assert(refs.subrange(0, n as int) =~= refs);
            let pend = self.pending_keys();
            assert(self.selected_keys() == sel.insert(cur_key));
            assert forall|x: Seq<char>| pend0.to_set().contains(x) implies pend.to_set().contains(x) by {
                let t = choose|t: int| 0 <= t < pend0.len() && pend0[t] == x;
                assert(pend[t] == x);
            }
            assert(self.open_keys() == pend.to_set());
            assert(old(self).open_keys() == pend0.to_set().insert(cur_key));
            let pushed = pushed_keys(refs, sel);
            lemma_pushed_keys_cover(refs, sel);
            lemma_pushed_keys_from(refs, sel);
            assert(pend =~= pend0 + pushed);
            assert forall|k: Seq<char>| #[trigger] self.open_keys().contains(k) implies index.has(k) by {
                let t = choose|t: int| 0 <= t < pend.len() && pend[t] == k;
                if t < pend0.len() {
                    assert(pend0[t] == k);
                    assert(pend0.to_set().contains(k));
                    assert(old(self).open_keys().contains(k));
                } else {
                    assert(pushed[t - pend0.len()] == k);
                    let j = choose|j: int| 0 <= j < refs.len() && refs[j].0 == pushed[t - pend0.len()];
                    assert(index.has(refs[j].0));
                }
            }
            assert(self.visited_refs@.dom() =~= self.selected_keys());
            assert forall|k: Seq<char>| #[trigger] self.visited_refs@.contains_key(k) implies self.visited_refs@[k].subset_of(
                self.selected_keys() + self.open_keys()) by {
                if k == cur_key {
                    assert forall|x: Seq<char>| self.visited_refs@[k].contains(x) implies (self.selected_keys() + self.open_keys()).contains(x) by {
                        let rr = choose|rr: Reference| references.refs().contains(rr) && rr.0 == x;
                        let j = choose|j: int| 0 <= j < refs.len() && refs[j] == rr;
                        if !sel.contains(refs[j].0) {
                            assert(pushed.contains(refs[j].0));
                            let t = choose|t: int| 0 <= t < pushed.len() && pushed[t] == refs[j].0;
                            assert(pend[pend0.len() + t] == x);
                        }
                    }
                } else {
                    assert(old(self).visited_refs@.contains_key(k));
                    assert(old(self).visited_refs@[k].subset_of(old(self).selected_keys() + old(self).open_keys()));
                }
            }
            assert(self.root_keys@.subset_of(old(self).selected_keys() + old(self).open_keys()));
            assert(self.selected_entries().subset_of(index.values().to_set())) by {
                assert(self.selected_entries() == old(self).selected_entries().insert(entry_view));
            }
        }
        Ok(())
    }

    /// The selected entries, in key order.
    pub closed spec fn selected_in_order(self) -> Seq<DatasetEntry> {
        self.selected.values()
    }

    /// Ends a complete walk: the selected entries in key order, and the report
    /// of the closure (its keys inline up to the limit, and the SHA-256 of the
    /// JSON array of all its keys).
    pub fn finish(self) -> (r: (Vec<DatasetEntry>, ReferenceClosureReportV1))
        ensures
            r.0@ == self.selected_in_order(),
            r.1.profile_id@ == self.walk_profile().spec_id(),
            r.1.root_count == self.root_total(),
            r.1.dataset_count == r.0@.len(),
            r.1.reference_count == self.counted_references(),
            r.1.closure_sha256@ == hex(sha256(json_string_array(closure_keys(r.0@)))),
            r.1.dataset_keys_truncated == (r.0@.len() > INLINE_ITEM_LIMIT),
            r.1.dataset_keys@.map_values(|k: String| k@) == closure_keys(r.0@).take(
                if r.0@.len() > INLINE_ITEM_LIMIT { INLINE_ITEM_LIMIT as int } else { r.0@.len() as int },
            ),
    {
        let ghost order = self.selected.values();
        let pairs = self.selected.entries;
        let mut entries: Vec<DatasetEntry> = Vec::new();
        let mut keys: Vec<String> = Vec::new();
        let mut inline: Vec<String> = Vec::new();
        let mut i: usize = 0;
        while i < pairs.len()
            invariant
                i <= pairs@.len(),
                order == pairs@.map_values(|p: (String, DatasetEntry)| p.1),
                entries@ == order.subrange(0, i as int),
                keys@.map_values(|k: String| k@) == closure_keys(entries@),
                inline@.map_values(|k: String| k@) == closure_keys(entries@).take(
                    if i > INLINE_ITEM_LIMIT { INLINE_ITEM_LIMIT as int } else { i as int },
                ),
            decreases pairs@.len() - i,
        {
            let e = pairs[i].1.duplicate();
            let key = e.key();
            let ghost before = entries@;
            let ghost inline_before = inline@.map_values(|k: String| k@);
            if i < INLINE_ITEM_LIMIT {
                inline.push(e.key());
                proof {
                    assert(inline@.map_values(|k: String| k@) =~= inline_before.push(e.spec_key()));
                }
            }
            keys.push(key);
            entries.push(e);
            i = i + 1;
            proof {
                assert(entries@ =~= order.subrange(0, i as int));
                assert(closure_keys(entries@) =~= closure_keys(before).push(entries@[i - 1].spec_key()));
                assert(keys@.map_values(|k: String| k@) =~= closure_keys(entries@));
                if i <= INLINE_ITEM_LIMIT {
                    assert(closure_keys(before).take((i - 1) as int) =~= closure_keys(before));
                    assert(closure_keys(entries@).take(i as int) =~= closure_keys(entries@));
                } else {
                    assert(closure_keys(entries@).take(INLINE_ITEM_LIMIT as int) =~= closure_keys(before).take(INLINE_ITEM_LIMIT as int));
                }
                assert(inline@.map_values(|k: String| k@) =~= closure_keys(entries@).take(
                    if i > INLINE_ITEM_LIMIT { INLINE_ITEM_LIMIT as int } else { i as int },
                ));
            }
        }
        proof {
            assert(entries@ =~= order);
        }
        let digest = sha256_of(encode_string_array(&keys).as_slice());
        let count = entries.len() as u64;
        let report = ReferenceClosureReportV1 {
            profile_id: owned(self.profile.id()),
            root_count: self.root_count,
            dataset_count: count,
            reference_count: self.reference_count,
            closure_sha256: digest_hex(digest.as_slice()),
            dataset_keys: inline,
            dataset_keys_truncated: entries.len() > INLINE_ITEM_LIMIT,
        };
        (entries, report)
    }
}

/// A finished walk selects a closed set: every root, and every dataset that a
/// selected dataset references, is selected; every selection is in the index;
/// and the selected entries come in strictly ascending key order.
pub proof fn law_closure_complete(w: ClosureWalk, index: DatasetIndex)
    requires
        w.wf(index),
        w.done(),
    ensures
        w.roots().subset_of(w.selected_keys()),
        forall|k: Seq<char>|
            #[trigger] w.selected_keys().contains(k) ==> w.references_of().contains_key(k)
                && w.references_of()[k].subset_of(w.selected_keys()),
        forall|k: Seq<char>| #[trigger] w.selected_keys().contains(k) ==> index.has(k),
        closure_keys(w.selected_in_order()).to_set() == w.selected_keys(),
        forall|i: int, j: int|
            0 <= i < j < w.selected_in_order().len() ==> text_lt(
                #[trigger] w.selected_in_order()[i].spec_key(),
                #[trigger] w.selected_in_order()[j].spec_key(),
            ),
{
    assert(w.open_keys() =~= Set::<Seq<char>>::empty());
    assert(w.selected_keys() + w.open_keys() =~= w.selected_keys());
    let ks = w.selected.keys();
    let vs = w.selected_in_order();
    assert(closure_keys(vs) =~= ks);
    assert forall|i: int, j: int| 0 <= i < j < vs.len() implies text_lt(
        #[trigger] vs[i].spec_key(), #[trigger] vs[j].spec_key()) by {
        assert(ks[i] == vs[i].spec_key());
        assert(ks[j] == vs[j].spec_key());
    }
}

/// Checks that the standalone-result closure holds every dataset of the
/// unit-process closure; the error names the first unit key (in the unit
/// closure's order) that the result lacks.
pub fn verify_result_contains_unit(unit: &Vec<DatasetEntry>, result: &Vec<DatasetEntry>) -> (r: Result<(), ReleaseError>)
    ensures
        r is Ok <==> forall|i: int|
            0 <= i < unit@.len() ==> closure_keys(result@).contains(#[trigger] unit@[i].spec_key()),
        r matches Err(e) ==> exists|i: int|
            0 <= i < unit@.len() && !closure_keys(result@).contains(unit@[i].spec_key())
                && (forall|j: int| 0 <= j < i ==> closure_keys(result@).contains(#[trigger] unit@[j].spec_key()))
                && (e matches ReleaseError::StandaloneMissingUnitClosure(k) && k@ == unit@[i].spec_key()),
{
    let mut result_keys: Vec<String> = Vec::new();
    let mut j: usize = 0;
    while j < result.len()
        invariant
            j <= result@.len(),
            result_keys@.map_values(|k: String| k@) == closure_keys(result@.subrange(0, j as int)),
        decreases result@.len() - j,
    {
        let ghost before = result_keys@.map_values(|k: String| k@);
        result_keys.push(result[j].key());
        j = j + 1;
        proof {
            assert(result_keys@.map_values(|k: String| k@) =~= before.push(result@[j - 1].spec_key()));
            assert(closure_keys(result@.subrange(0, j as int)) =~= closure_keys(result@.subrange(0, j - 1)).push(result@[j - 1].spec_key()));
        }
    }
    let ghost all = closure_keys(result@);
    assert(result@.subrange(0, result@.len() as int) =~= result@);
    let mut i: usize = 0;
    while i < unit.len()
        invariant
            i <= unit@.len(),
            all == closure_keys(result@),
            result_keys@.map_values(|k: String| k@) == all,
            forall|t: int| 0 <= t < i ==> all.contains(#[trigger] unit@[t].spec_key()),
        decreases unit@.len() - i,
    {
        let key = unit[i].key();
        let mut found = false;
        let mut k: usize = 0;
        while k < result_keys.len()
            invariant
                k <= result_keys@.len(),
                result_keys@.map_values(|x: String| x@) == all,
                found <==> exists|t: int| 0 <= t < k && all[t] == key@,
            decreases result_keys@.len() - k,
        {
            if str_eq(result_keys[k].as_str(), key.as_str()) {
                found = true;
            }
            proof {
                assert(all[k as int] == result_keys@[k as int]@);
            }
            k = k + 1;
        }
        if !found {
            proof {
                assert(!all.contains(key@));
            }
            return Err(ReleaseError::StandaloneMissingUnitClosure(key));
        }
        i = i + 1;
    }
    Ok(())
}

// ---------------------------------------------------------------------------
// Record hashes
// ---------------------------------------------------------------------------

/// The eight little-endian bytes of a length (`usize::to_le_bytes` on a 64-bit
/// target).
pub open spec fn le_bytes(n: u64) -> Seq<u8> {
    Seq::new(8, |i: int| (n >> ((8 * i) as u64)) as u8)
}

/// What a record of texts adds to a hash: each text's UTF-8 length, then its
/// bytes.
pub open spec fn record_bytes(values: Seq<Seq<char>>) -> Seq<u8>
    decreases values.len(),
{
    if values.len() == 0 {
        Seq::empty()
    } else {
        let last = vstd::utf8::encode_utf8(values.last());
        record_bytes(values.drop_last()) + le_bytes(last.len() as u64) + last
    }
}

fn length_bytes(n: u64) -> (r: Vec<u8>)
    ensures
        r@ == le_bytes(n),
{
    let mut out: Vec<u8> = Vec::new();
    let mut i: u64 = 0;
    while i < 8
        invariant
            i <= 8,
            out@ == le_bytes(n).subrange(0, i as int),
        decreases 8 - i,
    {
        out.push((n >> (8 * i)) as u8);
        i = i + 1;
        assert(out@ =~= le_bytes(n).subrange(0, i as int));
    }
    assert(le_bytes(n).subrange(0, 8) =~= le_bytes(n));
    out
}

/// Feeds a record of texts to a hash (see `record_bytes`).
pub(crate) fn update_record_hash(hasher: &mut Sha256State, values: &Vec<&str>)
    ensures
        sha256_input(*final(hasher)) == sha256_input(*old(hasher)) + record_bytes(
            values@.map_values(|v: &str| v@),
        ),
{
    let ghost vs = values@.map_values(|v: &str| v@);
    let ghost start = sha256_input(*hasher);
    let mut i: usize = 0;
    assert(vs.subrange(0, 0) =~= Seq::<Seq<char>>::empty());
    assert(start + record_bytes(Seq::<Seq<char>>::empty()) =~= start);
    while i < values.len()
        invariant
            i <= values@.len(),
            vs == values@.map_values(|v: &str| v@),
            sha256_input(*hasher) == start + record_bytes(vs.subrange(0, i as int)),
        decreases values@.len() - i,
    {
        let bytes = values[i].as_bytes();
        let len = length_bytes(bytes.len() as u64);
        let ghost before = sha256_input(*hasher);
        sha256_update(hasher, len.as_slice());
        sha256_update(hasher, bytes);
        i = i + 1;
        proof {
            let sub = vs.subrange(0, i as int);
            assert(sub.drop_last() =~= vs.subrange(0, i - 1));
            assert(sub.last() == values@[i - 1]@);
            assert(bytes@ == vstd::utf8::encode_utf8(values@[i - 1]@));
            assert(sha256_input(*hasher) =~= start + record_bytes(sub));
        }
    }
    assert(vs.subrange(0, values@.len() as int) =~= vs);
}

pub open spec fn format_name(f: ReleaseDataFormat) -> Seq<char> {
    match f {
        ReleaseDataFormat::Tidas => "tidas"@,
        ReleaseDataFormat::Ilcd => "ilcd"@,
    }
}

/// The records of a package set: for each package, its profile, its format and
/// its archive's digest.
pub open spec fn package_records(packages: Seq<ReleasePackageV1>) -> Seq<u8>
    decreases packages.len(),
{
    if packages.len() == 0 {
        Seq::empty()
    } else {
        let p = packages.last();
        package_records(packages.drop_last()) + record_bytes(seq![p.profile_id@, format_name(p.format), p.artifact.sha256@])
    }
}

/// The digest that identifies a set of published packages.
pub fn artifact_set_hash(packages: &Vec<ReleasePackageV1>) -> (r: String)
    ensures
        r@ == hex(sha256(package_records(packages@))),
{
    let mut hasher = sha256_new();
    let mut i: usize = 0;
    assert(packages@.subrange(0, 0) =~= Seq::<ReleasePackageV1>::empty());
    while i < packages.len()
        invariant
            i <= packages@.len(),
            sha256_input(hasher) == package_records(packages@.subrange(0, i as int)),
        decreases packages@.len() - i,
    {
        let package = &packages[i];
        let format = match package.format {
            ReleaseDataFormat::Tidas => "tidas",
            ReleaseDataFormat::Ilcd => "ilcd",
        };
        let mut values: Vec<&str> = Vec::new();
        values.push(package.profile_id.as_str());
        values.push(format);
        values.push(package.artifact.sha256.as_str());
        assert(values@.map_values(|v: &str| v@) =~= seq![package.profile_id@, format_name(package.format), package.artifact.sha256@]);
        update_record_hash(&mut hasher, &values);
        i = i + 1;
        proof {
            let sub = packages@.subrange(0, i as int);
            assert(sub.drop_last() =~= packages@.subrange(0, i - 1));
            assert(sub.last() == packages@[i - 1]);
        }
    }
    assert(packages@.subrange(0, packages@.len() as int) =~= packages@);
    let digest = sha256_finalize(hasher);
    digest_hex(digest.as_slice())
}

/// The portable form of a path: its components joined with `/`, which must be
/// a safe relative path.
pub fn portable(path: &str) -> (r: Result<String, ReleaseError>)
    ensures
        ({
            let joined = join(crate::paths::full_components(path@), "/"@);
            &&& r is Ok <==> safe_relative_path(joined)
            &&& r matches Ok(s) ==> s@ == joined
            &&& r matches Err(e) ==> (e matches ReleaseError::UnsafePath(p) && p@ == joined)
        }),
{
    let c = chars_of(path);
    let parts = crate::paths::full_components_of(c.as_slice());
    let mut names: Vec<String> = Vec::new();
    let mut i: usize = 0;
    while i < parts.len()
        invariant
            i <= parts@.len(),
            names@.map_values(|s: String| s@) == parts@.subrange(0, i as int).map_values(|v: Vec<char>| v@),
        decreases parts@.len() - i,
    {
        let ghost before = names@.map_values(|s: String| s@);
        let name = string_of(parts[i].as_slice());
        names.push(name);
        assert(names@.map_values(|s: String| s@) =~= before.push(parts@[i as int]@));
        i = i + 1;
        assert(parts@.subrange(0, i as int).map_values(|v: Vec<char>| v@) =~= parts@.subrange(0, i - 1).map_values(|v: Vec<char>| v@).push(parts@[i - 1]@));
    }
    assert(parts@.subrange(0, parts@.len() as int) =~= parts@);
    let joined = crate::text::join_strings(&names, "/");
    safe_relative(joined.as_str())
}

} // verus!
