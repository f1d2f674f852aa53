//! Flow normalization: the TIDAS flow type, the structured flow name and the
//! elementary-flow classification, each decided from source facts.
use vstd::prelude::*;

use crate::json::{JsonData, JsonValue, data};
use crate::flow_properties::{
    CanonicalFlowPropertyAssignment, PropertyFacts, PropertyRefusal, all_facts, facts, flow_properties_of,
    legacy_facts, normalize_flow_properties, parsed_entries, references,
};
use crate::model::CanonicalEntity;
use crate::text::{
    chars_of, concat3, contains, decimal, decimal_string, join, join_strings, lower, owned, split,
    split_chars, str_contains, str_eq, string_of, to_ascii_lowercase, to_ascii_uppercase, trim,
    trim_str, upper,
};

verus! {

/// The TIDAS type of a flow dataset.
#[derive(Clone, Copy, Debug, PartialEq, Eq, Structural)]
pub enum FlowDatasetType {
    Elementary,
    Product,
    Waste,
    Other,
}

/// The flow type that a source's flow-type text names: upper-cased, the first
/// of `ELEMENTARY`, `WASTE` and `OTHER` that it contains decides; anything else,
/// and a missing text, is a product flow.
pub open spec fn flow_type_of(value: Seq<char>) -> FlowDatasetType {
    let v = upper(value);
    if contains(v, "ELEMENTARY"@) {
        FlowDatasetType::Elementary
    } else if contains(v, "WASTE"@) {
        FlowDatasetType::Waste
    } else if contains(v, "OTHER"@) {
        FlowDatasetType::Other
    } else {
        FlowDatasetType::Product
    }
}

impl FlowDatasetType {
    pub open spec fn spec_tidas(self) -> Seq<char> {
        match self {
            FlowDatasetType::Elementary => "Elementary flow"@,
            FlowDatasetType::Product => "Product flow"@,
            FlowDatasetType::Waste => "Waste flow"@,
            FlowDatasetType::Other => "Other flow"@,
        }
    }

    pub fn from_source(value: Option<&str>) -> (r: Self)
        ensures
            r == flow_type_of(
                match value {
                    Some(v) => v@,
                    None => "PRODUCT_FLOW"@,
                },
            ),
    {
        let raw = match value {
            Some(v) => v,
            None => "PRODUCT_FLOW",
        };
        let v = to_ascii_uppercase(raw);
        if str_contains(v.as_str(), "ELEMENTARY") {
            FlowDatasetType::Elementary
        } else if str_contains(v.as_str(), "WASTE") {
            FlowDatasetType::Waste
        } else if str_contains(v.as_str(), "OTHER") {
            FlowDatasetType::Other
        } else {
            FlowDatasetType::Product
        }
    }

    /// The flow type as TIDAS writes it.
    pub fn as_tidas(self) -> (r: &'static str)
        ensures
            r@ == self.spec_tidas(),
    {
        match self {
            FlowDatasetType::Elementary => "Elementary flow",
            FlowDatasetType::Product => "Product flow",
            FlowDatasetType::Waste => "Waste flow",
            FlowDatasetType::Other => "Other flow",
        }
    }
}

/// Why a flow could not be normalized.
#[derive(Debug)]
pub enum FlowNormalizationError {
    MissingFact {
        flow_id: String,
        source_object: String,
        canonical_path: &'static str,
        reason: &'static str,
    },
    ReferencePropertyCardinality { flow_id: String, source_object: String, count: usize },
    InvalidFlowProperty {
        flow_id: String,
        source_object: String,
        source_order: usize,
        reason: &'static str,
    },
}

// ---------------------------------------------------------------------------
// Flow names
// ---------------------------------------------------------------------------

/// A value that stands for no fact: blank, `-`, `n/a`, or a generic description
/// (compared trimmed and in ASCII lower case).
pub open spec fn placeholder(value: Seq<char>) -> bool {
    let v = lower(trim(value));
    ||| v == ""@
    ||| v == "-"@
    ||| v == "n/a"@
    ||| v == "source-described route"@
    ||| v == "source-described geography"@
}

pub fn is_placeholder(value: &str) -> (r: bool)
    ensures
        r == placeholder(value@),
{
    let t = trim_str(value);
    let v = to_ascii_lowercase(t.as_str());
    let s = v.as_str();
    proof {
        reveal_strlit("");
        assert(""@ =~= Seq::<char>::empty());
    }
    let e = s.is_empty();
    assert(e ==> s@ =~= ""@);
    e || str_eq(s, "-") || str_eq(s, "n/a") || str_eq(s, "source-described route")
        || str_eq(s, "source-described geography")
}

/// The trimmed text of a name part, when it is a fact.
pub open spec fn fact(value: Option<Seq<char>>) -> Option<Seq<char>> {
    match value {
        Some(t) => if placeholder(trim(t)) {
            None
        } else {
            Some(trim(t))
        },
        None => None,
    }
}

/// The name part `field` of a source `flowName` object.
pub open spec fn name_part(parts: Option<JsonValue>, field: Seq<char>) -> Option<Seq<char>> {
    match parts {
        Some(p) => if p is Object {
            fact(p.member_text(field))
        } else {
            None
        },
        None => None,
    }
}

/// The structured name of a flow.
#[derive(Debug, PartialEq, Eq)]
pub struct CanonicalFlowName {
    pub base_name: String,
    pub treatment_standards_routes: Option<String>,
    pub mix_and_location_types: Option<String>,
    pub flow_properties: Option<String>,
}

pub open spec fn opt_view(o: Option<String>) -> Option<Seq<char>> {
    match o {
        Some(s) => Some(s@),
        None => None,
    }
}

pub open spec fn opt_str(o: Option<&str>) -> Option<Seq<char>> {
    match o {
        Some(s) => Some(s@),
        None => None,
    }
}

/// The trimmed text of a name part when it is a fact.
pub fn part(parts: Option<&JsonValue>, field: &str) -> (r: Option<String>)
    ensures
        opt_view(r) == name_part(crate::json::deref_opt(parts), field@),
{
    let p = match parts {
        Some(p) => p,
        None => return None,
    };
    if p.as_object().is_none() {
        return None;
    }
    match p.get_str(field) {
        Some(t) => {
            let v = trim_str(t);
            if is_placeholder(v.as_str()) {
                proof {
                    lemma_trim_idempotent(t@);
                }
                None
            } else {
                proof {
                    lemma_trim_idempotent(t@);
                }
                Some(v)
            }
        },
        None => None,
    }
}

/// Trimming twice trims nothing more.
pub proof fn lemma_trim_idempotent(s: Seq<char>)
    ensures
        trim(trim(s)) == trim(s),
{
    crate::text::lemma_trim_twice(s);
}

/// The structured name of a flow (base name, route, mix and location, flow
/// properties), or the canonical path of the missing fact and why it is needed.
pub open spec fn flow_name_of(name: Option<Seq<char>>, parts: Option<JsonValue>, dataset_type: FlowDatasetType) -> Result<
    (Seq<char>, Option<Seq<char>>, Option<Seq<char>>, Option<Seq<char>>),
    (Seq<char>, Seq<char>),
> {
    match fact(name) {
        None => Err(("CanonicalFlow.name.baseName"@, "the source did not provide a non-placeholder base name"@)),
        Some(base) => {
            let routes = name_part(parts, "treatmentStandardsRoutes"@);
            let mix = name_part(parts, "mixAndLocationTypes"@);
            let props = name_part(parts, "flowProperties"@);
            if dataset_type == FlowDatasetType::Elementary {
                Ok((base, None, None, None))
            } else if routes is None {
                Err(("CanonicalFlow.name.treatmentStandardsRoutes"@,
                    "Product, Waste, and Other flows require source-backed route facts"@))
            } else if mix is None {
                Err(("CanonicalFlow.name.mixAndLocationTypes"@,
                    "Product, Waste, and Other flows require source-backed mix/location facts"@))
            } else {
                Ok((base, routes, mix, props))
            }
        },
    }
}

pub open spec fn name_view(n: CanonicalFlowName) -> (Seq<char>, Option<Seq<char>>, Option<Seq<char>>, Option<Seq<char>>) {
    (n.base_name@, opt_view(n.treatment_standards_routes), opt_view(n.mix_and_location_types), opt_view(n.flow_properties))
}

/// Builds the structured name of a flow: the base name must be a fact; an
/// elementary flow keeps only its base name; other flows also need their route
/// and their mix and location facts, and keep their flow-property text when it
/// is one.
pub fn normalize_flow_name(
    name: Option<&str>,
    flow_name: Option<&JsonValue>,
    dataset_type: FlowDatasetType,
    flow_id: &str,
    source_object: &str,
) -> (r: Result<CanonicalFlowName, FlowNormalizationError>)
    ensures
        match flow_name_of(opt_str(name), crate::json::deref_opt(flow_name), dataset_type) {
            Ok(t) => r matches Ok(n) && name_view(n) == t,
            Err((path, why)) => r matches Err(FlowNormalizationError::MissingFact { flow_id: f, source_object: o, canonical_path: p, reason: w })
                && f@ == flow_id@ && o@ == source_object@ && p@ == path && w@ == why,
        },
{
    let base_name = match name {
        Some(n) => {
            let t = trim_str(n);
            proof {
                lemma_trim_idempotent(n@);
            }
            if is_placeholder(t.as_str()) {
                None
            } else {
                Some(t)
            }
        },
        None => None,
    };
    let base_name = match base_name {
        Some(b) => b,
        None => {
            return Err(
                FlowNormalizationError::MissingFact {
                    flow_id: owned(flow_id),
                    source_object: owned(source_object),
                    canonical_path: "CanonicalFlow.name.baseName",
                    reason: "the source did not provide a non-placeholder base name",
                },
            );
        },
    };
    let routes = part(flow_name, "treatmentStandardsRoutes");
    let mix = part(flow_name, "mixAndLocationTypes");
    let props = part(flow_name, "flowProperties");
    if dataset_type == FlowDatasetType::Elementary {
        return Ok(
            CanonicalFlowName {
                base_name,
                treatment_standards_routes: None,
                mix_and_location_types: None,
                flow_properties: None,
            },
        );
    }
    if routes.is_none() {
        return Err(
            FlowNormalizationError::MissingFact {
                flow_id: owned(flow_id),
                source_object: owned(source_object),
                canonical_path: "CanonicalFlow.name.treatmentStandardsRoutes",
                reason: "Product, Waste, and Other flows require source-backed route facts",
            },
        );
    }
    if mix.is_none() {
        return Err(
            FlowNormalizationError::MissingFact {
                flow_id: owned(flow_id),
                source_object: owned(source_object),
                canonical_path: "CanonicalFlow.name.mixAndLocationTypes",
                reason: "Product, Waste, and Other flows require source-backed mix/location facts",
            },
        );
    }
    Ok(
        CanonicalFlowName {
            base_name,
            treatment_standards_routes: routes,
            mix_and_location_types: mix,
            flow_properties: props,
        },
    )
}

/// A string field of an entity's source object, trimmed, when it is not blank.
pub open spec fn string_field_of(raw: JsonValue, field: Seq<char>) -> Option<Seq<char>> {
    match raw.member_text(field) {
        Some(t) => if trim(t).len() == 0 {
            None
        } else {
            Some(trim(t))
        },
        None => None,
    }
}

pub fn string_field(entity: &CanonicalEntity, field: &str) -> (r: Option<String>)
    ensures
        opt_view(r) == string_field_of(entity.raw, field@),
{
    match entity.raw.get_str(field) {
        Some(t) => {
            let v = trim_str(t);
            if v.as_str().is_empty() {
                None
            } else {
                Some(v)
            }
        },
        None => None,
    }
}

/// Where a flow came from, for messages: `format:object:id`, with `unknown`
/// and `flow` when the source trace does not say.
pub open spec fn source_object_of(raw: JsonValue, internal_id: Seq<char>) -> Seq<char> {
    let trace = raw.member("sourceTrace"@);
    let format = match trace {
        Some(t) => match t.member_text("format"@) {
            Some(f) => f,
            None => "unknown"@,
        },
        None => "unknown"@,
    };
    let object = match trace {
        Some(t) => match t.member_text("sourceObject"@) {
            Some(o) => o,
            None => "flow"@,
        },
        None => "flow"@,
    };
    format + ":"@ + object + ":"@ + internal_id
}

pub fn source_object(entity: &CanonicalEntity) -> (r: String)
    ensures
        r@ == source_object_of(entity.raw, entity.internal_id@),
{
    let trace = entity.raw.get("sourceTrace");
    let format = match trace {
        Some(t) => match t.get_str("format") {
            Some(f) => f,
            None => "unknown",
        },
        None => "unknown",
    };
    let object = match trace {
        Some(t) => match t.get_str("sourceObject") {
            Some(o) => o,
            None => "flow",
        },
        None => "flow",
    };
    let head = concat3(format, ":", object);
    concat3(head.as_str(), ":", entity.internal_id.as_str())
}

// ---------------------------------------------------------------------------
// Elementary-flow taxonomy
// ---------------------------------------------------------------------------

pub const BASE_TAXONOMY_ID: &'static str = "ilcd-flow-categorization";

pub const BASE_TAXONOMY_VERSION: &'static str = "1.1";

/// One category of the elementary-flow taxonomy.
#[derive(Debug, PartialEq, Eq)]
pub struct CanonicalCategory {
    pub level: String,
    pub category_id: String,
    pub label: String,
}

impl CanonicalCategory {
    pub fn duplicate(&self) -> (r: CanonicalCategory)
        ensures
            r == *self,
    {
        CanonicalCategory {
            level: self.level.clone(),
            category_id: self.category_id.clone(),
            label: self.label.clone(),
        }
    }
}

/// A node of the versioned taxonomy extension, with the source category paths
/// that name it.
#[derive(Debug)]
pub struct ExtensionNode {
    pub cat_id: String,
    pub source_paths: Vec<Vec<String>>,
}

pub open spec fn texts(v: Seq<String>) -> Seq<Seq<char>> {
    v.map_values(|s: String| s@)
}

/// The source paths of extension nodes, in node order, each with its node.
pub open spec fn extension_paths(nodes: Seq<ExtensionNode>) -> Seq<(Seq<Seq<char>>, Seq<char>)>
    decreases nodes.len(),
{
    if nodes.len() == 0 {
        Seq::empty()
    } else {
        let last = nodes.last();
        extension_paths(nodes.drop_last()) + last.source_paths@.map_values(
            |p: Vec<String>| (texts(p@), last.cat_id@),
        )
    }
}

/// The node that the last declaration of `path` names.
pub open spec fn path_node(entries: Seq<(Seq<Seq<char>>, Seq<char>)>, path: Seq<Seq<char>>) -> Option<
    Seq<char>,
>
    decreases entries.len(),
{
    if entries.len() == 0 {
        None
    } else if entries.last().0 == path {
        Some(entries.last().1)
    } else {
        path_node(entries.drop_last(), path)
    }
}

/// The category with a label.
pub open spec fn find_label(cs: Seq<CanonicalCategory>, label: Seq<char>) -> Option<CanonicalCategory> {
    if exists|i: int| 0 <= i < cs.len() && #[trigger] cs[i].label@ == label {
        Some(cs[choose|i: int| 0 <= i < cs.len() && #[trigger] cs[i].label@ == label])
    } else {
        None
    }
}

/// The category with an identifier.
pub open spec fn find_id(cs: Seq<CanonicalCategory>, id: Seq<char>) -> Option<CanonicalCategory> {
    if exists|i: int| 0 <= i < cs.len() && #[trigger] cs[i].category_id@ == id {
        Some(cs[choose|i: int| 0 <= i < cs.len() && #[trigger] cs[i].category_id@ == id])
    } else {
        None
    }
}

/// Segments joined with dots, a dot being written only after a non-empty text.
pub open spec fn dotted(parts: Seq<Seq<char>>) -> Seq<char>
    decreases parts.len(),
{
    if parts.len() == 0 {
        Seq::empty()
    } else {
        let p = dotted(parts.drop_last());
        if p.len() == 0 {
            parts.last()
        } else {
            p + "."@ + parts.last()
        }
    }
}

/// The identifiers of a category and its ancestors, root first: `1`, `1.3`,
/// `1.3.6` for `1.3.6`.
pub open spec fn id_prefixes(id: Seq<char>) -> Seq<Seq<char>> {
    let parts = split(id, '.');
    Seq::new(parts.len(), |i: int| dotted(parts.subrange(0, i + 1)))
}

/// A category and its ancestors, root first, when every one of them exists.
pub open spec fn ancestors(cs: Seq<CanonicalCategory>, id: Seq<char>) -> Option<Seq<CanonicalCategory>> {
    let ps = id_prefixes(id);
    if forall|i: int| 0 <= i < ps.len() ==> (#[trigger] find_id(cs, ps[i])) is Some {
        Some(Seq::new(ps.len(), |i: int| find_id(cs, ps[i])->0))
    } else {
        None
    }
}

/// The labels that compartment matching and the fallback use.
pub open spec fn required_labels() -> Seq<Seq<char>> {
    seq![
        "Emissions"@,
        "Emissions to air"@,
        "Emissions to air, unspecified"@,
        "Emissions to industrial soil"@,
        "Other emissions to industrial soil"@,
        "Emissions to air, indoor"@,
        "Emissions to non-urban air very high stack"@,
        "Emissions to non-urban air high stack"@,
        "Emissions to non-urban air low stack"@,
        "Emissions to non-urban air close to ground"@,
        "Emissions to urban air very high stack"@,
        "Emissions to urban air high stack"@,
        "Emissions to urban air low stack"@,
    ]
}

/// Every label of a source path names a category.
pub open spec fn labels_found(cs: Seq<CanonicalCategory>, src: Seq<Seq<char>>) -> bool {
    forall|i: int| 0 <= i < src.len() ==> (#[trigger] find_label(cs, src[i])) is Some
}

/// The categories that a source path names exactly: a path declared by the
/// extension names its node; otherwise every label must name a category, and the
/// last one is the leaf. The leaf comes with its ancestors, root first.
pub open spec fn exact_path_of(
    cs: Seq<CanonicalCategory>,
    entries: Seq<(Seq<Seq<char>>, Seq<char>)>,
    src: Seq<Seq<char>>,
) -> Option<Seq<CanonicalCategory>> {
    if src.len() == 0 {
        None
    } else {
        match path_node(entries, src) {
            Some(id) => ancestors(cs, id),
            None => if labels_found(cs, src) {
                ancestors(cs, find_label(cs, src.last())->0.category_id@)
            } else {
                None
            },
        }
    }
}

/// The labels, root first, of the compartment that a lower-cased source path
/// text describes: industrial soil, indoor air, then non-urban before urban air
/// and very high before high stacks.
pub open spec fn compartment_path_of(text: Seq<char>) -> Option<Seq<Seq<char>>> {
    let air = |leaf: Seq<char>| seq!["Emissions"@, "Emissions to air"@, leaf];
    if contains(text, "industrial soil"@) {
        Some(seq!["Emissions"@, "Emissions to industrial soil"@, "Other emissions to industrial soil"@])
    } else if contains(text, "indoor"@) {
        Some(air("Emissions to air, indoor"@))
    } else if contains(text, "non-urban"@) && contains(text, "very high stack"@) {
        Some(air("Emissions to non-urban air very high stack"@))
    } else if contains(text, "non-urban"@) && contains(text, "high stack"@) {
        Some(air("Emissions to non-urban air high stack"@))
    } else if contains(text, "non-urban"@) && contains(text, "low stack"@) {
        Some(air("Emissions to non-urban air low stack"@))
    } else if contains(text, "non-urban"@) && contains(text, "close to ground"@) {
        Some(air("Emissions to non-urban air close to ground"@))
    } else if contains(text, "urban"@) && contains(text, "very high stack"@) {
        Some(air("Emissions to urban air very high stack"@))
    } else if contains(text, "urban"@) && contains(text, "high stack"@) {
        Some(air("Emissions to urban air high stack"@))
    } else if contains(text, "urban"@) && contains(text, "low stack"@) {
        Some(air("Emissions to urban air low stack"@))
    } else {
        None
    }
}

/// The categories of the compartment that a source path describes.
pub open spec fn deterministic_match_of(cs: Seq<CanonicalCategory>, src: Seq<Seq<char>>) -> Option<
    Seq<CanonicalCategory>,
> {
    match compartment_path_of(lower(join(src, " "@))) {
        Some(labels) => Some(labels.map_values(|l: Seq<char>| find_label(cs, l)->0)),
        None => None,
    }
}

/// The texts of the `text` members of a source categorization, in order.
pub open spec fn categorization_texts(items: Seq<JsonValue>) -> Seq<Seq<char>>
    decreases items.len(),
{
    if items.len() == 0 {
        Seq::empty()
    } else {
        let rest = categorization_texts(items.drop_last());
        match items.last().member_text("text"@) {
            Some(t) => rest.push(t),
            None => rest,
        }
    }
}

/// The source path that classification reads: the texts of the source's
/// elementary categorization when it is an array with any, else the category path.
pub open spec fn source_categories_of(raw: JsonValue, category_path: Seq<Seq<char>>) -> Seq<Seq<char>> {
    match raw.member("elementaryCategorization"@) {
        Some(JsonValue::Array(items)) => {
            let t = categorization_texts(items@);
            if t.len() > 0 {
                t
            } else {
                category_path
            }
        },
        _ => category_path,
    }
}

/// The last category of a path that belongs to the extension.
pub open spec fn last_extension(cats: Seq<CanonicalCategory>, ext: Seq<Seq<char>>) -> Option<Seq<char>>
    decreases cats.len(),
{
    if cats.len() == 0 {
        None
    } else if ext.contains(cats.last().category_id@) {
        Some(cats.last().category_id@)
    } else {
        last_extension(cats.drop_last(), ext)
    }
}

/// What a classification keeps as its source evidence: the source's elementary
/// categorization as it stands, or, when there is none, the category path.
#[derive(Clone, Copy, Debug, PartialEq, Eq, Structural)]
pub enum SourceEvidence {
    Categorization,
    CategoryPath,
}

pub open spec fn evidence_of(raw: JsonValue, elementary: bool) -> SourceEvidence {
    if elementary && raw.member("elementaryCategorization"@) is Some {
        SourceEvidence::Categorization
    } else {
        SourceEvidence::CategoryPath
    }
}

/// The classification of a flow.
#[derive(Debug)]
pub struct CanonicalClassification {
    pub categories: Vec<CanonicalCategory>,
    pub taxonomy_id: String,
    pub taxonomy_version: String,
    pub extension_node_id: Option<String>,
    pub source_path: Vec<String>,
    pub source_evidence: SourceEvidence,
    pub match_kind: String,
}

/// The fallback leaf of an elementary flow that matches nothing.
pub open spec fn fallback_labels() -> Seq<Seq<char>> {
    seq!["Emissions"@, "Emissions to air"@, "Emissions to air, unspecified"@]
}

/// The labels that compartment matching and the fallback use, as a list.
fn required_label_list() -> (r: Vec<&'static str>)
    ensures
        r@.len() == required_labels().len(),
        forall|m: int| 0 <= m < r@.len() ==> #[trigger] r@[m]@ == required_labels()[m],
{
    let mut r: Vec<&'static str> = Vec::new();
    r.push("Emissions");
    r.push("Emissions to air");
    r.push("Emissions to air, unspecified");
    r.push("Emissions to industrial soil");
    r.push("Other emissions to industrial soil");
    r.push("Emissions to air, indoor");
    r.push("Emissions to non-urban air very high stack");
    r.push("Emissions to non-urban air high stack");
    r.push("Emissions to non-urban air low stack");
    r.push("Emissions to non-urban air close to ground");
    r.push("Emissions to urban air very high stack");
    r.push("Emissions to urban air high stack");
    r.push("Emissions to urban air low stack");
    r
}

/// Whether two lists of strings are equal.
pub fn strings_eq(a: &Vec<String>, b: &Vec<String>) -> (r: bool)
    ensures
        r == (texts(a@) == texts(b@)),
{
    if a.len() != b.len() {
        proof {
            assert(texts(a@).len() != texts(b@).len());
        }
        return false;
    }
    let mut i: usize = 0;
    while i < a.len()
        invariant
            i <= a@.len(),
            a@.len() == b@.len(),
            forall|k: int| 0 <= k < i ==> #[trigger] a@[k]@ == b@[k]@,
        decreases a@.len() - i,
    {
        if !str_eq(a[i].as_str(), b[i].as_str()) {
            proof {
                assert(texts(a@)[i as int] != texts(b@)[i as int]);
            }
            return false;
        }
        i = i + 1;
    }
    assert(texts(a@) =~= texts(b@));
    true
}

/// A copy of a list of strings.
pub fn clone_strings(v: &Vec<String>) -> (r: Vec<String>)
    ensures
        texts(r@) == texts(v@),
{
    let mut r: Vec<String> = Vec::new();
    let mut i: usize = 0;
    while i < v.len()
        invariant
            i <= v@.len(),
            texts(r@) == texts(v@.subrange(0, i as int)),
        decreases v@.len() - i,
    {
        let ghost before = texts(r@);
        let c = v[i].clone();
        assert(c@ == v@[i as int]@);
        r.push(c);
        assert(texts(r@) =~= before.push(v@[i as int]@));
        i = i + 1;
        assert(texts(v@.subrange(0, i as int)) =~= texts(v@.subrange(0, i - 1)).push(v@[i - 1]@));
    }
    assert(v@.subrange(0, v@.len() as int) =~= v@);
    r
}

/// The source path that classification reads (see `source_categories_of`), from
/// the source's categorization member and the entity's category path.
pub fn source_categories(categorization: Option<&JsonValue>, category_path: &Vec<String>) -> (r: Vec<String>)
    ensures
        texts(r@) == match crate::json::deref_opt(categorization) {
            Some(JsonValue::Array(items)) => {
                let t = categorization_texts(items@);
                if t.len() > 0 {
                    t
                } else {
                    texts(category_path@)
                }
            },
            _ => texts(category_path@),
        },
{
    let items = match categorization {
        Some(c) => match c.as_array() {
            Some(items) => items,
            None => return clone_strings(category_path),
        },
        None => return clone_strings(category_path),
    };
    let mut out: Vec<String> = Vec::new();
    let mut i: usize = 0;
    assert(items@.subrange(0, 0) =~= Seq::<JsonValue>::empty());
    while i < items.len()
        invariant
            i <= items@.len(),
            texts(out@) == categorization_texts(items@.subrange(0, i as int)),
        decreases items@.len() - i,
    {
        let ghost before = texts(out@);
        let ghost sub = items@.subrange(0, i + 1);
        assert(sub.drop_last() =~= items@.subrange(0, i as int));
        assert(sub.last() == items@[i as int]);
        match items[i].get_str("text") {
            Some(t) => {
                out.push(owned(t));
                assert(texts(out@) =~= before.push(t@));
            },
            None => {},
        }
        i = i + 1;
    }
    assert(items@.subrange(0, items@.len() as int) =~= items@);
    if out.len() == 0 {
        return clone_strings(category_path);
    }
    out
}

/// The base taxonomy with its versioned extension.
pub struct ElementaryTaxonomy {
    categories: Vec<CanonicalCategory>,
    taxonomy_id: String,
    taxonomy_version: u64,
    extension_ids: Vec<String>,
    paths: Vec<(Vec<String>, String)>,
}

/// Why a taxonomy was refused.
#[derive(Debug)]
pub enum TaxonomyError {
    DuplicateLabel(String),
    DuplicateCategoryId(String),
    MissingLabel(String),
}

impl ElementaryTaxonomy {
    pub closed spec fn cats(self) -> Seq<CanonicalCategory> {
        self.categories@
    }

    pub closed spec fn extension_id(self) -> Seq<char> {
        self.taxonomy_id@
    }

    pub closed spec fn extension_version(self) -> u64 {
        self.taxonomy_version
    }

    /// The node identifiers of the extension.
    pub closed spec fn extension_node_ids(self) -> Seq<Seq<char>> {
        texts(self.extension_ids@)
    }

    /// The declared source paths of the extension, with their nodes.
    pub closed spec fn extension_entries(self) -> Seq<(Seq<Seq<char>>, Seq<char>)> {
        self.paths@.map_values(|e: (Vec<String>, String)| (texts(e.0@), e.1@))
    }

    /// Labels and identifiers are unique, and every label that matching uses is
    /// present.
    pub open spec fn wf(self) -> bool {
        &&& forall|i: int, j: int|
            0 <= i < j < self.cats().len() ==> #[trigger] self.cats()[i].label@ != #[trigger] self.cats()[j].label@
        &&& forall|i: int, j: int|
            0 <= i < j < self.cats().len() ==> #[trigger] self.cats()[i].category_id@ != #[trigger] self.cats()[j].category_id@
        &&& forall|k: int| 0 <= k < required_labels().len() ==> (#[trigger] find_label(self.cats(), required_labels()[k])) is Some
    }

    /// The category with a label.
    pub fn by_label(&self, label: &str) -> (r: Option<&CanonicalCategory>)
        requires
            self.wf(),
        ensures
            r matches Some(c) ==> find_label(self.cats(), label@) == Some(*c),
            r is None ==> find_label(self.cats(), label@) is None,
    {
        let mut i: usize = 0;
        while i < self.categories.len()
            invariant
                i <= self.cats().len(),
                self.wf(),
                forall|k: int| 0 <= k < i ==> #[trigger] self.cats()[k].label@ != label@,
            decreases self.cats().len() - i,
        {
            if str_eq(self.categories[i].label.as_str(), label) {
                proof {
                    let j = choose|j: int| 0 <= j < self.cats().len() && #[trigger] self.cats()[j].label@ == label@;
                    if j != i {
                        if j < i {
                            assert(self.cats()[j].label@ != self.cats()[i as int].label@);
                        } else {
                            assert(self.cats()[i as int].label@ != self.cats()[j].label@);
                        }
                    }
                }
                return Some(&self.categories[i]);
            }
            i = i + 1;
        }
        None
    }

    /// The category with an identifier.
    pub fn by_id(&self, id: &str) -> (r: Option<&CanonicalCategory>)
        requires
            self.wf(),
        ensures
            r matches Some(c) ==> find_id(self.cats(), id@) == Some(*c),
            r is None ==> find_id(self.cats(), id@) is None,
    {
        let mut i: usize = 0;
        while i < self.categories.len()
            invariant
                i <= self.cats().len(),
                self.wf(),
                forall|k: int| 0 <= k < i ==> #[trigger] self.cats()[k].category_id@ != id@,
            decreases self.cats().len() - i,
        {
            if str_eq(self.categories[i].category_id.as_str(), id) {
                proof {
                    let j = choose|j: int| 0 <= j < self.cats().len() && #[trigger] self.cats()[j].category_id@ == id@;
                    if j != i {
                        if j < i {
                            assert(self.cats()[j].category_id@ != self.cats()[i as int].category_id@);
                        } else {
                            assert(self.cats()[i as int].category_id@ != self.cats()[j].category_id@);
                        }
                    }
                }
                return Some(&self.categories[i]);
            }
            i = i + 1;
        }
        None
    }

    /// A category and its ancestors, root first, when every one exists.
    pub fn category_ancestors(&self, id: &str) -> (r: Option<Vec<CanonicalCategory>>)
        requires
            self.wf(),
        ensures
            match r {
                Some(v) => ancestors(self.cats(), id@) == Some(v@),
                None => ancestors(self.cats(), id@) is None,
            },
    {
        let c = chars_of(id);
        let parts = split_chars(c.as_slice(), '.');
        let ghost pv = parts@.map_values(|v: Vec<char>| v@);
        let ghost ps = id_prefixes(id@);
        let mut prefix: Vec<char> = Vec::new();
        let mut out: Vec<CanonicalCategory> = Vec::new();
        let mut i: usize = 0;
        assert(pv.subrange(0, 0) =~= Seq::<Seq<char>>::empty());
        while i < parts.len()
            invariant
                i <= parts@.len(),
                pv == parts@.map_values(|v: Vec<char>| v@),
                pv == split(id@, '.'),
                ps == id_prefixes(id@),
                ps.len() == pv.len(),
                self.wf(),
                prefix@ == dotted(pv.subrange(0, i as int)),
                out@.len() == i,
                forall|k: int| 0 <= k < i ==> find_id(self.cats(), #[trigger] ps[k]) == Some(out@[k]),
            decreases parts@.len() - i,
        {
            let ghost before = prefix@;
            if prefix.len() > 0 {
                prefix.push('.');
            }
            let mut k: usize = 0;
            let ghost mid = prefix@;
            while k < parts[i].len()
                invariant
                    i < parts@.len(),
                    k <= parts@[i as int]@.len(),
                    prefix@ == mid + parts@[i as int]@.subrange(0, k as int),
                decreases parts@[i as int]@.len() - k,
            {
                prefix.push(parts[i][k]);
                k = k + 1;
                assert(prefix@ =~= mid + parts@[i as int]@.subrange(0, k as int));
            }
            proof {
                assert(parts@[i as int]@.subrange(0, k as int) =~= parts@[i as int]@);
                let sub = pv.subrange(0, i + 1);
                assert(sub.drop_last() =~= pv.subrange(0, i as int));
                assert(sub.last() == pv[i as int]);
                if before.len() == 0 {
                    assert(prefix@ =~= pv[i as int]);
                } else {
                    assert(prefix@ =~= before + "."@ + pv[i as int]) by {
                        reveal_strlit(".");
                    }
                }
                assert(prefix@ == dotted(sub));
                assert(ps[i as int] == dotted(pv.subrange(0, i + 1)));
            }
            let key = string_of(prefix.as_slice());
            match self.by_id(key.as_str()) {
                Some(cat) => {
                    out.push(cat.duplicate());
                },
                None => {
                    proof {
                        assert(find_id(self.cats(), ps[i as int]) is None);
                    }
                    return None;
                },
            }
            i = i + 1;
        }
        proof {
            assert(out@ =~= Seq::new(ps.len(), |j: int| find_id(self.cats(), ps[j])->0));
        }
        Some(out)
    }

    /// Builds the taxonomy from its categories and its extension registry:
    /// labels and identifiers must be unique (the first repeat is the error),
    /// and every label that matching uses must be present.
    pub fn new(
        categories: Vec<CanonicalCategory>,
        taxonomy_id: String,
        taxonomy_version: u64,
        nodes: Vec<ExtensionNode>,
    ) -> (r: Result<ElementaryTaxonomy, TaxonomyError>)
        ensures
            r is Ok <==> ({
                &&& forall|i: int, j: int|
                    0 <= i < j < categories@.len() ==> #[trigger] categories@[i].label@ != #[trigger] categories@[j].label@
                &&& forall|i: int, j: int|
                    0 <= i < j < categories@.len() ==> #[trigger] categories@[i].category_id@ != #[trigger] categories@[j].category_id@
                &&& forall|k: int| 0 <= k < required_labels().len() ==> (#[trigger] find_label(categories@, required_labels()[k])) is Some
            }),
            r matches Ok(t) ==> t.wf() && t.cats() == categories@ && t.extension_id() == taxonomy_id@
                && t.extension_version() == taxonomy_version
                && t.extension_node_ids() == nodes@.map_values(|n: ExtensionNode| n.cat_id@)
                && t.extension_entries() == extension_paths(nodes@),
    {
        let mut j: usize = 0;
        while j < categories.len()
            invariant
                j <= categories@.len(),
                forall|a: int, b: int| 0 <= a < b < j ==> #[trigger] categories@[a].label@ != #[trigger] categories@[b].label@,
                forall|a: int, b: int| 0 <= a < b < j ==> #[trigger] categories@[a].category_id@ != #[trigger] categories@[b].category_id@,
            decreases categories@.len() - j,
        {
            let mut i: usize = 0;
            while i < j
                invariant
                    i <= j < categories@.len(),
                    forall|a: int|
                        #![trigger categories@[a]]
                        0 <= a < i ==> categories@[a].label@ != categories@[j as int].label@
                            && categories@[a].category_id@ != categories@[j as int].category_id@,
                decreases j - i,
            {
                if str_eq(categories[i].label.as_str(), categories[j].label.as_str()) {
                    return Err(TaxonomyError::DuplicateLabel(categories[j].label.clone()));
                }
                if str_eq(categories[i].category_id.as_str(), categories[j].category_id.as_str()) {
                    return Err(TaxonomyError::DuplicateCategoryId(categories[j].category_id.clone()));
                }
                i = i + 1;
            }
            j = j + 1;
            proof {
                assert forall|a: int, b: int| 0 <= a < b < j implies #[trigger] categories@[a].label@ != #[trigger] categories@[b].label@ by {
                    if b == j - 1 {
                        assert(categories@[a].label@ != categories@[b].label@);
                    }
                }
                assert forall|a: int, b: int| 0 <= a < b < j implies #[trigger] categories@[a].category_id@ != #[trigger] categories@[b].category_id@ by {
                    if b == j - 1 {
                        assert(categories@[a].category_id@ != categories@[b].category_id@);
                    }
                }
            }
        }
        let mut paths: Vec<(Vec<String>, String)> = Vec::new();
        let mut ids: Vec<String> = Vec::new();
        let mut n: usize = 0;
        assert(nodes@.subrange(0, 0) =~= Seq::<ExtensionNode>::empty());
        while n < nodes.len()
            invariant
                n <= nodes@.len(),
                texts(ids@) == nodes@.subrange(0, n as int).map_values(|x: ExtensionNode| x.cat_id@),
                paths@.map_values(|e: (Vec<String>, String)| (texts(e.0@), e.1@)) == extension_paths(nodes@.subrange(0, n as int)),
            decreases nodes@.len() - n,
        {
            let node = &nodes[n];
            let ghost start = paths@.map_values(|e: (Vec<String>, String)| (texts(e.0@), e.1@));
            let mut q: usize = 0;
            while q < node.source_paths.len()
                invariant
                    q <= node.source_paths@.len(),
                    paths@.map_values(|e: (Vec<String>, String)| (texts(e.0@), e.1@)) == start
                        + node.source_paths@.subrange(0, q as int).map_values(|p: Vec<String>| (texts(p@), node.cat_id@)),
                decreases node.source_paths@.len() - q,
            {
                let ghost before = paths@.map_values(|e: (Vec<String>, String)| (texts(e.0@), e.1@));
                paths.push((node.source_paths[q].clone(), node.cat_id.clone()));
                proof {
                    assert(paths@.map_values(|e: (Vec<String>, String)| (texts(e.0@), e.1@)) =~= before.push((texts(node.source_paths@[q as int]@), node.cat_id@)));
                }
                q = q + 1;
                proof {
                    assert(node.source_paths@.subrange(0, q as int).map_values(|p: Vec<String>| (texts(p@), node.cat_id@))
                        =~= node.source_paths@.subrange(0, q - 1).map_values(|p: Vec<String>| (texts(p@), node.cat_id@)).push((texts(node.source_paths@[q - 1]@), node.cat_id@)));
                }
            }
            let ghost before_ids = texts(ids@);
            ids.push(node.cat_id.clone());
            n = n + 1;
            proof {
                assert(node.source_paths@.subrange(0, q as int) =~= node.source_paths@);
                let sub = nodes@.subrange(0, n as int);
                assert(sub.drop_last() =~= nodes@.subrange(0, n - 1));
                assert(sub.last() == nodes@[n - 1]);
                assert(texts(ids@) =~= before_ids.push(nodes@[n - 1].cat_id@));
                assert(texts(ids@) =~= sub.map_values(|x: ExtensionNode| x.cat_id@));
            }
        }
        assert(nodes@.subrange(0, nodes@.len() as int) =~= nodes@);
        let ghost cats0 = categories@;
        let t = ElementaryTaxonomy { categories, taxonomy_id, taxonomy_version, extension_ids: ids, paths };
        let ghost t0 = t;
        assert(t0.cats() == cats0);
        let required = required_label_list();
        let mut k: usize = 0;
        while k < required.len()
            invariant
                k <= required@.len(),
                required@.len() == required_labels().len(),
                forall|m: int| 0 <= m < required@.len() ==> #[trigger] required@[m]@ == required_labels()[m],
                t == t0,
                t0.cats() == cats0,
                cats0 == categories@,
                forall|a: int, b: int| 0 <= a < b < t.cats().len() ==> #[trigger] t.cats()[a].label@ != #[trigger] t.cats()[b].label@,
                forall|a: int, b: int| 0 <= a < b < t.cats().len() ==> #[trigger] t.cats()[a].category_id@ != #[trigger] t.cats()[b].category_id@,
                forall|m: int| 0 <= m < k ==> (#[trigger] find_label(t.cats(), required_labels()[m])) is Some,
            decreases required@.len() - k,
        {
            let mut i: usize = 0;
            let mut found = false;
            while !found && i < t.categories.len()
                invariant
                    i <= t.cats().len(),
                    k < required@.len(),
                    found ==> find_label(t.cats(), required@[k as int]@) is Some,
                    forall|a: int| 0 <= a < i ==> #[trigger] t.cats()[a].label@ != required@[k as int]@,
                decreases t.cats().len() - i, if found { 0int } else { 1int },
            {
                if str_eq(t.categories[i].label.as_str(), required[k]) {
                    found = true;
                } else {
                    i = i + 1;
                }
            }
            if !found {
                proof {
                    assert(t.cats() == cats0);
                    assert(!(exists|a: int| 0 <= a < t.cats().len() && #[trigger] t.cats()[a].label@ == required_labels()[k as int]));
                    assert(find_label(t.cats(), required_labels()[k as int]) is None);
                }
                return Err(TaxonomyError::MissingLabel(owned(required[k])));
            }
            k = k + 1;
        }
        Ok(t)
    }

    /// The categories that a source path names exactly (see `exact_path_of`).
    pub fn exact_path(&self, source: &Vec<String>) -> (r: Option<Vec<CanonicalCategory>>)
        requires
            self.wf(),
        ensures
            match r {
                Some(v) => exact_path_of(self.cats(), self.extension_entries(), texts(source@)) == Some(v@),
                None => exact_path_of(self.cats(), self.extension_entries(), texts(source@)) is None,
            },
    {
        if source.len() == 0 {
            return None;
        }
        let ghost src = texts(source@);
        let ghost entries = self.extension_entries();
        let mut node: Option<usize> = None;
        let mut i: usize = 0;
        assert(entries.subrange(0, 0) =~= Seq::<(Seq<Seq<char>>, Seq<char>)>::empty());
        while i < self.paths.len()
            invariant
                i <= self.paths@.len(),
                entries == self.extension_entries(),
                entries.len() == self.paths@.len(),
                src == texts(source@),
                match node {
                    Some(k) => k < i && path_node(entries.subrange(0, i as int), src) == Some(entries[k as int].1),
                    None => path_node(entries.subrange(0, i as int), src) is None,
                },
            decreases self.paths@.len() - i,
        {
            let same = strings_eq(&self.paths[i].0, source);
            proof {
                let sub = entries.subrange(0, i + 1);
                assert(sub.drop_last() =~= entries.subrange(0, i as int));
                assert(sub.last() == entries[i as int]);
                assert(entries[i as int].0 == texts(self.paths@[i as int].0@));
            }
            if same {
                node = Some(i);
            }
            i = i + 1;
        }
        assert(entries.subrange(0, entries.len() as int) =~= entries);
        match node {
            Some(k) => {
                assert(entries[k as int].1 == self.paths@[k as int].1@);
                return self.category_ancestors(self.paths[k].1.as_str());
            },
            None => {},
        }
        let mut j: usize = 0;
        while j < source.len()
            invariant
                j <= source@.len(),
                self.wf(),
                src == texts(source@),
                source@.len() > 0,
                path_node(self.extension_entries(), src) is None,
                forall|m: int| 0 <= m < j ==> (#[trigger] find_label(self.cats(), src[m])) is Some,
            decreases source@.len() - j,
        {
            if self.by_label(source[j].as_str()).is_none() {
                proof {
                    assert(src[j as int] == source@[j as int]@);
                    assert(!labels_found(self.cats(), src));
                }
                return None;
            }
            j = j + 1;
        }
        let last = source.len() - 1;
        match self.by_label(source[last].as_str()) {
            Some(leaf) => self.category_ancestors(leaf.category_id.as_str()),
            None => None,
        }
    }

    /// The categories of the labels `a`, `b` and `c`, which all exist.
    fn three_categories(&self, a: &str, b: &str, c: &str) -> (r: Vec<CanonicalCategory>)
        requires
            self.wf(),
            find_label(self.cats(), a@) is Some,
            find_label(self.cats(), b@) is Some,
            find_label(self.cats(), c@) is Some,
        ensures
            r@ == seq![a@, b@, c@].map_values(|l: Seq<char>| find_label(self.cats(), l)->0),
    {
        let mut r: Vec<CanonicalCategory> = Vec::new();
        match self.by_label(a) {
            Some(x) => r.push(x.duplicate()),
            None => {},
        }
        match self.by_label(b) {
            Some(x) => r.push(x.duplicate()),
            None => {},
        }
        match self.by_label(c) {
            Some(x) => r.push(x.duplicate()),
            None => {},
        }
        assert(r@ =~= seq![a@, b@, c@].map_values(|l: Seq<char>| find_label(self.cats(), l)->0));
        r
    }

    /// The categories of the compartment that a source path describes (see
    /// `compartment_path_of`).
    pub fn deterministic_match(&self, source: &Vec<String>) -> (r: Option<Vec<CanonicalCategory>>)
        requires
            self.wf(),
        ensures
            match r {
                Some(v) => deterministic_match_of(self.cats(), texts(source@)) == Some(v@),
                None => deterministic_match_of(self.cats(), texts(source@)) is None,
            },
    {
        let joined = join_strings(source, " ");
        let text = to_ascii_lowercase(joined.as_str());
        let t = text.as_str();
        proof {
            assert(texts(source@) == source@.map_values(|p: String| p@));
            assert(find_label(self.cats(), required_labels()[0]) is Some);
            assert(find_label(self.cats(), required_labels()[1]) is Some);
            assert(find_label(self.cats(), required_labels()[3]) is Some);
            assert(find_label(self.cats(), required_labels()[4]) is Some);
            assert(find_label(self.cats(), required_labels()[5]) is Some);
            assert(find_label(self.cats(), required_labels()[6]) is Some);
            assert(find_label(self.cats(), required_labels()[7]) is Some);
            assert(find_label(self.cats(), required_labels()[8]) is Some);
            assert(find_label(self.cats(), required_labels()[9]) is Some);
            assert(find_label(self.cats(), required_labels()[10]) is Some);
            assert(find_label(self.cats(), required_labels()[11]) is Some);
            assert(find_label(self.cats(), required_labels()[12]) is Some);
        }
        let non_urban = str_contains(t, "non-urban");
        let urban = str_contains(t, "urban");
        let very_high = str_contains(t, "very high stack");
        let high = str_contains(t, "high stack");
        let low = str_contains(t, "low stack");
        if str_contains(t, "industrial soil") {
            Some(self.three_categories("Emissions", "Emissions to industrial soil", "Other emissions to industrial soil"))
        } else if str_contains(t, "indoor") {
            Some(self.three_categories("Emissions", "Emissions to air", "Emissions to air, indoor"))
        } else if non_urban && very_high {
            Some(self.three_categories("Emissions", "Emissions to air", "Emissions to non-urban air very high stack"))
        } else if non_urban && high {
            Some(self.three_categories("Emissions", "Emissions to air", "Emissions to non-urban air high stack"))
        } else if non_urban && low {
            Some(self.three_categories("Emissions", "Emissions to air", "Emissions to non-urban air low stack"))
        } else if non_urban && str_contains(t, "close to ground") {
            Some(self.three_categories("Emissions", "Emissions to air", "Emissions to non-urban air close to ground"))
        } else if urban && very_high {
            Some(self.three_categories("Emissions", "Emissions to air", "Emissions to urban air very high stack"))
        } else if urban && high {
            Some(self.three_categories("Emissions", "Emissions to air", "Emissions to urban air high stack"))
        } else if urban && low {
            Some(self.three_categories("Emissions", "Emissions to air", "Emissions to urban air low stack"))
        } else {
            None
        }
    }

    /// Classifies a flow. A flow that is not elementary is left to CPC with no
    /// categories. An elementary flow's source path is matched exactly (the
    /// extension when one of its nodes is on the path), then by compartment
    /// (always an extension node), and otherwise falls back to unspecified air.
    /// What classifying a flow gives (see `classify`).
    pub open spec fn classified(self, entity: CanonicalEntity, dataset_type: FlowDatasetType, r: CanonicalClassification) -> bool {
        &&& r.source_evidence == evidence_of(entity.raw, dataset_type == FlowDatasetType::Elementary)
        &&& dataset_type != FlowDatasetType::Elementary ==> r.categories@.len() == 0
                && r.taxonomy_id@ == "cpc"@ && r.taxonomy_version@ == "2.1"@
                && r.extension_node_id is None && texts(r.source_path@) == texts(entity.category_path@)
                && r.match_kind@ == "non-elementary"@
        &&& dataset_type == FlowDatasetType::Elementary ==> ({
                let src = source_categories_of(entity.raw, texts(entity.category_path@));
                &&& texts(r.source_path@) == src
                &&& match exact_path_of(self.cats(), self.extension_entries(), src) {
                    Some(cats) => {
                        let ext = last_extension(cats, self.extension_node_ids());
                        &&& r.categories@ == cats
                        &&& opt_view(r.extension_node_id) == ext
                        &&& r.taxonomy_id@ == (if ext is Some { self.extension_id() } else { BASE_TAXONOMY_ID@ })
                        &&& r.taxonomy_version@ == (if ext is Some { decimal(self.extension_version() as nat) } else { BASE_TAXONOMY_VERSION@ })
                        &&& r.match_kind@ == "exact-path"@
                    },
                    None => match deterministic_match_of(self.cats(), src) {
                        Some(cats) => {
                            &&& r.categories@ == cats
                            &&& opt_view(r.extension_node_id) == Some(cats.last().category_id@)
                            &&& r.taxonomy_id@ == self.extension_id()
                            &&& r.taxonomy_version@ == decimal(self.extension_version() as nat)
                            &&& r.match_kind@ == "deterministic-compartment"@
                        },
                        None => {
                            &&& r.categories@ == fallback_labels().map_values(|l: Seq<char>| find_label(self.cats(), l)->0)
                            &&& r.extension_node_id is None
                            &&& r.taxonomy_id@ == BASE_TAXONOMY_ID@
                            &&& r.taxonomy_version@ == BASE_TAXONOMY_VERSION@
                            &&& r.match_kind@ == "fallback-air-unspecified"@
                        },
                    },
                }
            })
    }

    pub fn classify(&self, entity: &CanonicalEntity, dataset_type: FlowDatasetType) -> (r: CanonicalClassification)
        requires
            self.wf(),
        ensures
            self.classified(*entity, dataset_type, r),
    {
        if dataset_type != FlowDatasetType::Elementary {
            return CanonicalClassification {
                categories: Vec::new(),
                taxonomy_id: owned("cpc"),
                taxonomy_version: owned("2.1"),
                extension_node_id: None,
                source_path: clone_strings(&entity.category_path),
                source_evidence: SourceEvidence::CategoryPath,
                match_kind: owned("non-elementary"),
            };
        }
        let categorization = entity.raw.get("elementaryCategorization");
        let evidence = if categorization.is_some() {
            SourceEvidence::Categorization
        } else {
            SourceEvidence::CategoryPath
        };
        let source = source_categories(categorization, &entity.category_path);
        let ghost src = texts(source@);
        match self.exact_path(&source) {
            Some(cats) => {
                let ext = self.last_extension_of(&cats);
                let (taxonomy_id, taxonomy_version) = match &ext {
                    Some(_) => (self.taxonomy_id.clone(), decimal_string(self.taxonomy_version)),
                    None => (owned(BASE_TAXONOMY_ID), owned(BASE_TAXONOMY_VERSION)),
                };
                return CanonicalClassification {
                    categories: cats,
                    taxonomy_id,
                    taxonomy_version,
                    extension_node_id: ext,
                    source_path: source,
                    source_evidence: evidence,
                    match_kind: owned("exact-path"),
                };
            },
            None => {},
        }
        match self.deterministic_match(&source) {
            Some(cats) => {
                let last = cats.len() - 1;
                let node = cats[last].category_id.clone();
                return CanonicalClassification {
                    categories: cats,
                    taxonomy_id: self.taxonomy_id.clone(),
                    taxonomy_version: decimal_string(self.taxonomy_version),
                    extension_node_id: Some(node),
                    source_path: source,
                    source_evidence: evidence,
                    match_kind: owned("deterministic-compartment"),
                };
            },
            None => {},
        }
        proof {
            assert(find_label(self.cats(), required_labels()[0]) is Some);
            assert(find_label(self.cats(), required_labels()[1]) is Some);
            assert(find_label(self.cats(), required_labels()[2]) is Some);
        }
        let cats = self.three_categories("Emissions", "Emissions to air", "Emissions to air, unspecified");
        CanonicalClassification {
            categories: cats,
            taxonomy_id: owned(BASE_TAXONOMY_ID),
            taxonomy_version: owned(BASE_TAXONOMY_VERSION),
            extension_node_id: None,
            source_path: source,
            source_evidence: evidence,
            match_kind: owned("fallback-air-unspecified"),
        }
    }

    /// The last category of a path that belongs to the extension.
    fn last_extension_of(&self, cats: &Vec<CanonicalCategory>) -> (r: Option<String>)
        ensures
            opt_view(r) == last_extension(cats@, self.extension_node_ids()),
    {
        let mut i: usize = cats.len();
        assert(cats@.subrange(0, cats@.len() as int) =~= cats@);
        while i > 0
            invariant
                i <= cats@.len(),
                last_extension(cats@, self.extension_node_ids()) == last_extension(cats@.subrange(0, i as int), self.extension_node_ids()),
            decreases i,
        {
            let ghost sub = cats@.subrange(0, i as int);
            assert(sub.drop_last() =~= cats@.subrange(0, i - 1));
            assert(sub.last() == cats@[i - 1]);
            let mut k: usize = 0;
            let mut member = false;
            while k < self.extension_ids.len()
                invariant
                    k <= self.extension_ids@.len(),
                    i <= cats@.len(),
                    i > 0,
                    member == exists|m: int| 0 <= m < k && self.extension_ids@[m]@ == cats@[i - 1].category_id@,
                decreases self.extension_ids@.len() - k,
            {
                if str_eq(self.extension_ids[k].as_str(), cats[i - 1].category_id.as_str()) {
                    member = true;
                }
                k = k + 1;
            }
            proof {
                let ext = self.extension_node_ids();
                if member {
                    let m = choose|m: int| 0 <= m < k && self.extension_ids@[m]@ == cats@[i - 1].category_id@;
                    assert(ext[m] == cats@[i - 1].category_id@);
                } else {
                    assert forall|m: int| 0 <= m < ext.len() implies ext[m] != cats@[i - 1].category_id@ by {
                        assert(ext[m] == self.extension_ids@[m]@);
                    }
                }
            }
            if member {
                return Some(cats[i - 1].category_id.clone());
            }
            i = i - 1;
        }
        None
    }
}

// ---------------------------------------------------------------------------
// Flows
// ---------------------------------------------------------------------------

/// A flow made ready for writing.
#[derive(Debug)]
pub struct CanonicalFlow {
    pub id: String,
    pub dataset_type: FlowDatasetType,
    pub name: CanonicalFlowName,
    pub classification: CanonicalClassification,
    pub flow_properties: Vec<CanonicalFlowPropertyAssignment>,
    pub reference_property_internal_id: String,
    pub version: Option<String>,
    pub synonyms: Option<String>,
    pub cas_number: Option<String>,
    pub sum_formula: Option<String>,
    pub source_trace: JsonValue,
}

/// The TIDAS type of a flow, from its `flowType` text.
pub open spec fn dataset_type_of(raw: JsonValue) -> FlowDatasetType {
    flow_type_of(
        match raw.member_text("flowType"@) {
            Some(t) => t,
            None => "PRODUCT_FLOW"@,
        },
    )
}

/// Every reference property is marked as one.
proof fn lemma_references_marked(fs: Seq<PropertyFacts>)
    ensures
        forall|i: int| 0 <= i < references(fs).len() ==> #[trigger] references(fs)[i].is_reference,
    decreases fs.len(),
{
    if fs.len() > 0 {
        lemma_references_marked(fs.drop_last());
    }
}

/// Normalizes a flow: its type, its structured name (a missing fact refuses
/// it), its classification, its flow properties (a property that cannot be
/// read, or not exactly one reference, refuses it), the internal id of its
/// reference property (the reference comes first) and the texts it carries.
pub fn normalize_flow(entity: &CanonicalEntity, taxonomy: &ElementaryTaxonomy) -> (r: Result<CanonicalFlow, FlowNormalizationError>)
    requires
        taxonomy.wf(),
    ensures
        ({
            let dt = dataset_type_of(entity.raw);
            let so = source_object_of(entity.raw, entity.internal_id@);
            match flow_name_of(opt_view(entity.name), entity.raw.member("flowName"@), dt) {
                Err((path, why)) => r matches Err(FlowNormalizationError::MissingFact { flow_id: f, source_object: o, canonical_path: p, reason: w })
                    && f@ == entity.internal_id@ && o@ == so && p@ == path && w@ == why,
                Ok(nm) => match flow_properties_of(entity.raw, so) {
                    Err(PropertyRefusal::Invalid(i, reason)) => r matches Err(FlowNormalizationError::InvalidFlowProperty { flow_id: f, source_object: o, source_order: n, reason: w })
                        && f@ == entity.internal_id@ && o@ == so && n == i && w@ == reason,
                    Err(PropertyRefusal::Cardinality(count)) => r matches Err(FlowNormalizationError::ReferencePropertyCardinality { flow_id: f, source_object: o, count: n })
                        && f@ == entity.internal_id@ && o@ == so && n == count,
                    Ok(fs) => r matches Ok(flow) && {
                        &&& flow.id@ == entity.internal_id@
                        &&& flow.dataset_type == dt
                        &&& name_view(flow.name) == nm
                        &&& taxonomy.classified(*entity, dt, flow.classification)
                        &&& all_facts(flow.flow_properties@) == fs
                        &&& flow.reference_property_internal_id@ == "1"@
                        &&& opt_view(flow.version) == string_field_of(entity.raw, "version"@)
                        &&& opt_view(flow.synonyms) == string_field_of(entity.raw, "synonyms"@)
                        &&& opt_view(flow.cas_number) == string_field_of(entity.raw, "CASNumber"@)
                        &&& opt_view(flow.sum_formula) == string_field_of(entity.raw, "sumFormula"@)
                        &&& data(flow.source_trace) == match entity.raw.member("sourceTrace"@) {
                            Some(t) => data(t),
                            None => JsonData::Null,
                        }
                    },
                },
            }
        }),
{
    let dataset_type = FlowDatasetType::from_source(entity.raw.get_str("flowType"));
    let source = source_object(entity);
    let name_text: Option<&str> = match &entity.name {
        Some(n) => Some(n.as_str()),
        None => None,
    };
    let name = normalize_flow_name(
        name_text,
        entity.raw.get("flowName"),
        dataset_type,
        entity.internal_id.as_str(),
        source.as_str(),
    )?;
    let classification = taxonomy.classify(entity, dataset_type);
    let flow_properties = normalize_flow_properties(entity, source.as_str())?;
    let ghost fs = all_facts(flow_properties@);
    proof {
        let so = source_object_of(entity.raw, entity.internal_id@);
        let parsed = match entity.raw.member("flowProperties"@) {
            Some(JsonValue::Array(items)) => parsed_entries(items@, so, 0),
            _ => Ok(Seq::<PropertyFacts>::empty()),
        };
        let all = if parsed->Ok_0.len() == 0 {
            seq![legacy_facts(entity.raw)]
        } else {
            parsed->Ok_0
        };
        lemma_references_marked(all);
        if !(all.len() == 1 && references(all).len() == 0) {
            assert(fs[0] == references(all)[0]);
        }
        assert(fs.len() > 0 && fs[0].is_reference);
        assert(facts(flow_properties@[0]) == fs[0]);
    }
    let mut reference_index: usize = 0;
    while reference_index < flow_properties.len() && !flow_properties[reference_index].is_reference
        invariant
            reference_index == 0,
            flow_properties@.len() > 0 && flow_properties@[0].is_reference,
        decreases flow_properties@.len() - reference_index,
    {
        reference_index = reference_index + 1;
    }
    let reference_property_internal_id = decimal_string((reference_index + 1) as u64);
    proof {
        reveal_strlit("1");
        assert(decimal(1) =~= "1"@);
    }
    let source_trace = match entity.raw.get("sourceTrace") {
        Some(t) => t.duplicate(),
        None => JsonValue::Null,
    };
    Ok(
        CanonicalFlow {
            id: entity.internal_id.clone(),
            dataset_type,
            name,
            classification,
            flow_properties,
            reference_property_internal_id,
            version: string_field(entity, "version"),
            synonyms: string_field(entity, "synonyms"),
            cas_number: string_field(entity, "CASNumber"),
            sum_formula: string_field(entity, "sumFormula"),
            source_trace,
        },
    )
}

} // verus!
