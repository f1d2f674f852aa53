//! The openLCA JSON-LD rules for entities: which object types are read, the
//! identity, name and category of each, and the source fields kept for unit
//! groups, flow properties, flows, processes, actors, sources, locations and
//! data quality systems.
use vstd::prelude::*;

use crate::json::{JsonData, JsonValue, data, deref_opt, members_view, put_member};
use crate::model::CanonicalEntity;
use crate::normalization::{opt_view, texts};
use crate::openlca_exchange::{copy_to, digits_value, ref_copy};
use crate::process_writer::{all_digits, text_or};
use crate::text::{chars_of, concat, concat3, decimal, decimal_string, owned, split, split_chars, str_eq, string_of, trim, trim_chars};
use crate::writers::{stable_id, uuid_v5_url};

verus! {

// ---------------------------------------------------------------------------
// Building source fields
// ---------------------------------------------------------------------------

/// The members of an object under construction, as a map.
pub open spec fn fields(m: Vec<(String, JsonValue)>) -> Map<Seq<char>, JsonData> {
    members_view(JsonValue::Object(m))
}

fn copy_into(m: &mut Vec<(String, JsonValue)>, o: &JsonValue, source: &str, target: &str)
    ensures
        fields(*final(m)) == copy_to(fields(*old(m)), *o, source@, target@),
{
    match o.get(source) {
        Some(v) => put_member(m, target, v.duplicate()),
        None => {},
    }
}

fn ref_into(m: &mut Vec<(String, JsonValue)>, r: &JsonValue, id_field: &str, name_field: &str)
    ensures
        fields(*final(m)) == ref_copy(fields(*old(m)), *r, id_field@, name_field@),
{
    copy_into(m, r, "@id", id_field);
    copy_into(m, r, "name", name_field);
}

fn empty_fields() -> (r: Vec<(String, JsonValue)>)
    ensures
        fields(r) == Map::<Seq<char>, JsonData>::empty(),
{
    let r: Vec<(String, JsonValue)> = Vec::new();
    assert(fields(r) =~= Map::<Seq<char>, JsonData>::empty());
    r
}

/// The listed members of an object that it has.
pub open spec fn copied_fields(o: JsonValue, names: Seq<Seq<char>>) -> Map<Seq<char>, JsonData>
    decreases names.len(),
{
    if names.len() == 0 {
        Map::empty()
    } else {
        copy_to(copied_fields(o, names.drop_last()), o, names.last(), names.last())
    }
}

fn copy_fields(o: &JsonValue, names: &Vec<&'static str>) -> (r: Vec<(String, JsonValue)>)
    ensures
        fields(r) == copied_fields(*o, names@.map_values(|n: &'static str| n@)),
{
    let ghost ns = names@.map_values(|n: &'static str| n@);
    let mut m = empty_fields();
    let mut i: usize = 0;
    assert(ns.subrange(0, 0) =~= Seq::<Seq<char>>::empty());
    while i < names.len()
        invariant
            i <= names@.len(),
            ns == names@.map_values(|n: &'static str| n@),
            fields(m) == copied_fields(*o, ns.subrange(0, i as int)),
        decreases names@.len() - i,
    {
        let ghost sub = ns.subrange(0, i + 1);
        assert(sub.drop_last() =~= ns.subrange(0, i as int));
        assert(sub.last() == names@[i as int]@);
        copy_into(&mut m, o, names[i], names[i]);
        i = i + 1;
    }
    assert(ns.subrange(0, ns.len() as int) =~= ns);
    m
}

// ---------------------------------------------------------------------------
// Unit groups, flow properties and flows
// ---------------------------------------------------------------------------

/// A unit group keeps its units (none where it lists none).
pub open spec fn unit_group_fields(o: JsonValue) -> Map<Seq<char>, JsonData> {
    Map::empty().insert(
        "units"@,
        match o.member("units"@) {
            Some(v) => data(v),
            None => JsonData::Array(Seq::empty()),
        },
    )
}

/// A flow property keeps the id and name of its unit group.
pub open spec fn flow_property_fields(o: JsonValue) -> Map<Seq<char>, JsonData> {
    match o.member("unitGroup"@) {
        Some(u) if u is Object => ref_copy(Map::empty(), u, "unitGroupRefId"@, "unitGroupName"@),
        _ => Map::empty(),
    }
}

/// The first entry marked as the reference flow property.
pub open spec fn first_reference_entry(items: Seq<JsonValue>) -> Option<JsonValue>
    decreases items.len(),
{
    if items.len() == 0 {
        None
    } else if items[0].member("isRefFlowProperty"@) == Some(JsonValue::Bool(true)) {
        Some(items[0])
    } else {
        first_reference_entry(items.drop_first())
    }
}

/// The flow property object of a flow's reference entry (the first marked
/// entry, else the first entry).
pub open spec fn reference_property(o: JsonValue) -> Option<JsonValue> {
    match o.member("flowProperties"@) {
        Some(JsonValue::Array(items)) => {
            let chosen = match first_reference_entry(items@) {
                Some(e) => Some(e),
                None => if items@.len() > 0 {
                    Some(items@[0])
                } else {
                    None
                },
            };
            match chosen {
                Some(e) => match e.member("flowProperty"@) {
                    Some(p) if p is Object => Some(p),
                    _ => None,
                },
                None => None,
            }
        },
        _ => None,
    }
}

/// A name part of a flow, where the flow gives it as a string.
pub open spec fn name_part_member(o: JsonValue, field: Seq<char>) -> Seq<(Seq<char>, JsonData)> {
    match o.member_text(field) {
        Some(t) => seq![(field, JsonData::Text(t))],
        None => Seq::empty(),
    }
}

/// The name parts of a flow, in key order.
pub open spec fn flow_name_members(o: JsonValue) -> Seq<(Seq<char>, JsonData)> {
    name_part_member(o, "flowProperties"@) + name_part_member(o, "mixAndLocationTypes"@) + name_part_member(
        o,
        "treatmentStandardsRoutes"@,
    )
}

/// A flow keeps its type (a product flow where it names none), CAS number,
/// formula, flow properties, the id and name of its reference flow property,
/// its reference unit, its name parts and where it came from.
pub open spec fn flow_fields(o: JsonValue) -> Map<Seq<char>, JsonData> {
    let m0 = Map::<Seq<char>, JsonData>::empty().insert(
        "flowType"@,
        JsonData::Text(text_or(o.member_text("flowType"@), "PRODUCT_FLOW"@)),
    );
    let m1 = copy_to(copy_to(copy_to(m0, o, "cas"@, "CASNumber"@), o, "formula"@, "sumFormula"@), o, "flowProperties"@,
        "flowProperties"@);
    let m2 = match reference_property(o) {
        Some(p) => ref_copy(m1, p, "flowPropertyRefId"@, "flowPropertyName"@),
        None => m1,
    };
    let m3 = match o.member_text("refUnit"@) {
        Some(u) => m2.insert("unitName"@, JsonData::Text(u)),
        None => m2,
    };
    let m4 = if flow_name_members(o).len() > 0 {
        m3.insert("flowName"@, JsonData::Object(flow_name_members(o)))
    } else {
        m3
    };
    m4.insert(
        "sourceTrace"@,
        JsonData::Object(seq![
            ("format"@, JsonData::Text("openlca-jsonld"@)),
            ("sourceId"@, match o.member("@id"@) {
                Some(v) => data(v),
                None => JsonData::Null,
            }),
            ("sourceObject"@, JsonData::Text("Flow"@)),
        ]),
    )
}

fn text_member<'a>(o: &'a JsonValue, key: &str) -> (r: Option<&'a str>)
    ensures
        crate::normalization::opt_str(r) == o.member_text(key@),
{
    o.get_str(key)
}

fn unit_group_into(o: &JsonValue) -> (r: Vec<(String, JsonValue)>)
    ensures
        fields(r) == unit_group_fields(*o),
{
    let mut m = empty_fields();
    let units = match o.get("units") {
        Some(v) => v.duplicate(),
        None => JsonValue::Array(Vec::new()),
    };
    proof {
        if o.member("units"@) is None {
            assert(crate::json::data_items(Seq::<JsonValue>::empty()) =~= Seq::<JsonData>::empty());
        }
    }
    put_member(&mut m, "units", units);
    m
}

fn flow_property_into(o: &JsonValue) -> (r: Vec<(String, JsonValue)>)
    ensures
        fields(r) == flow_property_fields(*o),
{
    let mut m = empty_fields();
    match o.get("unitGroup") {
        Some(u) => if u.as_object().is_some() {
            ref_into(&mut m, u, "unitGroupRefId", "unitGroupName");
        },
        None => {},
    }
    m
}

fn first_reference_index(items: &Vec<JsonValue>) -> (r: Option<usize>)
    ensures
        match r {
            Some(i) => i < items@.len() && first_reference_entry(items@) == Some(items@[i as int]),
            None => first_reference_entry(items@) is None,
        },
{
    let mut i: usize = 0;
    assert(items@.subrange(0, items@.len() as int) =~= items@);
    while i < items.len()
        invariant
            i <= items@.len(),
            first_reference_entry(items@) == first_reference_entry(items@.subrange(i as int, items@.len() as int)),
        decreases items@.len() - i,
    {
        let ghost sub = items@.subrange(i as int, items@.len() as int);
        assert(sub[0] == items@[i as int]);
        assert(sub.drop_first() =~= items@.subrange(i + 1, items@.len() as int));
        let marked = match items[i].get("isRefFlowProperty") {
            Some(JsonValue::Bool(b)) => *b,
            _ => false,
        };
        if marked {
            return Some(i);
        }
        i = i + 1;
    }
    assert(items@.subrange(items@.len() as int, items@.len() as int) =~= Seq::<JsonValue>::empty());
    None
}

fn reference_property_of(o: &JsonValue) -> (r: Option<&JsonValue>)
    ensures
        deref_opt(r) == reference_property(*o),
{
    let items = match o.get("flowProperties") {
        Some(JsonValue::Array(items)) => items,
        _ => {
            return None;
        },
    };
    let chosen = match first_reference_index(items) {
        Some(i) => &items[i],
        None => if items.len() > 0 {
            &items[0]
        } else {
            return None;
        },
    };
    match chosen.get("flowProperty") {
        Some(p) => if p.as_object().is_some() {
            Some(p)
        } else {
            None
        },
        None => None,
    }
}

fn name_parts_of(o: &JsonValue) -> (r: Vec<(String, JsonValue)>)
    ensures
        crate::json::data_members(r@) == flow_name_members(*o),
{
    let mut m: Vec<(String, JsonValue)> = Vec::new();
    let ghost e = Seq::<(Seq<char>, JsonData)>::empty();
    assert(crate::json::data_members(m@) =~= e);
    match text_member(o, "flowProperties") {
        Some(t) => crate::json::push_member(&mut m, "flowProperties", JsonValue::String(owned(t))),
        None => {
            assert(crate::json::data_members(m@) + Seq::<(Seq<char>, JsonData)>::empty() =~= crate::json::data_members(m@));
        },
    }
    match text_member(o, "mixAndLocationTypes") {
        Some(t) => crate::json::push_member(&mut m, "mixAndLocationTypes", JsonValue::String(owned(t))),
        None => {
            assert(crate::json::data_members(m@) + Seq::<(Seq<char>, JsonData)>::empty() =~= crate::json::data_members(m@));
        },
    }
    match text_member(o, "treatmentStandardsRoutes") {
        Some(t) => crate::json::push_member(&mut m, "treatmentStandardsRoutes", JsonValue::String(owned(t))),
        None => {
            assert(crate::json::data_members(m@) + Seq::<(Seq<char>, JsonData)>::empty() =~= crate::json::data_members(m@));
        },
    }
    assert(e + name_part_member(*o, "flowProperties"@) =~= name_part_member(*o, "flowProperties"@));
    m
}

fn flow_into(o: &JsonValue) -> (r: Vec<(String, JsonValue)>)
    ensures
        fields(r) == flow_fields(*o),
{
    let mut m = empty_fields();
    let flow_type = match text_member(o, "flowType") {
        Some(t) => t,
        None => "PRODUCT_FLOW",
    };
    put_member(&mut m, "flowType", JsonValue::String(owned(flow_type)));
    copy_into(&mut m, o, "cas", "CASNumber");
    copy_into(&mut m, o, "formula", "sumFormula");
    copy_into(&mut m, o, "flowProperties", "flowProperties");
    match reference_property_of(o) {
        Some(p) => ref_into(&mut m, p, "flowPropertyRefId", "flowPropertyName"),
        None => {},
    }
    match text_member(o, "refUnit") {
        Some(u) => put_member(&mut m, "unitName", JsonValue::String(owned(u))),
        None => {},
    }
    let parts = name_parts_of(o);
    if parts.len() > 0 {
        put_member(&mut m, "flowName", JsonValue::Object(parts));
    } else {
        proof {
            crate::json::lemma_data_members(parts@);
        }
    }
    let mut trace: Vec<(String, JsonValue)> = Vec::new();
    crate::json::push_member(&mut trace, "format", JsonValue::String(owned("openlca-jsonld")));
    let id = match o.get("@id") {
        Some(v) => v.duplicate(),
        None => JsonValue::Null,
    };
    crate::json::push_member(&mut trace, "sourceId", id);
    crate::json::push_member(&mut trace, "sourceObject", JsonValue::String(owned("Flow")));
    assert(crate::json::data_members(trace@) =~= flow_fields(*o)["sourceTrace"@]->Object_0);
    put_member(&mut m, "sourceTrace", JsonValue::Object(trace));
    m
}

// ---------------------------------------------------------------------------
// Processes
// ---------------------------------------------------------------------------

/// The maximal runs of digits of a text and the empty runs between other
/// characters, as splitting at every non-digit gives them.
pub open spec fn digit_runs(s: Seq<char>) -> Seq<Seq<char>>
    decreases s.len(),
{
    if s.len() == 0 {
        seq![Seq::<char>::empty()]
    } else {
        let prev = digit_runs(s.drop_last());
        if crate::text::is_digit(s.last()) {
            prev.update(prev.len() - 1, prev.last().push(s.last()))
        } else {
            prev.push(Seq::<char>::empty())
        }
    }
}

proof fn lemma_digit_runs_nonempty(s: Seq<char>)
    ensures
        digit_runs(s).len() >= 1,
    decreases s.len(),
{
    if s.len() > 0 {
        lemma_digit_runs_nonempty(s.drop_last());
    }
}

/// The first run of exactly four digits.
pub open spec fn first_four(runs: Seq<Seq<char>>) -> Option<Seq<char>>
    decreases runs.len(),
{
    if runs.len() == 0 {
        None
    } else if runs[0].len() == 4 {
        Some(runs[0])
    } else {
        first_four(runs.drop_first())
    }
}

/// The year of a value: the first four-digit run of a text, or a number that
/// is a non-negative integer.
pub open spec fn year_of(v: JsonValue) -> Option<nat> {
    match v {
        JsonValue::String(s) => match first_four(digit_runs(s@)) {
            Some(t) => Some(digits_value(t)),
            None => None,
        },
        JsonValue::Number(n) => if n@.len() > 0 && all_digits(n@) && digits_value(n@) <= u64::MAX {
            Some(digits_value(n@))
        } else {
            None
        },
        _ => None,
    }
}

/// The process documentation fields a process keeps, with the names they
/// are kept under.
pub open spec fn documentation_pairs() -> Seq<(Seq<char>, Seq<char>)> {
    seq![
        ("validUntil"@, "dataSetValidUntil"@),
        ("timeDescription"@, "timeDescription"@),
        ("geographyDescription"@, "locationDescription"@),
        ("technologyDescription"@, "technologyDescription"@),
        ("samplingDescription"@, "samplingProcedure"@),
        ("dataCollectionDescription"@, "dataCollectionPeriod"@),
        ("dataSelectionDescription"@, "dataSelectionAndCombinationPrinciples"@),
        ("dataTreatmentDescription"@, "dataTreatmentAndExtrapolationsPrinciples"@),
        ("completenessDescription"@, "dataCutOffAndCompletenessPrinciples"@),
        ("uncertaintyAdjustments"@, "uncertaintyAdjustments"@),
        ("useAdvice"@, "useAdviceForDataSet"@),
        ("intendedApplication"@, "intendedApplications"@),
        ("projectDescription"@, "project"@),
        ("modelingConstantsDescription"@, "modellingConstants"@),
        ("inventoryMethodDescription"@, "deviationsFromLCIMethodPrinciple"@),
        ("restrictionsDescription"@, "accessRestrictions"@),
        ("creationDate"@, "creationDate"@),
        ("sources"@, "sourceRefs"@),
        ("reviews"@, "sourceReviews"@)
    ]
}

pub open spec fn copied_pairs(m: Map<Seq<char>, JsonData>, d: JsonValue, pairs: Seq<(Seq<char>, Seq<char>)>) -> Map<Seq<char>, JsonData>
    decreases pairs.len(),
{
    if pairs.len() == 0 {
        m
    } else {
        copy_to(copied_pairs(m, d, pairs.drop_last()), d, pairs.last().0, pairs.last().1)
    }
}

/// A process keeps its documentation fields and its reference year (from
/// its validity start, else its creation date).
pub open spec fn with_documentation(m: Map<Seq<char>, JsonData>, o: JsonValue) -> Map<Seq<char>, JsonData> {
    match o.member("processDocumentation"@) {
        Some(d) if d is Object => {
            let a = copied_pairs(m, d, documentation_pairs());
            let source = match d.member("validFrom"@) {
                Some(v) => Some(v),
                None => d.member("creationDate"@),
            };
            match source {
                Some(v) => match year_of(v) {
                    Some(y) => a.insert("referenceYear"@, JsonData::Number(decimal(y))),
                    None => a,
                },
                None => a,
            }
        },
        _ => m,
    }
}

/// A process keeps the code and the id of its location.
pub open spec fn with_location(m: Map<Seq<char>, JsonData>, o: JsonValue) -> Map<Seq<char>, JsonData> {
    match o.member("location"@) {
        Some(l) if l is Object => {
            let a = match l.member_text("code"@) {
                Some(c) => m.insert("location"@, JsonData::Text(c)),
                None => m,
            };
            match l.member_text("@id"@) {
                Some(id) => a.insert("locationRefId"@, JsonData::Text(id)),
                None => a,
            }
        },
        _ => m,
    }
}

/// A process keeps its description, where it came from, its type, its
/// allocation method, version, last change, allocation factors and data
/// quality entry and system, its documentation and its location; its
/// exchanges are read on their own (see `process_exchanges`).
pub open spec fn process_fields(o: JsonValue) -> Map<Seq<char>, JsonData> {
    let m0 = Map::<Seq<char>, JsonData>::empty().insert(
        "description"@,
        JsonData::Text(text_or(o.member_text("description"@), "Imported from openLCA JSON-LD."@)),
    ).insert(
        "sourceTrace"@,
        JsonData::Object(seq![("format"@, JsonData::Text("openlca-jsonld"@)), ("process"@, data(o))]),
    );
    let m1 = match o.member_text("processType"@) {
        Some(t) => m0.insert("sourceProcessType"@, JsonData::Text(t)),
        None => m0,
    };
    let m2 = copy_to(
        copy_to(
            copy_to(
                copy_to(copy_to(copy_to(m1, o, "defaultAllocationMethod"@, "sourceDefaultAllocationMethod"@), o,
                    "version"@, "version"@), o, "lastChange"@, "lastChange"@),
                o,
                "allocationFactors"@,
                "allocationFactors"@,
            ),
            o,
            "dqEntry"@,
            "dqEntry"@,
        ),
        o,
        "dqSystem"@,
        "dqSystem"@,
    );
    with_location(with_documentation(m2, o), o)
}

fn documentation_pair_list() -> (r: Vec<(&'static str, &'static str)>)
    ensures
        r@.map_values(|p: (&'static str, &'static str)| (p.0@, p.1@)) == documentation_pairs(),
{
    let mut r: Vec<(&'static str, &'static str)> = Vec::new();
    r.push(("validUntil", "dataSetValidUntil"));
    r.push(("timeDescription", "timeDescription"));
    r.push(("geographyDescription", "locationDescription"));
    r.push(("technologyDescription", "technologyDescription"));
    r.push(("samplingDescription", "samplingProcedure"));
    r.push(("dataCollectionDescription", "dataCollectionPeriod"));
    r.push(("dataSelectionDescription", "dataSelectionAndCombinationPrinciples"));
    r.push(("dataTreatmentDescription", "dataTreatmentAndExtrapolationsPrinciples"));
    r.push(("completenessDescription", "dataCutOffAndCompletenessPrinciples"));
    r.push(("uncertaintyAdjustments", "uncertaintyAdjustments"));
    r.push(("useAdvice", "useAdviceForDataSet"));
    r.push(("intendedApplication", "intendedApplications"));
    r.push(("projectDescription", "project"));
    r.push(("modelingConstantsDescription", "modellingConstants"));
    r.push(("inventoryMethodDescription", "deviationsFromLCIMethodPrinciple"));
    r.push(("restrictionsDescription", "accessRestrictions"));
    r.push(("creationDate", "creationDate"));
    r.push(("sources", "sourceRefs"));
    r.push(("reviews", "sourceReviews"));
    assert(r@.map_values(|p: (&'static str, &'static str)| (p.0@, p.1@)) =~= documentation_pairs());
    r
}

pub(crate) fn year_of_value(v: &JsonValue) -> (r: Option<u64>)
    ensures
        match r {
            Some(y) => year_of(*v) == Some(y as nat),
            None => year_of(*v) is None,
        },
{
    match v {
        JsonValue::String(s) => {
            let c = chars_of(s.as_str());
            let mut runs: Vec<Vec<char>> = Vec::new();
            let mut cur: Vec<char> = Vec::new();
            let mut i: usize = 0;
            assert(c@.subrange(0, 0) =~= Seq::<char>::empty());
            assert(runs@.map_values(|v: Vec<char>| v@).push(cur@) =~= digit_runs(Seq::<char>::empty()));
            while i < c.len()
                invariant
                    i <= c@.len(),
                    runs@.map_values(|v: Vec<char>| v@).push(cur@) == digit_runs(c@.subrange(0, i as int)),
                    forall|j: int| 0 <= j < runs@.len() ==> all_digits(#[trigger] runs@[j]@),
                    all_digits(cur@),
                decreases c@.len() - i,
            {
                let ghost now = c@.subrange(0, i + 1);
                assert(now.drop_last() =~= c@.subrange(0, i as int));
                assert(now.last() == c@[i as int]);
                let ch = c[i];
                if ch >= '0' && ch <= '9' {
                    cur.push(ch);
                } else {
                    let done = cur;
                    runs.push(done);
                    cur = Vec::new();
                }
                assert(runs@.map_values(|v: Vec<char>| v@).push(cur@) =~= digit_runs(now));
                i = i + 1;
            }
            assert(c@.subrange(0, c@.len() as int) =~= c@);
            runs.push(cur);
            let ghost all = runs@.map_values(|v: Vec<char>| v@);
            assert(all =~= digit_runs(s@));
            let mut k: usize = 0;
            assert(all.subrange(0, all.len() as int) =~= all);
            while k < runs.len()
                invariant
                    k <= runs@.len(),
                    all == runs@.map_values(|v: Vec<char>| v@),
                    forall|j: int| 0 <= j < runs@.len() ==> all_digits(#[trigger] runs@[j]@),
                    *v == JsonValue::String(*s),
                    all == digit_runs(s@),
                    first_four(all) == first_four(all.subrange(k as int, all.len() as int)),
                decreases runs@.len() - k,
            {
                let ghost sub = all.subrange(k as int, all.len() as int);
                assert(sub[0] == runs@[k as int]@);
                assert(sub.drop_first() =~= all.subrange(k + 1, all.len() as int));
                if runs[k].len() == 4 {
                    let ghost t = runs@[k as int]@;
                    match capped_digits_of(runs[k].as_slice()) {
                        Some(y) => {
                            return Some(y);
                        },
                        None => {
                            return None;
                        },
                    }
                }
                k = k + 1;
            }
            assert(all.subrange(all.len() as int, all.len() as int) =~= Seq::<Seq<char>>::empty());
            None
        },
        JsonValue::Number(n) => {
            let c = chars_of(n.as_str());
            if c.len() == 0 {
                return None;
            }
            let cap: u128 = 0x1_0000_0000_0000_0000;
            match crate::openlca_exchange::capped_digits(c.as_slice(), cap) {
                Some(x) => if x < cap {
                    Some(x as u64)
                } else {
                    None
                },
                None => None,
            }
        },
        _ => None,
    }
}

/// The value of a run of four digits.
fn capped_digits_of(t: &[char]) -> (r: Option<u64>)
    requires
        t@.len() == 4,
    ensures
        match r {
            Some(y) => all_digits(t@) && y == digits_value(t@),
            None => !all_digits(t@),
        },
{
    match crate::openlca_exchange::capped_digits(t, 100000) {
        Some(x) => {
            proof {
                lemma_four_digits_small(t@);
            }
            Some(x as u64)
        },
        None => None,
    }
}

proof fn lemma_four_digits_small(t: Seq<char>)
    requires
        t.len() == 4,
        all_digits(t),
    ensures
        digits_value(t) < 10000,
{
    let a = t.drop_last();
    let b = a.drop_last();
    let c = b.drop_last();
    let d = c.drop_last();
    assert(d.len() == 0);
    assert(crate::text::is_digit(t[0]) && crate::text::is_digit(t[1]) && crate::text::is_digit(t[2]) && crate::text::is_digit(t[3]));
    assert(c.last() == t[0] && b.last() == t[1] && a.last() == t[2] && t.last() == t[3]);
    assert(digits_value(d) == 0);
    assert(digits_value(c) <= 9);
    assert(digits_value(b) <= 99);
    assert(digits_value(a) <= 999);
    assert(digits_value(t) <= 9999);
}

fn process_into(o: &JsonValue) -> (r: Vec<(String, JsonValue)>)
    ensures
        fields(r) == process_fields(*o),
{
    let mut m = empty_fields();
    let description = match text_member(o, "description") {
        Some(t) => t,
        None => "Imported from openLCA JSON-LD.",
    };
    put_member(&mut m, "description", JsonValue::String(owned(description)));
    let mut trace: Vec<(String, JsonValue)> = Vec::new();
    crate::json::push_member(&mut trace, "format", JsonValue::String(owned("openlca-jsonld")));
    crate::json::push_member(&mut trace, "process", o.duplicate());
    assert(crate::json::data_members(trace@) =~= seq![("format"@, JsonData::Text("openlca-jsonld"@)), ("process"@, data(*o))]);
    put_member(&mut m, "sourceTrace", JsonValue::Object(trace));
    match text_member(o, "processType") {
        Some(t) => put_member(&mut m, "sourceProcessType", JsonValue::String(owned(t))),
        None => {},
    }
    copy_into(&mut m, o, "defaultAllocationMethod", "sourceDefaultAllocationMethod");
    copy_into(&mut m, o, "version", "version");
    copy_into(&mut m, o, "lastChange", "lastChange");
    copy_into(&mut m, o, "allocationFactors", "allocationFactors");
    copy_into(&mut m, o, "dqEntry", "dqEntry");
    copy_into(&mut m, o, "dqSystem", "dqSystem");
    documentation_into(&mut m, o);
    location_into(&mut m, o);
    m
}

fn documentation_into(m: &mut Vec<(String, JsonValue)>, o: &JsonValue)
    ensures
        fields(*final(m)) == with_documentation(fields(*old(m)), *o),
{
    let d = match o.get("processDocumentation") {
        Some(d) => d,
        None => {
            return;
        },
    };
    if d.as_object().is_none() {
        return;
    }
    let pairs = documentation_pair_list();
    let ghost ps = documentation_pairs();
    let ghost start = fields(*m);
    let mut i: usize = 0;
    assert(ps.subrange(0, 0) =~= Seq::<(Seq<char>, Seq<char>)>::empty());
    while i < pairs.len()
        invariant
            i <= pairs@.len(),
            ps == pairs@.map_values(|p: (&'static str, &'static str)| (p.0@, p.1@)),
            fields(*m) == copied_pairs(start, *d, ps.subrange(0, i as int)),
        decreases pairs@.len() - i,
    {
        let ghost sub = ps.subrange(0, i + 1);
        assert(sub.drop_last() =~= ps.subrange(0, i as int));
        assert(sub.last() == (pairs@[i as int].0@, pairs@[i as int].1@));
        copy_into(m, d, pairs[i].0, pairs[i].1);
        i = i + 1;
    }
    assert(ps.subrange(0, ps.len() as int) =~= ps);
    let source = match d.get("validFrom") {
        Some(v) => Some(v),
        None => d.get("creationDate"),
    };
    match source {
        Some(v) => match year_of_value(v) {
            Some(y) => put_member(m, "referenceYear", JsonValue::Number(decimal_string(y))),
            None => {},
        },
        None => {},
    }
}

fn location_into(m: &mut Vec<(String, JsonValue)>, o: &JsonValue)
    ensures
        fields(*final(m)) == with_location(fields(*old(m)), *o),
{
    match o.get("location") {
        Some(l) => if l.as_object().is_some() {
            match text_member(l, "code") {
                Some(c) => put_member(m, "location", JsonValue::String(owned(c))),
                None => {},
            }
            match text_member(l, "@id") {
                Some(id) => put_member(m, "locationRefId", JsonValue::String(owned(id))),
                None => {},
            }
        },
        None => {},
    }
}

// ---------------------------------------------------------------------------
// Entities
// ---------------------------------------------------------------------------

/// The name of an object: its name, else its id, else a generic name.
pub open spec fn entity_name(o: JsonValue) -> Seq<char> {
    text_or(o.member_text("name"@), text_or(o.member_text("@id"@), "Unnamed openLCA entity"@))
}

/// The trimmed, non-empty pieces of a category path.
pub open spec fn kept_pieces(pieces: Seq<Seq<char>>) -> Seq<Seq<char>>
    decreases pieces.len(),
{
    if pieces.len() == 0 {
        Seq::empty()
    } else if trim(pieces.last()).len() > 0 {
        kept_pieces(pieces.drop_last()).push(trim(pieces.last()))
    } else {
        kept_pieces(pieces.drop_last())
    }
}

pub open spec fn category_path_of(o: JsonValue) -> Seq<Seq<char>> {
    match o.member_text("category"@) {
        Some(c) => kept_pieces(split(c, '/')),
        None => Seq::empty(),
    }
}

/// The entity type an openLCA object type is read as.
pub open spec fn kind_of(t: Seq<char>) -> Option<Seq<char>> {
    if t == "UnitGroup"@ {
        Some("unitgroups"@)
    } else if t == "FlowProperty"@ {
        Some("flowproperties"@)
    } else if t == "Flow"@ {
        Some("flows"@)
    } else if t == "Process"@ {
        Some("processes"@)
    } else if t == "Actor"@ {
        Some("contacts"@)
    } else if t == "Source"@ {
        Some("sources"@)
    } else if t == "Location"@ {
        Some("locations"@)
    } else if t == "DQSystem"@ {
        Some("dqsystems"@)
    } else {
        None
    }
}

/// The source fields kept for an object of a type.
pub open spec fn fields_of(t: Seq<char>, o: JsonValue) -> Map<Seq<char>, JsonData> {
    if t == "UnitGroup"@ {
        unit_group_fields(o)
    } else if t == "FlowProperty"@ {
        flow_property_fields(o)
    } else if t == "Flow"@ {
        flow_fields(o)
    } else if t == "Process"@ {
        process_fields(o)
    } else if t == "Actor"@ {
        copied_fields(o, seq!["email"@, "description"@])
    } else if t == "Source"@ {
        copied_fields(o, seq!["textReference"@, "description"@, "url"@])
    } else if t == "Location"@ {
        copied_fields(o, seq!["code"@, "category"@, "description"@])
    } else {
        copied_fields(o, seq!["indicators"@, "source"@])
    }
}

/// An entity as a mathematical value: type, id, external id, name, category
/// path and source fields.
pub open spec fn entity_facts(e: CanonicalEntity) -> (Seq<char>, Seq<char>, Option<Seq<char>>, Option<Seq<char>>, Seq<Seq<char>>, Map<Seq<char>, JsonData>) {
    (e.entity_type@, e.internal_id@, opt_view(e.external_id), opt_view(e.name), texts(e.category_path@), members_view(e.raw))
}

/// The entity of an openLCA object of a known type: its id (derived from
/// its type, the source and its name where it has no id), its id as the
/// external id, its name, its category path and its source fields.
pub open spec fn openlca_entity_of(o: JsonValue, source: Seq<char>) -> Option<(Seq<char>, Seq<char>, Option<Seq<char>>, Option<Seq<char>>, Seq<Seq<char>>, Map<Seq<char>, JsonData>)> {
    match o.member_text("@type"@) {
        None => None,
        Some(t) => match kind_of(t) {
            None => None,
            Some(kind) => {
                let name = entity_name(o);
                let id = match o.member_text("@id"@) {
                    Some(i) => if i.len() > 0 {
                        i
                    } else {
                        uuid_v5_url(vstd::utf8::encode_utf8("openlca/"@ + t + "/"@ + source + "/"@ + name))
                    },
                    None => uuid_v5_url(vstd::utf8::encode_utf8("openlca/"@ + t + "/"@ + source + "/"@ + name)),
                };
                Some((kind, id, o.member_text("@id"@), Some(name), category_path_of(o), fields_of(t, o)))
            },
        },
    }
}

fn kind_of_type(t: &str) -> (r: Option<&'static str>)
    ensures
        match r {
            Some(k) => kind_of(t@) == Some(k@),
            None => kind_of(t@) is None,
        },
{
    if str_eq(t, "UnitGroup") {
        Some("unitgroups")
    } else if str_eq(t, "FlowProperty") {
        Some("flowproperties")
    } else if str_eq(t, "Flow") {
        Some("flows")
    } else if str_eq(t, "Process") {
        Some("processes")
    } else if str_eq(t, "Actor") {
        Some("contacts")
    } else if str_eq(t, "Source") {
        Some("sources")
    } else if str_eq(t, "Location") {
        Some("locations")
    } else if str_eq(t, "DQSystem") {
        Some("dqsystems")
    } else {
        None
    }
}

fn fields_for(t: &str, o: &JsonValue) -> (r: Vec<(String, JsonValue)>)
    ensures
        fields(r) == fields_of(t@, *o),
{
    if str_eq(t, "UnitGroup") {
        unit_group_into(o)
    } else if str_eq(t, "FlowProperty") {
        flow_property_into(o)
    } else if str_eq(t, "Flow") {
        flow_into(o)
    } else if str_eq(t, "Process") {
        process_into(o)
    } else {
        let mut names: Vec<&'static str> = Vec::new();
        if str_eq(t, "Actor") {
            names.push("email");
            names.push("description");
        } else if str_eq(t, "Source") {
            names.push("textReference");
            names.push("description");
            names.push("url");
        } else if str_eq(t, "Location") {
            names.push("code");
            names.push("category");
            names.push("description");
        } else {
            names.push("indicators");
            names.push("source");
        }
        let r = copy_fields(o, &names);
        proof {
            if t@ == "Actor"@ {
                assert(names@.map_values(|n: &'static str| n@) =~= seq!["email"@, "description"@]);
            } else if t@ == "Source"@ {
                assert(names@.map_values(|n: &'static str| n@) =~= seq!["textReference"@, "description"@, "url"@]);
            } else if t@ == "Location"@ {
                assert(names@.map_values(|n: &'static str| n@) =~= seq!["code"@, "category"@, "description"@]);
            } else {
                assert(names@.map_values(|n: &'static str| n@) =~= seq!["indicators"@, "source"@]);
            }
        }
        r
    }
}

fn category_path(o: &JsonValue) -> (r: Vec<String>)
    ensures
        texts(r@) == category_path_of(*o),
{
    let mut out: Vec<String> = Vec::new();
    let c = match text_member(o, "category") {
        Some(c) => c,
        None => {
            assert(texts(out@) =~= Seq::<Seq<char>>::empty());
            return out;
        },
    };
    let chars = chars_of(c);
    let pieces = split_chars(chars.as_slice(), '/');
    let ghost ps = pieces@.map_values(|v: Vec<char>| v@);
    let mut i: usize = 0;
    assert(ps.subrange(0, 0) =~= Seq::<Seq<char>>::empty());
    assert(texts(out@) =~= Seq::<Seq<char>>::empty());
    while i < pieces.len()
        invariant
            i <= pieces@.len(),
            ps == pieces@.map_values(|v: Vec<char>| v@),
            texts(out@) == kept_pieces(ps.subrange(0, i as int)),
        decreases pieces@.len() - i,
    {
        let ghost sub = ps.subrange(0, i + 1);
        assert(sub.drop_last() =~= ps.subrange(0, i as int));
        assert(sub.last() == pieces@[i as int]@);
        let t = trim_chars(pieces[i].as_slice());
        if t.len() > 0 {
            let ghost before = out@;
            out.push(string_of(t.as_slice()));
            assert(texts(out@) =~= texts(before).push(t@));
        }
        i = i + 1;
    }
    assert(ps.subrange(0, ps.len() as int) =~= ps);
    out
}

/// The canonical entity of an openLCA object (see `openlca_entity_of`).
pub fn openlca_entity(o: &JsonValue, source: &str) -> (r: Option<CanonicalEntity>)
    ensures
        match openlca_entity_of(*o, source@) {
            Some(f) => r matches Some(e) && entity_facts(e) == f && e.raw is Object,
            None => r is None,
        },
{
    let t = match text_member(o, "@type") {
        Some(t) => t,
        None => {
            return None;
        },
    };
    let kind = match kind_of_type(t) {
        Some(k) => k,
        None => {
            return None;
        },
    };
    let name = match text_member(o, "name") {
        Some(n) => owned(n),
        None => match text_member(o, "@id") {
            Some(i) => owned(i),
            None => owned("Unnamed openLCA entity"),
        },
    };
    let given = text_member(o, "@id");
    let id = match given {
        Some(i) => if !i.is_empty() {
            owned(i)
        } else {
            derived_id(t, source, name.as_str())
        },
        None => derived_id(t, source, name.as_str()),
    };
    let raw = fields_for(t, o);
    Some(
        CanonicalEntity {
            entity_type: owned(kind),
            internal_id: id,
            external_id: match given {
                Some(i) => Some(owned(i)),
                None => None,
            },
            name: Some(name),
            category_path: category_path(o),
            raw: JsonValue::Object(raw),
        },
    )
}

fn derived_id(t: &str, source: &str, name: &str) -> (r: String)
    ensures
        r@ == uuid_v5_url(vstd::utf8::encode_utf8("openlca/"@ + t@ + "/"@ + source@ + "/"@ + name@)),
{
    let head = concat3("openlca/", t, "/");
    let mid = concat3(head.as_str(), source, "/");
    let seed = concat(mid.as_str(), name);
    assert(seed@ =~= "openlca/"@ + t@ + "/"@ + source@ + "/"@ + name@);
    stable_id(seed.as_str())
}

/// The objects of a JSON-LD document: the document itself, or the objects of
/// a list.
pub open spec fn objects_of(v: JsonValue) -> Seq<JsonValue> {
    match v {
        JsonValue::Object(_) => seq![v],
        JsonValue::Array(items) => objects_in(items@),
        _ => Seq::empty(),
    }
}

pub open spec fn objects_in(items: Seq<JsonValue>) -> Seq<JsonValue>
    decreases items.len(),
{
    if items.len() == 0 {
        Seq::empty()
    } else if items.last() is Object {
        objects_in(items.drop_last()).push(items.last())
    } else {
        objects_in(items.drop_last())
    }
}

/// The entities of the objects of a known type, in order.
pub open spec fn entities_in(objects: Seq<JsonValue>, source: Seq<char>) -> Seq<(Seq<char>, Seq<char>, Option<Seq<char>>, Option<Seq<char>>, Seq<Seq<char>>, Map<Seq<char>, JsonData>)>
    decreases objects.len(),
{
    if objects.len() == 0 {
        Seq::empty()
    } else {
        match openlca_entity_of(objects.last(), source) {
            Some(f) => entities_in(objects.drop_last(), source).push(f),
            None => entities_in(objects.drop_last(), source),
        }
    }
}

/// The canonical entities of a JSON-LD document (see `entities_in`).
pub fn openlca_entities(document: &JsonValue, source: &str) -> (r: Vec<CanonicalEntity>)
    ensures
        r@.map_values(|e: CanonicalEntity| entity_facts(e)) == entities_in(objects_of(*document), source@),
{
    let mut out: Vec<CanonicalEntity> = Vec::new();
    match document {
        JsonValue::Object(_) => {
            let ghost objs = seq![*document];
            proof {
                assert(objects_of(*document) == objs);
                assert(objs.last() == *document);
                assert(objs.drop_last() =~= Seq::<JsonValue>::empty());
                assert(entities_in(objs.drop_last(), source@) =~= Seq::<(Seq<char>, Seq<char>, Option<Seq<char>>, Option<Seq<char>>, Seq<Seq<char>>, Map<Seq<char>, JsonData>)>::empty());
            }
            match openlca_entity(document, source) {
                Some(e) => {
                    out.push(e);
                    assert(out@.map_values(|e: CanonicalEntity| entity_facts(e)) =~= seq![entity_facts(e)]);
                },
                None => {
                    assert(out@.map_values(|e: CanonicalEntity| entity_facts(e)) =~= Seq::<(Seq<char>, Seq<char>, Option<Seq<char>>, Option<Seq<char>>, Seq<Seq<char>>, Map<Seq<char>, JsonData>)>::empty());
                },
            }
        },
        JsonValue::Array(items) => {
            let ghost objs = objects_in(items@);
            let mut i: usize = 0;
            assert(items@.subrange(0, 0) =~= Seq::<JsonValue>::empty());
            assert(out@.map_values(|e: CanonicalEntity| entity_facts(e)) =~= entities_in(objects_in(Seq::<JsonValue>::empty()), source@));
            while i < items.len()
                invariant
                    i <= items@.len(),
                    out@.map_values(|e: CanonicalEntity| entity_facts(e)) == entities_in(objects_in(items@.subrange(0, i as int)), source@),
                decreases items@.len() - i,
            {
                let ghost sub = items@.subrange(0, i + 1);
                assert(sub.drop_last() =~= items@.subrange(0, i as int));
                assert(sub.last() == items@[i as int]);
                let ghost before = out@;
                if items[i].as_object().is_some() {
                    let ghost prev_objs = objects_in(items@.subrange(0, i as int));
                    assert(objects_in(sub) == prev_objs.push(items@[i as int]));
                    assert(prev_objs.push(items@[i as int]).drop_last() =~= prev_objs);
                    match openlca_entity(&items[i], source) {
                        Some(e) => {
                            out.push(e);
                            assert(out@.map_values(|e: CanonicalEntity| entity_facts(e)) =~= before.map_values(
                                |e: CanonicalEntity| entity_facts(e),
                            ).push(entity_facts(e)));
                        },
                        None => {},
                    }
                }
                i = i + 1;
            }
            assert(items@.subrange(0, items@.len() as int) =~= items@);
        },
        _ => {
            assert(out@.map_values(|e: CanonicalEntity| entity_facts(e)) =~= Seq::<(Seq<char>, Seq<char>, Option<Seq<char>>, Option<Seq<char>>, Seq<Seq<char>>, Map<Seq<char>, JsonData>)>::empty());
        },
    }
    out
}

} // verus!
