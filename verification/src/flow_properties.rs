//! The flow properties of a flow: each source entry read into an assignment
//! (property, name, version, conversion factor, reference mark), exactly one
//! reference property, and the reference property first.
use vstd::prelude::*;

use crate::json::{JsonData, JsonValue, data, data_members, deref_opt, lemma_data_members};
use crate::model::CanonicalEntity;
use crate::normalization::{FlowNormalizationError, opt_str, opt_view};
use crate::text::{concat, decimal, decimal_string, owned, trim, trim_str};
use crate::units::{decimal_parses, decimal_valid};
use crate::writers::{stable_id, uuid_v5_url};

verus! {

/// One flow property of a flow, with the factor that converts the flow's
/// amount into it.
#[derive(Debug)]
pub struct CanonicalFlowPropertyAssignment {
    pub flow_property_uuid: String,
    pub flow_property_name: String,
    pub version: Option<String>,
    pub conversion_factor: String,
    pub is_reference: bool,
    pub source_order: usize,
    pub source_evidence: JsonValue,
}

/// An assignment as a mathematical value.
pub struct PropertyFacts {
    pub uuid: Seq<char>,
    pub name: Seq<char>,
    pub version: Option<Seq<char>>,
    pub factor: Seq<char>,
    pub is_reference: bool,
    pub source_order: nat,
    pub evidence: JsonData,
}

pub open spec fn facts(a: CanonicalFlowPropertyAssignment) -> PropertyFacts {
    PropertyFacts {
        uuid: a.flow_property_uuid@,
        name: a.flow_property_name@,
        version: opt_view(a.version),
        factor: a.conversion_factor@,
        is_reference: a.is_reference,
        source_order: a.source_order as nat,
        evidence: data(a.source_evidence),
    }
}

pub open spec fn all_facts(v: Seq<CanonicalFlowPropertyAssignment>) -> Seq<PropertyFacts> {
    v.map_values(|a: CanonicalFlowPropertyAssignment| facts(a))
}

/// The member under the first key, or else under the second.
pub open spec fn first_member(v: JsonValue, a: Seq<char>, b: Seq<char>) -> Option<JsonValue> {
    match v.member(a) {
        Some(x) => Some(x),
        None => v.member(b),
    }
}

/// A text trimmed, when something is left.
pub open spec fn nonblank(t: Option<Seq<char>>) -> Option<Seq<char>> {
    match t {
        Some(s) => if trim(s).len() > 0 {
            Some(trim(s))
        } else {
            None
        },
        None => None,
    }
}

/// A string, or the `#text` of an object.
pub open spec fn localized_text(v: Option<JsonValue>) -> Option<Seq<char>> {
    match v {
        Some(x) => match x.text() {
            Some(t) => Some(t),
            None => x.member_text("#text"@),
        },
        None => None,
    }
}

/// The text of a conversion factor: a string that is a decimal once trimmed
/// (trimmed), or a number as written.
pub open spec fn factor_text(v: Option<JsonValue>) -> Option<Seq<char>> {
    match v {
        Some(JsonValue::String(s)) => if decimal_valid(trim(s@)) {
            Some(trim(s@))
        } else {
            None
        },
        Some(JsonValue::Number(n)) => Some(n@),
        _ => None,
    }
}

/// The evidence of an entry that brings none: where it came from.
pub open spec fn order_evidence(source_object: Seq<char>, order: nat) -> JsonData {
    JsonData::Object(seq![
        ("sourceObject"@, JsonData::Text(source_object)),
        ("sourceOrder"@, JsonData::Number(decimal(order))),
    ])
}

/// One source entry read into an assignment, or the reason it cannot be.
pub open spec fn entry_facts(entry: JsonValue, source_object: Seq<char>, order: nat) -> Result<PropertyFacts, Seq<char>> {
    match entry.member("flowProperty"@) {
        Some(property) => if property is Object {
            let uuid = nonblank(
                match first_member(property, "@id"@, "@refObjectId"@) {
                    Some(v) => v.text(),
                    None => None,
                },
            );
            let name = nonblank(localized_text(first_member(property, "name"@, "common:shortDescription"@)));
            let factor = factor_text(first_member(entry, "conversionFactor"@, "meanValue"@));
            match (uuid, name, factor) {
                (None, _, _) => Err("missing flow-property UUID"@),
                (Some(_), None, _) => Err("missing flow-property name"@),
                (Some(_), Some(_), None) => Err("missing or non-decimal conversion factor"@),
                (Some(u), Some(n), Some(f)) => Ok(
                    PropertyFacts {
                        uuid: u,
                        name: n,
                        version: match first_member(property, "@version"@, "version"@) {
                            Some(v) => v.text(),
                            None => None,
                        },
                        factor: f,
                        is_reference: first_member(entry, "isRefFlowProperty"@, "isReference"@) == Some(
                            JsonValue::Bool(true),
                        ),
                        source_order: order,
                        evidence: match entry.member("sourceEvidence"@) {
                            Some(e) => data(e),
                            None => order_evidence(source_object, order),
                        },
                    },
                ),
            }
        } else {
            Err("missing flowProperty object"@)
        },
        None => Err("missing flowProperty object"@),
    }
}

/// The entries from position `start` on, read in order; the first entry that
/// cannot be read, with its position, where there is one.
pub open spec fn parsed_entries(entries: Seq<JsonValue>, source_object: Seq<char>, start: nat) -> Result<
    Seq<PropertyFacts>,
    (nat, Seq<char>),
>
    decreases entries.len(),
{
    if entries.len() == 0 {
        Ok(Seq::empty())
    } else {
        match entry_facts(entries[0], source_object, start) {
            Err(reason) => Err((start, reason)),
            Ok(f) => match parsed_entries(entries.drop_first(), source_object, start + 1) {
                Ok(rest) => Ok(seq![f] + rest),
                Err(e) => Err(e),
            },
        }
    }
}

/// The one property of a flow that gives none: named after the flow's unit
/// where it has one.
pub open spec fn legacy_facts(raw: JsonValue) -> PropertyFacts {
    let unit = nonblank(raw.member_text("unitName"@));
    PropertyFacts {
        uuid: match raw.member_text("flowPropertyRefId"@) {
            Some(t) => t,
            None => match unit {
                Some(u) => uuid_v5_url(vstd::utf8::encode_utf8("tidas-tools/import/flowproperty/"@ + u)),
                None => uuid_v5_url(vstd::utf8::encode_utf8("tidas-tools/import/default-flow-property"@)),
            },
        },
        name: match raw.member_text("flowPropertyName"@) {
            Some(t) => t,
            None => match unit {
                Some(u) => "Amount in "@ + u,
                None => "Flow property"@,
            },
        },
        version: None,
        factor: "1"@,
        is_reference: true,
        source_order: 0,
        evidence: JsonData::Object(seq![("referenceDecision"@, JsonData::Text("legacy-single-property-source-contract"@))]),
    }
}

/// The reference properties, in order.
pub open spec fn references(fs: Seq<PropertyFacts>) -> Seq<PropertyFacts>
    decreases fs.len(),
{
    if fs.len() == 0 {
        Seq::empty()
    } else if fs.last().is_reference {
        references(fs.drop_last()).push(fs.last())
    } else {
        references(fs.drop_last())
    }
}

/// The other properties, in order.
pub open spec fn others(fs: Seq<PropertyFacts>) -> Seq<PropertyFacts>
    decreases fs.len(),
{
    if fs.len() == 0 {
        Seq::empty()
    } else if fs.last().is_reference {
        others(fs.drop_last())
    } else {
        others(fs.drop_last()).push(fs.last())
    }
}

/// Why the flow properties of a flow were refused.
pub enum PropertyRefusal {
    /// The entry at a position could not be read, and why.
    Invalid(nat, Seq<char>),
    /// The number of reference properties, where it is not one.
    Cardinality(nat),
}

/// The flow properties of a flow: its `flowProperties` entries, read in order
/// (the first that cannot be read refuses the flow), or the legacy single
/// property where there are none. A single property that is not marked
/// becomes the reference; otherwise exactly one must be marked. The reference
/// property comes first, the others keep their order.
pub open spec fn flow_properties_of(raw: JsonValue, source_object: Seq<char>) -> Result<Seq<PropertyFacts>, PropertyRefusal> {
    let parsed = match raw.member("flowProperties"@) {
        Some(JsonValue::Array(items)) => parsed_entries(items@, source_object, 0),
        _ => Ok(Seq::empty()),
    };
    match parsed {
        Err((i, reason)) => Err(PropertyRefusal::Invalid(i, reason)),
        Ok(fs) => {
            let all = if fs.len() == 0 {
                seq![legacy_facts(raw)]
            } else {
                fs
            };
            let n = references(all).len();
            if all.len() == 1 && n == 0 {
                Ok(
                    seq![PropertyFacts {
                        is_reference: true,
                        evidence: JsonData::Object(seq![
                            ("referenceDecision"@, JsonData::Text("single-property-source-contract"@)),
                            ("source"@, all[0].evidence),
                        ]),
                        ..all[0]
                    }],
                )
            } else if n != 1 {
                Err(PropertyRefusal::Cardinality(n))
            } else {
                Ok(references(all) + others(all))
            }
        },
    }
}

impl CanonicalFlowPropertyAssignment {
    /// A deep copy.
    pub fn duplicate(&self) -> (r: Self)
        ensures
            facts(r) == facts(*self),
    {
        CanonicalFlowPropertyAssignment {
            flow_property_uuid: self.flow_property_uuid.clone(),
            flow_property_name: self.flow_property_name.clone(),
            version: match &self.version {
                Some(v) => Some(v.clone()),
                None => None,
            },
            conversion_factor: self.conversion_factor.clone(),
            is_reference: self.is_reference,
            source_order: self.source_order,
            source_evidence: self.source_evidence.duplicate(),
        }
    }
}

fn first_member_of<'a>(v: &'a JsonValue, a: &str, b: &str) -> (r: Option<&'a JsonValue>)
    ensures
        deref_opt(r) == first_member(*v, a@, b@),
{
    match v.get(a) {
        Some(x) => Some(x),
        None => v.get(b),
    }
}

fn nonblank_of(t: Option<&str>) -> (r: Option<String>)
    ensures
        opt_view(r) == nonblank(opt_str(t)),
{
    match t {
        Some(s) => {
            let v = trim_str(s);
            if v.as_str().is_empty() {
                None
            } else {
                Some(v)
            }
        },
        None => None,
    }
}

pub(crate) fn text_of(v: Option<&JsonValue>) -> (r: Option<&str>)
    ensures
        opt_str(r) == match deref_opt(v) {
            Some(x) => x.text(),
            None => None,
        },
{
    match v {
        Some(x) => x.as_str(),
        None => None,
    }
}

pub(crate) fn localized_of(v: Option<&JsonValue>) -> (r: Option<&str>)
    ensures
        opt_str(r) == localized_text(deref_opt(v)),
{
    match v {
        Some(x) => match x.as_str() {
            Some(t) => Some(t),
            None => x.get_str("#text"),
        },
        None => None,
    }
}

fn factor_of(v: Option<&JsonValue>) -> (r: Option<String>)
    ensures
        opt_view(r) == factor_text(deref_opt(v)),
{
    match v {
        Some(JsonValue::String(s)) => {
            let t = trim_str(s.as_str());
            if decimal_parses(t.as_str()) {
                Some(t)
            } else {
                None
            }
        },
        Some(JsonValue::Number(n)) => Some(n.clone()),
        _ => None,
    }
}

/// A JSON object of members, in order.
fn object(members: Vec<(String, JsonValue)>) -> (r: JsonValue)
    ensures
        r == JsonValue::Object(members),
        data(r) == JsonData::Object(data_members(members@)),
{
    JsonValue::Object(members)
}

fn order_evidence_value(source_object: &str, order: usize) -> (r: JsonValue)
    ensures
        data(r) == order_evidence(source_object@, order as nat),
{
    let mut m: Vec<(String, JsonValue)> = Vec::new();
    m.push((owned("sourceObject"), JsonValue::String(owned(source_object))));
    m.push((owned("sourceOrder"), JsonValue::Number(decimal_string(order as u64))));
    proof {
        lemma_data_members(m@);
        assert(data_members(m@) =~= order_evidence(source_object@, order as nat)->Object_0);
    }
    object(m)
}

/// Reads one entry (see `entry_facts`).
fn parse_entry(flow_id: &str, source_object: &str, order: usize, entry: &JsonValue) -> (r: Result<
    CanonicalFlowPropertyAssignment,
    FlowNormalizationError,
>)
    ensures
        match entry_facts(*entry, source_object@, order as nat) {
            Ok(f) => r matches Ok(a) && facts(a) == f,
            Err(reason) => r matches Err(FlowNormalizationError::InvalidFlowProperty { flow_id: fi, source_object: o, source_order: n, reason: rs })
                && fi@ == flow_id@ && o@ == source_object@ && n == order && rs@ == reason,
        },
{
    let property = match entry.get("flowProperty") {
        Some(p) => p,
        None => {
            return Err(invalid(flow_id, source_object, order, "missing flowProperty object"));
        },
    };
    if property.as_object().is_none() {
        return Err(invalid(flow_id, source_object, order, "missing flowProperty object"));
    }
    let uuid = match nonblank_of(text_of(first_member_of(property, "@id", "@refObjectId"))) {
        Some(u) => u,
        None => {
            return Err(invalid(flow_id, source_object, order, "missing flow-property UUID"));
        },
    };
    let name = match nonblank_of(localized_of(first_member_of(property, "name", "common:shortDescription"))) {
        Some(n) => n,
        None => {
            return Err(invalid(flow_id, source_object, order, "missing flow-property name"));
        },
    };
    let factor = match factor_of(first_member_of(entry, "conversionFactor", "meanValue")) {
        Some(f) => f,
        None => {
            return Err(invalid(flow_id, source_object, order, "missing or non-decimal conversion factor"));
        },
    };
    let version = match text_of(first_member_of(property, "@version", "version")) {
        Some(v) => Some(owned(v)),
        None => None,
    };
    let is_reference = match first_member_of(entry, "isRefFlowProperty", "isReference") {
        Some(JsonValue::Bool(b)) => *b,
        _ => false,
    };
    let source_evidence = match entry.get("sourceEvidence") {
        Some(e) => e.duplicate(),
        None => order_evidence_value(source_object, order),
    };
    Ok(
        CanonicalFlowPropertyAssignment {
            flow_property_uuid: uuid,
            flow_property_name: name,
            version,
            conversion_factor: factor,
            is_reference,
            source_order: order,
            source_evidence,
        },
    )
}

fn invalid(flow_id: &str, source_object: &str, order: usize, reason: &'static str) -> (r: FlowNormalizationError)
    ensures
        r matches FlowNormalizationError::InvalidFlowProperty { flow_id: fi, source_object: o, source_order: n, reason: rs }
            && fi@ == flow_id@ && o@ == source_object@ && n == order && rs@ == reason@,
{
    FlowNormalizationError::InvalidFlowProperty {
        flow_id: owned(flow_id),
        source_object: owned(source_object),
        source_order: order,
        reason,
    }
}

/// The legacy single property (see `legacy_facts`).
fn legacy_property(raw: &JsonValue) -> (r: CanonicalFlowPropertyAssignment)
    ensures
        facts(r) == legacy_facts(*raw),
{
    let unit = nonblank_of(raw.get_str("unitName"));
    let uuid = match raw.get_str("flowPropertyRefId") {
        Some(t) => owned(t),
        None => match &unit {
            Some(u) => {
                let seed = concat("tidas-tools/import/flowproperty/", u.as_str());
                stable_id(seed.as_str())
            },
            None => stable_id("tidas-tools/import/default-flow-property"),
        },
    };
    let name = match raw.get_str("flowPropertyName") {
        Some(t) => owned(t),
        None => match &unit {
            Some(u) => concat("Amount in ", u.as_str()),
            None => owned("Flow property"),
        },
    };
    let mut m: Vec<(String, JsonValue)> = Vec::new();
    m.push((owned("referenceDecision"), JsonValue::String(owned("legacy-single-property-source-contract"))));
    proof {
        lemma_data_members(m@);
        assert(data_members(m@) =~= legacy_facts(*raw).evidence->Object_0);
    }
    CanonicalFlowPropertyAssignment {
        flow_property_uuid: uuid,
        flow_property_name: name,
        version: None,
        conversion_factor: owned("1"),
        is_reference: true,
        source_order: 0,
        source_evidence: object(m),
    }
}

proof fn lemma_facts_push(v: Seq<CanonicalFlowPropertyAssignment>, a: CanonicalFlowPropertyAssignment)
    ensures
        all_facts(v.push(a)) == all_facts(v).push(facts(a)),
{
    assert(all_facts(v.push(a)) =~= all_facts(v).push(facts(a)));
}

/// The flow properties of a flow (see `flow_properties_of`); a refusal names
/// the flow and where it came from.
pub fn normalize_flow_properties(entity: &CanonicalEntity, source_object: &str) -> (r: Result<
    Vec<CanonicalFlowPropertyAssignment>,
    FlowNormalizationError,
>)
    ensures
        match flow_properties_of(entity.raw, source_object@) {
            Ok(fs) => r matches Ok(v) && all_facts(v@) == fs,
            Err(PropertyRefusal::Invalid(i, reason)) => r matches Err(FlowNormalizationError::InvalidFlowProperty { flow_id: fi, source_object: o, source_order: n, reason: rs })
                && fi@ == entity.internal_id@ && o@ == source_object@ && n == i && rs@ == reason,
            Err(PropertyRefusal::Cardinality(count)) => r matches Err(FlowNormalizationError::ReferencePropertyCardinality { flow_id: fi, source_object: o, count: n })
                && fi@ == entity.internal_id@ && o@ == source_object@ && n == count,
        },
{
    let mut out: Vec<CanonicalFlowPropertyAssignment> = Vec::new();
    let ghost parsed = match entity.raw.member("flowProperties"@) {
        Some(JsonValue::Array(items)) => parsed_entries(items@, source_object@, 0),
        _ => Ok(Seq::<PropertyFacts>::empty()),
    };
    match entity.raw.get("flowProperties") {
        Some(JsonValue::Array(items)) => {
            let mut i: usize = 0;
            assert(items@.subrange(0, items@.len() as int) =~= items@);
            while i < items.len()
                invariant
                    i <= items@.len(),
                    parsed == parsed_entries(items@, source_object@, 0),
                    entity.raw.member("flowProperties"@) == Some(JsonValue::Array(*items)),
                    parsed == match parsed_entries(items@.subrange(i as int, items@.len() as int), source_object@, i as nat) {
                        Ok(rest) => Ok(all_facts(out@) + rest),
                        Err(e) => Err(e),
                    },
                decreases items@.len() - i,
            {
                let ghost sub = items@.subrange(i as int, items@.len() as int);
                assert(sub[0] == items@[i as int]);
                assert(sub.drop_first() =~= items@.subrange(i + 1, items@.len() as int));
                match parse_entry(entity.internal_id.as_str(), source_object, i, &items[i]) {
                    Ok(a) => {
                        let ghost f = facts(a);
                        let ghost before = all_facts(out@);
                        let ghost prev = out@;
                        let ghost av = a;
                        out.push(a);
                        proof {
                            lemma_facts_push(prev, av);
                            match parsed_entries(items@.subrange(i + 1, items@.len() as int), source_object@, (i + 1) as nat) {
                                Ok(rest) => {
                                    assert(before + (seq![f] + rest) =~= all_facts(out@) + rest);
                                },
                                Err(e) => {},
                            }
                        }
                    },
                    Err(e) => {
                        proof {
                            let ef = entry_facts(items@[i as int], source_object@, i as nat);
                            assert(ef is Err);
                            assert(parsed == Err::<Seq<PropertyFacts>, (nat, Seq<char>)>((i as nat, ef->Err_0)));
                        }
                        return Err(e);
                    },
                }
                i = i + 1;
            }
            assert(items@.subrange(items@.len() as int, items@.len() as int) =~= Seq::<JsonValue>::empty());
            assert(all_facts(out@) + Seq::<PropertyFacts>::empty() =~= all_facts(out@));
        },
        _ => {
            assert(all_facts(out@) =~= Seq::<PropertyFacts>::empty());
        },
    }
    assert(parsed == Ok::<Seq<PropertyFacts>, (nat, Seq<char>)>(all_facts(out@)));
    if out.len() == 0 {
        out.push(legacy_property(&entity.raw));
        assert(all_facts(out@) =~= seq![legacy_facts(entity.raw)]);
    }
    let ghost all = all_facts(out@);
    let mut count: usize = 0;
    let mut i: usize = 0;
    while i < out.len()
        invariant
            i <= out@.len(),
            all == all_facts(out@),
            count == references(all.subrange(0, i as int)).len(),
            count <= i,
        decreases out@.len() - i,
    {
        let ghost sub = all.subrange(0, i + 1);
        assert(sub.drop_last() =~= all.subrange(0, i as int));
        assert(sub.last() == facts(out@[i as int]));
        if out[i].is_reference {
            count = count + 1;
        }
        i = i + 1;
    }
    assert(all.subrange(0, all.len() as int) =~= all);
    if out.len() == 1 && count == 0 {
        let a = out.pop().unwrap();
        let mut m: Vec<(String, JsonValue)> = Vec::new();
        m.push((owned("referenceDecision"), JsonValue::String(owned("single-property-source-contract"))));
        m.push((owned("source"), a.source_evidence));
        proof {
            lemma_data_members(m@);
            assert(data_members(m@) =~= seq![
                ("referenceDecision"@, JsonData::Text("single-property-source-contract"@)),
                ("source"@, all[0].evidence),
            ]);
        }
        let single = CanonicalFlowPropertyAssignment {
            flow_property_uuid: a.flow_property_uuid,
            flow_property_name: a.flow_property_name,
            version: a.version,
            conversion_factor: a.conversion_factor,
            is_reference: true,
            source_order: a.source_order,
            source_evidence: object(m),
        };
        let mut v: Vec<CanonicalFlowPropertyAssignment> = Vec::new();
        v.push(single);
        proof {
            assert(all_facts(v@) =~= seq![facts(single)]);
        }
        return Ok(v);
    }
    if count != 1 {
        return Err(
            FlowNormalizationError::ReferencePropertyCardinality {
                flow_id: entity.internal_id.clone(),
                source_object: owned(source_object),
                count,
            },
        );
    }
    let mut firsts: Vec<CanonicalFlowPropertyAssignment> = Vec::new();
    let mut rests: Vec<CanonicalFlowPropertyAssignment> = Vec::new();
    let mut i: usize = 0;
    while i < out.len()
        invariant
            i <= out@.len(),
            all == all_facts(out@),
            all_facts(firsts@) == references(all.subrange(0, i as int)),
            all_facts(rests@) == others(all.subrange(0, i as int)),
        decreases out@.len() - i,
    {
        let ghost sub = all.subrange(0, i + 1);
        assert(sub.drop_last() =~= all.subrange(0, i as int));
        assert(sub.last() == facts(out@[i as int]));
        let a = out[i].duplicate();
        if a.is_reference {
            proof {
                lemma_facts_push(firsts@, a);
            }
            firsts.push(a);
        } else {
            proof {
                lemma_facts_push(rests@, a);
            }
            rests.push(a);
        }
        i = i + 1;
    }
    let ghost f0 = firsts@;
    let ghost r0 = rests@;
    firsts.append(&mut rests);
    proof {
        assert(firsts@ == f0 + r0);
        assert(all_facts(f0 + r0) =~= all_facts(f0) + all_facts(r0));
    }
    Ok(firsts)
}

} // verus!
