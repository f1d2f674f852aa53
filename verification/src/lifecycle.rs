//! The life cycle model dataset written for an imported model: its process
//! instances, numbered by their place in the model, and the connections from
//! each provider to its consumers, grouped by flow.
use vstd::prelude::*;
use vstd::string::StringSliceAdditionalSpecFns;

use crate::json::{JsonData, JsonValue, data, data_items, data_members, lemma_data_members};
use crate::model::CanonicalEntity;
use crate::openlca::{lemma_data_items_push, or_null};
use crate::sorted::{ascending, ascending_list, insert_text, lemma_ascending_unique, texts};
use crate::text::{decimal, decimal_string, owned, str_eq};
use crate::writers::{
    CONTACT_NAME, DEFAULT_VERSION, administrative, administrative_json, compliance_declarations,
    compliance_json, contact_id, dataset_ref, dataset_ref_json, import_trace, import_trace_json,
    localized, localized_json, name_parts, name_parts_json, text_value, uuid_v5_url,
};

verus! {

/// The items of an array member of the entity's source fields.
pub open spec fn raw_array(e: CanonicalEntity, key: Seq<char>) -> Seq<JsonValue> {
    match e.raw.member(key) {
        Some(JsonValue::Array(items)) => items@,
        _ => Seq::empty(),
    }
}

/// The last place of a process reference with id `id`.
pub open spec fn last_ref(refs: Seq<JsonValue>, id: Seq<char>) -> Option<int>
    decreases refs.len(),
{
    if refs.len() == 0 {
        None
    } else if refs.last().member_text("id"@) == Some(id) {
        Some(refs.len() - 1)
    } else {
        last_ref(refs.drop_last(), id)
    }
}

pub proof fn lemma_last_ref_range(refs: Seq<JsonValue>, id: Seq<char>)
    ensures
        last_ref(refs, id) matches Some(k) ==> 0 <= k < refs.len() && refs[k].member_text("id"@) == Some(id),
    decreases refs.len(),
{
    if refs.len() > 0 {
        lemma_last_ref_range(refs.drop_last(), id);
    }
}

/// The instance number of a process: the place of its last reference,
/// counted from 1.
pub open spec fn instance_of(refs: Seq<JsonValue>, id: Seq<char>) -> Seq<char> {
    match last_ref(refs, id) {
        Some(k) => decimal((k + 1) as nat),
        None => Seq::empty(),
    }
}

pub open spec fn provider(c: JsonValue) -> Seq<char> {
    c.member_text("providerProcessId"@)->0
}

pub open spec fn consumer(c: JsonValue) -> Seq<char> {
    c.member_text("consumerProcessId"@)->0
}

pub open spec fn flow(c: JsonValue) -> Seq<char> {
    c.member_text("flowRefId"@)->0
}

/// A connection between two referenced processes through a flow.
pub open spec fn linked(refs: Seq<JsonValue>, c: JsonValue) -> bool {
    &&& c.member_text("providerProcessId"@) is Some
    &&& c.member_text("consumerProcessId"@) is Some
    &&& c.member_text("flowRefId"@) is Some
    &&& last_ref(refs, provider(c)) is Some
    &&& last_ref(refs, consumer(c)) is Some
}

/// The downstream process that a connection gives its provider.
pub open spec fn downstream_json(refs: Seq<JsonValue>, c: JsonValue) -> JsonData {
    JsonData::Object(seq![
        ("@flowUUID"@, JsonData::Text(flow(c))),
        ("@id"@, JsonData::Text(instance_of(refs, consumer(c)))),
        ("@version"@, JsonData::Text(DEFAULT_VERSION@)),
    ])
}

/// Whether connection `c` links provider `p` to a consumer through flow `f`.
pub open spec fn feeds(refs: Seq<JsonValue>, c: JsonValue, p: Seq<char>, f: Seq<char>) -> bool {
    linked(refs, c) && provider(c) == p && flow(c) == f
}

/// The downstream processes of provider `p` through flow `f`, in connection order.
pub open spec fn downstream(refs: Seq<JsonValue>, conns: Seq<JsonValue>, p: Seq<char>, f: Seq<char>) -> Seq<JsonData>
    decreases conns.len(),
{
    if conns.len() == 0 {
        Seq::empty()
    } else {
        let rest = downstream(refs, conns.drop_last(), p, f);
        if feeds(refs, conns.last(), p, f) {
            rest.push(downstream_json(refs, conns.last()))
        } else {
            rest
        }
    }
}

/// The flows through which `p` provides to a consumer.
pub open spec fn provided_flows(refs: Seq<JsonValue>, conns: Seq<JsonValue>, p: Seq<char>) -> Set<Seq<char>> {
    Set::new(|f: Seq<char>| exists|i: int| 0 <= i < conns.len() && #[trigger] feeds(refs, conns[i], p, f))
}

/// A single item as itself; none or several as an array.
pub open spec fn one_or_many(items: Seq<JsonData>) -> JsonData {
    if items.len() == 1 {
        items[0]
    } else {
        JsonData::Array(items)
    }
}

/// The output exchange of `p` through flow `f`.
pub open spec fn output_json(refs: Seq<JsonValue>, conns: Seq<JsonValue>, p: Seq<char>, f: Seq<char>) -> JsonData {
    JsonData::Object(seq![
        ("@dominant"@, JsonData::Text("true"@)),
        ("@flowUUID"@, JsonData::Text(f)),
        ("@version"@, JsonData::Text(DEFAULT_VERSION@)),
        ("downstreamProcess"@, one_or_many(downstream(refs, conns, p, f))),
    ])
}

/// The output exchanges of `p`, by flow in ascending order.
pub open spec fn outputs(refs: Seq<JsonValue>, conns: Seq<JsonValue>, p: Seq<char>) -> Seq<JsonData> {
    ascending_list(provided_flows(refs, conns, p)).map_values(|f: Seq<char>| output_json(refs, conns, p, f))
}

/// The process instance of a reference with id `p`.
pub open spec fn instance_json(refs: Seq<JsonValue>, conns: Seq<JsonValue>, r: JsonValue) -> JsonData {
    let p = r.member_text("id"@)->0;
    let name = match r.member_text("name"@) {
        Some(n) => n,
        None => "Process"@,
    };
    let outs = outputs(refs, conns, p);
    let trace = import_trace_json(JsonData::Object(seq![
        ("sourceProcessId"@, JsonData::Text(p)),
        ("sourceProcessType"@, or_null(r.member("processType"@))),
    ]));
    let head = seq![
        ("@dataSetInternalID"@, JsonData::Text(instance_of(refs, p))),
        ("@multiplicationFactor"@, JsonData::Text("1"@)),
        ("common:other"@, trace),
    ];
    let tail = seq![("referenceToProcess"@, dataset_ref_json("process data set"@, p, name, "processes"@))];
    JsonData::Object(if outs.len() == 0 {
        head + tail
    } else {
        head + seq![("connections"@, JsonData::Object(seq![("outputExchange"@, one_or_many(outs))]))] + tail
    })
}

/// The instances of the references that have an id, in order.
pub open spec fn instances(refs: Seq<JsonValue>, conns: Seq<JsonValue>, rs: Seq<JsonValue>) -> Seq<JsonData>
    decreases rs.len(),
{
    if rs.len() == 0 {
        Seq::empty()
    } else {
        let rest = instances(refs, conns, rs.drop_last());
        if rs.last().member_text("id"@) is Some {
            rest.push(instance_json(refs, conns, rs.last()))
        } else {
            rest
        }
    }
}

/// The instance number of the reference process: that of the process named
/// by `referenceProcessId`, else 1.
pub open spec fn reference_number(e: CanonicalEntity) -> Seq<char> {
    match e.raw.member_text("referenceProcessId"@) {
        Some(id) => match last_ref(raw_array(e, "processRefs"@), id) {
            Some(k) => decimal((k + 1) as nat),
            None => "1"@,
        },
        None => "1"@,
    }
}

pub open spec fn class_json(level: Seq<char>, id: Seq<char>, text: Seq<char>) -> JsonData {
    JsonData::Object(seq![
        ("#text"@, JsonData::Text(text)),
        ("@classId"@, JsonData::Text(id)),
        ("@level"@, JsonData::Text(level)),
    ])
}

/// The classification every imported model gets: membership organizations
/// in ISIC rev.4.
pub open spec fn default_classification_json() -> JsonData {
    JsonData::Object(seq![("common:classification"@, JsonData::Object(seq![
        ("@name"@, JsonData::Text("ISIC rev.4"@)),
        ("common:class"@, JsonData::Array(seq![
            class_json("0"@, "T"@, "Other service activities"@),
            class_json("1"@, "94"@, "Activities of membership organizations"@),
            class_json("2"@, "949"@, "Activities of other membership organizations"@),
            class_json("3"@, "9499"@, "Activities of other membership organizations n.e.c."@),
        ])),
    ]))])
}

/// The dataset information of a model.
pub open spec fn model_information(e: CanonicalEntity) -> Seq<(Seq<char>, JsonData)> {
    let name = match e.name {
        Some(n) => n@,
        None => "Life cycle model"@,
    };
    let description = match e.raw.member_text("description"@) {
        Some(d) => d,
        None => "Converted from external LCA package"@,
    };
    let head = seq![
        ("classificationInformation"@, default_classification_json()),
        ("common:UUID"@, JsonData::Text(e.internal_id@)),
        ("common:generalComment"@, localized_json(description)),
    ];
    let tail = seq![("name"@, name_parts_json(name, "GLO"@))];
    match e.raw.member("sourceTrace"@) {
        Some(t) => head + seq![("common:other"@, import_trace_json(data(t)))] + tail,
        None => head + tail,
    }
}

/// The life cycle model dataset of an imported model entity.
pub open spec fn lifecycle_json(e: CanonicalEntity) -> JsonData {
    let refs = raw_array(e, "processRefs"@);
    let conns = raw_array(e, "connections"@);
    let owner = dataset_ref_json("contact data set"@, uuid_v5_url("tidas-tools/import/contact".spec_bytes()),
        CONTACT_NAME@, "contacts"@);
    let admin = administrative_json("lifecyclemodels"@, e.internal_id@, true);
    JsonData::Object(seq![("lifeCycleModelDataSet"@, JsonData::Object(seq![
        ("@locations"@, JsonData::Text("../ILCDLocations.xml"@)),
        ("@version"@, JsonData::Text("1.1"@)),
        ("@xmlns"@, JsonData::Text("http://eplca.jrc.ec.europa.eu/ILCD/LifeCycleModel/2017"@)),
        ("@xmlns:acme"@, JsonData::Text("http://acme.com/custom"@)),
        ("@xmlns:common"@, JsonData::Text("http://lca.jrc.it/ILCD/Common"@)),
        ("@xmlns:xsi"@, JsonData::Text("http://www.w3.org/2001/XMLSchema-instance"@)),
        ("@xsi:schemaLocation"@, JsonData::Text(
            "http://eplca.jrc.ec.europa.eu/ILCD/LifeCycleModel/2017 ../../schemas/ILCD_LifeCycleModelDataSet.xsd"@,
        )),
        ("administrativeInformation"@, JsonData::Object(seq![
            ("common:commissionerAndGoal"@, JsonData::Object(seq![
                ("common:intendedApplications"@, localized_json("Converted from external LCA package"@)),
                ("common:referenceToCommissioner"@, owner),
            ])),
            ("dataEntryBy"@, admin->Object_0[0].1),
            ("publicationAndOwnership"@, admin->Object_0[1].1),
        ])),
        ("lifeCycleModelInformation"@, JsonData::Object(seq![
            ("dataSetInformation"@, JsonData::Object(model_information(e))),
            ("quantitativeReference"@, JsonData::Object(seq![
                ("referenceToReferenceProcess"@, JsonData::Number(reference_number(e))),
            ])),
            ("technology"@, JsonData::Object(seq![("processes"@, JsonData::Object(seq![
                ("processInstance"@, JsonData::Array(instances(refs, conns, refs))),
            ]))])),
        ])),
        ("modellingAndValidation"@, JsonData::Object(seq![
            ("complianceDeclarations"@, compliance_json(true)),
            ("validation"@, JsonData::Object(seq![("review"@, JsonData::Object(seq![
                ("common:otherReviewDetails"@, localized_json("Source review state not declared"@)),
                ("common:referenceToNameOfReviewerAndInstitution"@, owner),
            ]))])),
        ])),
    ]))])
}

// ---------------------------------------------------------------------------
// Building the dataset
// ---------------------------------------------------------------------------

/// The last place of a process reference with `id` (see `last_ref`).
fn last_ref_of(refs: &Vec<JsonValue>, id: &str) -> (r: Option<usize>)
    ensures
        match r {
            Some(k) => last_ref(refs@, id@) == Some(k as int),
            None => last_ref(refs@, id@) is None,
        },
{
    let mut i: usize = refs.len();
    assert(refs@.subrange(0, i as int) =~= refs@);
    while i > 0
        invariant
            i <= refs@.len(),
            last_ref(refs@, id@) == last_ref(refs@.subrange(0, i as int), id@),
        decreases i,
    {
        let ghost sub = refs@.subrange(0, i as int);
        assert(sub.last() == refs@[i - 1]);
        let hit = match refs[i - 1].get_str("id") {
            Some(t) => str_eq(t, id),
            None => false,
        };
        if hit {
            return Some(i - 1);
        }
        assert(sub.drop_last() =~= refs@.subrange(0, i - 1));
        i = i - 1;
    }
    None
}

/// The parts of a connection between two referenced processes: provider,
/// consumer, flow and the consumer's last reference.
fn link_parts<'a>(refs: &Vec<JsonValue>, c: &'a JsonValue) -> (r: Option<(&'a str, &'a str, &'a str, usize)>)
    ensures
        r is Some <==> linked(refs@, *c),
        r matches Some(t) ==> t.0@ == provider(*c) && t.1@ == consumer(*c) && t.2@ == flow(*c)
            && last_ref(refs@, consumer(*c)) == Some(t.3 as int),
{
    let p = match c.get_str("providerProcessId") {
        Some(p) => p,
        None => {
            return None;
        },
    };
    let q = match c.get_str("consumerProcessId") {
        Some(q) => q,
        None => {
            return None;
        },
    };
    let f = match c.get_str("flowRefId") {
        Some(f) => f,
        None => {
            return None;
        },
    };
    if last_ref_of(refs, p).is_none() {
        return None;
    }
    match last_ref_of(refs, q) {
        Some(k) => Some((p, q, f, k)),
        None => None,
    }
}

/// The downstream processes of `p` through `f` (see `downstream`).
fn downstream_of(refs: &Vec<JsonValue>, conns: &Vec<JsonValue>, p: &str, f: &str) -> (r: Vec<JsonValue>)
    requires
        refs@.len() < usize::MAX,
    ensures
        data_items(r@) == downstream(refs@, conns@, p@, f@),
{
    let mut out: Vec<JsonValue> = Vec::new();
    let mut i: usize = 0;
    assert(conns@.subrange(0, 0) =~= Seq::<JsonValue>::empty());
    while i < conns.len()
        invariant
            i <= conns@.len(),
            refs@.len() < usize::MAX,
            data_items(out@) == downstream(refs@, conns@.subrange(0, i as int), p@, f@),
        decreases conns@.len() - i,
    {
        let c = &conns[i];
        match link_parts(refs, c) {
            Some((cp, _cq, cf, k)) => {
                if str_eq(cp, p) && str_eq(cf, f) {
                    proof {
                        lemma_last_ref_range(refs@, consumer(*c));
                    }
                    let mut m: Vec<(String, JsonValue)> = Vec::new();
                    m.push((owned("@flowUUID"), text_value(cf)));
                    m.push((owned("@id"), JsonValue::String(decimal_string((k + 1) as u64))));
                    m.push((owned("@version"), text_value(DEFAULT_VERSION)));
                    proof {
                        lemma_data_members(m@);
                        assert(data_members(m@) =~= downstream_json(refs@, *c)->Object_0);
                    }
                    let entry = JsonValue::Object(m);
                    let ghost prev = out@;
                    out.push(entry);
                    proof {
                        lemma_data_items_push(prev, entry);
                    }
                }
            },
            None => {},
        }
        i = i + 1;
        proof {
            let sub = conns@.subrange(0, i as int);
            assert(sub.drop_last() =~= conns@.subrange(0, i - 1));
            assert(sub.last() == conns@[i - 1]);
        }
    }
    assert(conns@.subrange(0, conns@.len() as int) =~= conns@);
    out
}

/// The flows through which `p` provides, ascending (see `provided_flows`).
fn flows_of(refs: &Vec<JsonValue>, conns: &Vec<JsonValue>, p: &str) -> (r: Vec<String>)
    ensures
        ascending(texts(r@)),
        texts(r@).to_set() == provided_flows(refs@, conns@, p@),
{
    let mut out: Vec<String> = Vec::new();
    let mut i: usize = 0;
    assert(texts(out@).to_set() =~= Set::new(|f: Seq<char>| exists|j: int| 0 <= j < 0 && #[trigger] feeds(refs@, conns@[j], p@, f)));
    while i < conns.len()
        invariant
            i <= conns@.len(),
            ascending(texts(out@)),
            texts(out@).to_set() == Set::new(|f: Seq<char>| exists|j: int| 0 <= j < i && #[trigger] feeds(refs@, conns@[j], p@, f)),
        decreases conns@.len() - i,
    {
        let ghost before = texts(out@).to_set();
        let c = &conns[i];
        match link_parts(refs, c) {
            Some((cp, _cq, cf, _k)) => {
                if str_eq(cp, p) {
                    insert_text(&mut out, owned(cf));
                    assert(feeds(refs@, conns@[i as int], p@, cf@));
                }
            },
            None => {},
        }
        proof {
            let now = Set::new(|f: Seq<char>| exists|j: int| 0 <= j < i + 1 && #[trigger] feeds(refs@, conns@[j], p@, f));
            assert forall|f: Seq<char>| #![trigger now.contains(f)] texts(out@).to_set().contains(f) == now.contains(f) by {
                if feeds(refs@, conns@[i as int], p@, f) {
                    assert(flow(conns@[i as int]) == f);
                }
                if now.contains(f) {
                    let j = choose|j: int| 0 <= j < i + 1 && #[trigger] feeds(refs@, conns@[j], p@, f);
                    if j < i {
                        assert(before.contains(f));
                    }
                }
            }
            assert(texts(out@).to_set() =~= now);
        }
        i = i + 1;
    }
    assert(texts(out@).to_set() =~= provided_flows(refs@, conns@, p@));
    out
}

/// A single item as itself, none or several as an array (see `one_or_many`).
fn one_or_many_of(items: Vec<JsonValue>) -> (r: JsonValue)
    ensures
        data(r) == one_or_many(data_items(items@)),
{
    proof {
        crate::json::lemma_data_items(items@);
    }
    let mut v = items;
    if v.len() == 1 {
        let ghost whole = v@;
        let x = v.pop().unwrap();
        assert(x == whole[0]);
        x
    } else {
        JsonValue::Array(v)
    }
}

/// The output exchange of `p` through `f` (see `output_json`).
fn output_of(refs: &Vec<JsonValue>, conns: &Vec<JsonValue>, p: &str, f: &str) -> (r: JsonValue)
    requires
        refs@.len() < usize::MAX,
    ensures
        data(r) == output_json(refs@, conns@, p@, f@),
{
    let down = downstream_of(refs, conns, p, f);
    let mut m: Vec<(String, JsonValue)> = Vec::new();
    m.push((owned("@dominant"), text_value("true")));
    m.push((owned("@flowUUID"), text_value(f)));
    m.push((owned("@version"), text_value(DEFAULT_VERSION)));
    m.push((owned("downstreamProcess"), one_or_many_of(down)));
    proof {
        lemma_data_members(m@);
        assert(data_members(m@) =~= output_json(refs@, conns@, p@, f@)->Object_0);
    }
    JsonValue::Object(m)
}

/// The output exchanges of `p` (see `outputs`).
fn outputs_of(refs: &Vec<JsonValue>, conns: &Vec<JsonValue>, p: &str) -> (r: Vec<JsonValue>)
    requires
        refs@.len() < usize::MAX,
    ensures
        data_items(r@) == outputs(refs@, conns@, p@),
{
    let flows = flows_of(refs, conns, p);
    let ghost fs = texts(flows@);
    proof {
        let s = provided_flows(refs@, conns@, p@);
        assert(ascending(fs) && fs.to_set() == s);
        let l = ascending_list(s);
        assert(ascending(l) && l.to_set() == s);
        lemma_ascending_unique(l, fs);
    }
    let mut out: Vec<JsonValue> = Vec::new();
    let mut i: usize = 0;
    while i < flows.len()
        invariant
            i <= flows@.len(),
            refs@.len() < usize::MAX,
            fs == texts(flows@),
            data_items(out@) == fs.subrange(0, i as int).map_values(|f: Seq<char>| output_json(refs@, conns@, p@, f)),
        decreases flows@.len() - i,
    {
        let o = output_of(refs, conns, p, flows[i].as_str());
        let ghost prev = out@;
        out.push(o);
        proof {
            lemma_data_items_push(prev, o);
            assert(fs[i as int] == flows@[i as int]@);
        }
        i = i + 1;
        assert(fs.subrange(0, i as int).map_values(|f: Seq<char>| output_json(refs@, conns@, p@, f)) =~= fs.subrange(
            0,
            i - 1,
        ).map_values(|f: Seq<char>| output_json(refs@, conns@, p@, f)).push(output_json(refs@, conns@, p@, fs[i - 1])));
    }
    assert(fs.subrange(0, fs.len() as int) =~= fs);
    out
}

/// The process instance of a reference that has an id (see `instance_json`).
fn instance_of_ref(refs: &Vec<JsonValue>, conns: &Vec<JsonValue>, r: &JsonValue) -> (x: Option<JsonValue>)
    requires
        refs@.len() < usize::MAX,
    ensures
        x is Some <==> r.member_text("id"@) is Some,
        x matches Some(v) ==> data(v) == instance_json(refs@, conns@, *r),
{
    let p = match r.get_str("id") {
        Some(p) => p,
        None => {
            return None;
        },
    };
    let number = match last_ref_of(refs, p) {
        Some(k) => {
            proof {
                lemma_last_ref_range(refs@, p@);
            }
            decimal_string((k + 1) as u64)
        },
        None => {
            proof {
                reveal_strlit("");
            }
            owned("")
        },
    };
    assert(number@ =~= instance_of(refs@, p@));
    let name = match r.get_str("name") {
        Some(n) => n,
        None => "Process",
    };
    let mut payload: Vec<(String, JsonValue)> = Vec::new();
    payload.push((owned("sourceProcessId"), text_value(p)));
    payload.push((owned("sourceProcessType"), crate::openlca::member_or_null(r, "processType")));
    proof {
        lemma_data_members(payload@);
        assert(data_members(payload@) =~= seq![
            ("sourceProcessId"@, JsonData::Text(p@)),
            ("sourceProcessType"@, or_null(r.member("processType"@))),
        ]);
    }
    let payload = JsonValue::Object(payload);
    let trace = import_trace(&payload);
    let outs = outputs_of(refs, conns, p);
    let ghost want = instance_json(refs@, conns@, *r);
    let has_outputs = outs.len() > 0;
    proof {
        crate::json::lemma_data_items(outs@);
    }
    let mut m: Vec<(String, JsonValue)> = Vec::new();
    m.push((owned("@dataSetInternalID"), JsonValue::String(number)));
    m.push((owned("@multiplicationFactor"), text_value("1")));
    m.push((owned("common:other"), trace));
    if has_outputs {
        let mut c: Vec<(String, JsonValue)> = Vec::new();
        c.push((owned("outputExchange"), one_or_many_of(outs)));
        proof {
            lemma_data_members(c@);
            assert(data_members(c@) =~= seq![("outputExchange"@, one_or_many(outputs(refs@, conns@, p@)))]);
        }
        m.push((owned("connections"), JsonValue::Object(c)));
    }
    m.push((owned("referenceToProcess"), dataset_ref("process data set", p, name, "processes")));
    proof {
        lemma_data_members(m@);
        assert(data_members(m@) =~= want->Object_0);
    }
    Some(JsonValue::Object(m))
}

fn class_entry(level: &str, id: &str, text: &str) -> (r: JsonValue)
    ensures
        data(r) == class_json(level@, id@, text@),
{
    let mut m: Vec<(String, JsonValue)> = Vec::new();
    m.push((owned("#text"), text_value(text)));
    m.push((owned("@classId"), text_value(id)));
    m.push((owned("@level"), text_value(level)));
    proof {
        lemma_data_members(m@);
        assert(data_members(m@) =~= class_json(level@, id@, text@)->Object_0);
    }
    JsonValue::Object(m)
}

fn default_classification() -> (r: JsonValue)
    ensures
        data(r) == default_classification_json(),
{
    let mut classes: Vec<JsonValue> = Vec::new();
    classes.push(class_entry("0", "T", "Other service activities"));
    classes.push(class_entry("1", "94", "Activities of membership organizations"));
    classes.push(class_entry("2", "949", "Activities of other membership organizations"));
    classes.push(class_entry("3", "9499", "Activities of other membership organizations n.e.c."));
    proof {
        crate::json::lemma_data_items(classes@);
    }
    let ghost want = default_classification_json();
    let mut inner: Vec<(String, JsonValue)> = Vec::new();
    inner.push((owned("@name"), text_value("ISIC rev.4")));
    inner.push((owned("common:class"), JsonValue::Array(classes)));
    proof {
        lemma_data_members(inner@);
        assert(data_items(classes@) =~= want->Object_0[0].1->Object_0[1].1->Array_0);
        assert(data_members(inner@) =~= want->Object_0[0].1->Object_0);
    }
    let mut top: Vec<(String, JsonValue)> = Vec::new();
    top.push((owned("common:classification"), JsonValue::Object(inner)));
    proof {
        lemma_data_members(top@);
        assert(data_members(top@) =~= want->Object_0);
    }
    JsonValue::Object(top)
}

/// The items of an array member of an entity's source fields, or none.
fn raw_items<'a>(e: &'a CanonicalEntity, key: &str, empty: &'a Vec<JsonValue>) -> (r: &'a Vec<JsonValue>)
    requires
        empty@.len() == 0,
    ensures
        r@ == raw_array(*e, key@),
{
    match e.raw.get(key) {
        Some(JsonValue::Array(a)) => a,
        _ => {
            assert(empty@ =~= Seq::<JsonValue>::empty());
            empty
        },
    }
}

/// The life cycle model dataset of an imported model (see `lifecycle_json`):
/// each referenced process becomes an instance numbered by the place of its
/// last reference, and each connection between referenced processes an
/// output exchange of its provider.
#[verifier::rlimit(40)]
pub fn lifecycle_model(entity: &CanonicalEntity) -> (r: JsonValue)
    requires
        raw_array(*entity, "processRefs"@).len() < usize::MAX,
    ensures
        data(r) == lifecycle_json(*entity),
{
    let e = entity;
    let none_refs: Vec<JsonValue> = Vec::new();
    let none_conns: Vec<JsonValue> = Vec::new();
    let refs = raw_items(e, "processRefs", &none_refs);
    let conns = raw_items(e, "connections", &none_conns);
    let mut instances_out: Vec<JsonValue> = Vec::new();
    let mut i: usize = 0;
    assert(refs@.subrange(0, 0) =~= Seq::<JsonValue>::empty());
    while i < refs.len()
        invariant
            i <= refs@.len(),
            refs@.len() < usize::MAX,
            data_items(instances_out@) == instances(refs@, conns@, refs@.subrange(0, i as int)),
        decreases refs@.len() - i,
    {
        let ghost prev = instances_out@;
        match instance_of_ref(refs, conns, &refs[i]) {
            Some(x) => {
                instances_out.push(x);
                proof {
                    lemma_data_items_push(prev, x);
                }
            },
            None => {},
        }
        i = i + 1;
        proof {
            let sub = refs@.subrange(0, i as int);
            assert(sub.drop_last() =~= refs@.subrange(0, i - 1));
            assert(sub.last() == refs@[i - 1]);
        }
    }
    assert(refs@.subrange(0, refs@.len() as int) =~= refs@);
    let reference = match e.raw.get_str("referenceProcessId") {
        Some(id) => match last_ref_of(refs, id) {
            Some(k) => {
                proof {
                    lemma_last_ref_range(refs@, id@);
                }
                decimal_string((k + 1) as u64)
            },
            None => owned("1"),
        },
        None => owned("1"),
    };
    assert(reference@ == reference_number(*e));
    let name = match &e.name {
        Some(n) => n.as_str(),
        None => "Life cycle model",
    };
    let description = match e.raw.get_str("description") {
        Some(d) => d,
        None => "Converted from external LCA package",
    };
    let ghost want = lifecycle_json(*e);
    let ghost top = want->Object_0[0].1->Object_0;
    // dataset information
    let mut info: Vec<(String, JsonValue)> = Vec::new();
    info.push((owned("classificationInformation"), default_classification()));
    info.push((owned("common:UUID"), JsonValue::String(e.internal_id.clone())));
    info.push((owned("common:generalComment"), localized(description)));
    match e.raw.get("sourceTrace") {
        Some(t) => {
            info.push((owned("common:other"), import_trace(t)));
        },
        None => {},
    }
    info.push((owned("name"), name_parts(name, "GLO")));
    proof {
        lemma_data_members(info@);
        assert(data_members(info@) =~= model_information(*e));
    }
    let mut quantitative: Vec<(String, JsonValue)> = Vec::new();
    quantitative.push((owned("referenceToReferenceProcess"), JsonValue::Number(reference)));
    let mut processes: Vec<(String, JsonValue)> = Vec::new();
    processes.push((owned("processInstance"), JsonValue::Array(instances_out)));
    let mut technology: Vec<(String, JsonValue)> = Vec::new();
    proof {
        lemma_data_members(quantitative@);
        lemma_data_members(processes@);
        assert(data_members(quantitative@) =~= top[8].1->Object_0[1].1->Object_0);
        assert(data_members(processes@) =~= top[8].1->Object_0[2].1->Object_0[0].1->Object_0);
    }
    technology.push((owned("processes"), JsonValue::Object(processes)));
    proof {
        lemma_data_members(technology@);
        assert(data_members(technology@) =~= top[8].1->Object_0[2].1->Object_0);
    }
    let mut information: Vec<(String, JsonValue)> = Vec::new();
    information.push((owned("dataSetInformation"), JsonValue::Object(info)));
    information.push((owned("quantitativeReference"), JsonValue::Object(quantitative)));
    information.push((owned("technology"), JsonValue::Object(technology)));
    proof {
        lemma_data_members(information@);
        assert(data_members(information@) =~= top[8].1->Object_0);
    }
    // administrative information
    let contact = contact_id();
    let admin = administrative("lifecyclemodels", e.internal_id.as_str(), true);
    let (entry, publication) = match admin {
        JsonValue::Object(mut members) => {
            proof {
                lemma_data_members(members@);
            }
            if members.len() == 2 {
                let p = members.pop().unwrap().1;
                let d = members.pop().unwrap().1;
                (d, p)
            } else {
                (JsonValue::Null, JsonValue::Null)
            }
        },
        _ => (JsonValue::Null, JsonValue::Null),
    };
    assert(data(entry) == administrative_json("lifecyclemodels"@, e.internal_id@, true)->Object_0[0].1);
    assert(data(publication) == administrative_json("lifecyclemodels"@, e.internal_id@, true)->Object_0[1].1);
    let mut goal: Vec<(String, JsonValue)> = Vec::new();
    goal.push((owned("common:intendedApplications"), localized("Converted from external LCA package")));
    goal.push((owned("common:referenceToCommissioner"), dataset_ref("contact data set", contact.as_str(), CONTACT_NAME, "contacts")));
    proof {
        lemma_data_members(goal@);
        assert(data_members(goal@) =~= top[7].1->Object_0[0].1->Object_0);
    }
    let mut administrative_information: Vec<(String, JsonValue)> = Vec::new();
    administrative_information.push((owned("common:commissionerAndGoal"), JsonValue::Object(goal)));
    administrative_information.push((owned("dataEntryBy"), entry));
    administrative_information.push((owned("publicationAndOwnership"), publication));
    proof {
        lemma_data_members(administrative_information@);
        assert(data_members(administrative_information@) =~= top[7].1->Object_0);
    }
    // modelling and validation
    let mut review: Vec<(String, JsonValue)> = Vec::new();
    review.push((owned("common:otherReviewDetails"), localized("Source review state not declared")));
    review.push((owned("common:referenceToNameOfReviewerAndInstitution"), dataset_ref("contact data set",
        contact.as_str(), CONTACT_NAME, "contacts")));
    let mut validation: Vec<(String, JsonValue)> = Vec::new();
    proof {
        lemma_data_members(review@);
        assert(data_members(review@) =~= top[9].1->Object_0[1].1->Object_0[0].1->Object_0);
    }
    validation.push((owned("review"), JsonValue::Object(review)));
    let mut modelling: Vec<(String, JsonValue)> = Vec::new();
    proof {
        lemma_data_members(validation@);
        assert(data_members(validation@) =~= top[9].1->Object_0[1].1->Object_0);
    }
    modelling.push((owned("complianceDeclarations"), compliance_declarations(true)));
    modelling.push((owned("validation"), JsonValue::Object(validation)));
    proof {
        lemma_data_members(modelling@);
        assert(data_members(modelling@) =~= top[9].1->Object_0);
    }
    // the dataset
    let mut dataset: Vec<(String, JsonValue)> = Vec::new();
    dataset.push((owned("@locations"), text_value("../ILCDLocations.xml")));
    dataset.push((owned("@version"), text_value("1.1")));
    dataset.push((owned("@xmlns"), text_value("http://eplca.jrc.ec.europa.eu/ILCD/LifeCycleModel/2017")));
    dataset.push((owned("@xmlns:acme"), text_value("http://acme.com/custom")));
    dataset.push((owned("@xmlns:common"), text_value("http://lca.jrc.it/ILCD/Common")));
    dataset.push((owned("@xmlns:xsi"), text_value("http://www.w3.org/2001/XMLSchema-instance")));
    dataset.push((owned("@xsi:schemaLocation"), text_value(
        "http://eplca.jrc.ec.europa.eu/ILCD/LifeCycleModel/2017 ../../schemas/ILCD_LifeCycleModelDataSet.xsd",
    )));
    dataset.push((owned("administrativeInformation"), JsonValue::Object(administrative_information)));
    dataset.push((owned("lifeCycleModelInformation"), JsonValue::Object(information)));
    dataset.push((owned("modellingAndValidation"), JsonValue::Object(modelling)));
    proof {
        lemma_data_members(dataset@);
        assert(data_members(dataset@) =~= top);
    }
    let mut root: Vec<(String, JsonValue)> = Vec::new();
    root.push((owned("lifeCycleModelDataSet"), JsonValue::Object(dataset)));
    proof {
        lemma_data_members(root@);
        assert(data_members(root@) =~= want->Object_0);
    }
    JsonValue::Object(root)
}

} // verus!
