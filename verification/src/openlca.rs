//! The openLCA JSON-LD rules that derive a candidate life cycle model from the
//! default providers named by process inputs.
use vstd::prelude::*;
use vstd::string::StringSliceAdditionalSpecFns;

use crate::json::{JsonData, JsonValue, data, data_items, data_members};
use crate::model::CanonicalEntity;
use crate::text::{concat, decimal, decimal_string, is_hex_digit, join, join_strings, lower, owned, str_eq};
use crate::writers::{stable_id, uuid_v5_url};

verus! {

/// Hexadecimal digits and hyphens at the places of the 8-4-4-4-12 form.
pub open spec fn hyphenated_hex(s: Seq<char>) -> bool {
    &&& s.len() == 36
    &&& forall|i: int|
        0 <= i < 36 ==> if i == 8 || i == 13 || i == 18 || i == 23 {
            #[trigger] s[i] == '-'
        } else {
            is_hex_digit(s[i])
        }
}

/// The texts that `uuid::Uuid::parse_str` accepts: 32 hexadecimal digits, the
/// hyphenated form, the hyphenated form in braces, or `urn:uuid:` (in any
/// case) before the hyphenated form. Digits may be upper or lower case.
pub open spec fn uuid_text(s: Seq<char>) -> bool {
    ||| (s.len() == 32 && forall|i: int| 0 <= i < 32 ==> is_hex_digit(#[trigger] s[i]))
    ||| hyphenated_hex(s)
    ||| (s.len() == 38 && s[0] == '{' && s[37] == '}' && hyphenated_hex(s.subrange(1, 37)))
    ||| (s.len() == 45 && lower(s.subrange(0, 9)) == "urn:uuid:"@ && hyphenated_hex(s.subrange(9, 45)))
}

/// `uuid::Uuid::parse_str(text).is_ok()`: whether the text is a UUID in one of
/// the forms that the parser accepts (see `uuid_text`).
#[verifier::external_body]
pub(crate) fn parses_as_uuid(text: &str) -> (r: bool)
    ensures
        r == uuid_text(text@),
{
    uuid::Uuid::parse_str(text).is_ok()
}

/// The internal ids of the processes.
pub open spec fn ids_of(ps: Seq<CanonicalEntity>) -> Seq<Seq<char>> {
    ps.map_values(|p: CanonicalEntity| p.internal_id@)
}

/// An exchange that names a default provider among `ids`: an input with a
/// provider id there and a flow id that is a UUID.
pub open spec fn provider_link(ids: Set<Seq<char>>, x: JsonValue) -> bool {
    &&& (x.member_text("providerRefId"@) matches Some(p) && ids.contains(p))
    &&& x.member("isInput"@) == Some(JsonValue::Bool(true))
    &&& (x.member_text("flowRefId"@) matches Some(f) && uuid_text(f))
}

/// A member's value, or `null`.
pub open spec fn or_null(v: Option<JsonValue>) -> JsonData {
    match v {
        Some(x) => data(x),
        None => JsonData::Null,
    }
}

/// The connection that a provider link of `consumer` stands for.
pub open spec fn connection(consumer: Seq<char>, x: JsonValue) -> JsonData {
    JsonData::Object(
        seq![
            ("amount"@, match x.member("amount"@) {
                Some(a) => data(a),
                None => JsonData::Text("0"@),
            }),
            ("consumerExchangeInternalId"@, or_null(x.member("internalId"@))),
            ("consumerProcessId"@, JsonData::Text(consumer)),
            ("flowName"@, or_null(x.member("flowName"@))),
            ("flowRefId"@, JsonData::Text(x.member_text("flowRefId"@)->0)),
            ("location"@, or_null(x.member("location"@))),
            ("providerProcessId"@, JsonData::Text(x.member_text("providerRefId"@)->0)),
        ],
    )
}

/// The connections of one consumer's exchanges, in order.
pub open spec fn process_links(ids: Set<Seq<char>>, consumer: Seq<char>, xs: Seq<JsonValue>) -> Seq<JsonData>
    decreases xs.len(),
{
    if xs.len() == 0 {
        Seq::empty()
    } else {
        let rest = process_links(ids, consumer, xs.drop_last());
        if provider_link(ids, xs.last()) {
            rest.push(connection(consumer, xs.last()))
        } else {
            rest
        }
    }
}

/// The connections of all processes, process by process.
pub open spec fn graph_links(ids: Set<Seq<char>>, ps: Seq<CanonicalEntity>, xss: Seq<Vec<JsonValue>>) -> Seq<JsonData>
    decreases ps.len(),
{
    if ps.len() == 0 || xss.len() == 0 {
        Seq::empty()
    } else {
        graph_links(ids, ps.drop_last(), xss.drop_last()) + process_links(ids, ps.last().internal_id@, xss.last()@)
    }
}

/// A process as the model lists it.
pub open spec fn process_ref(p: CanonicalEntity) -> JsonData {
    JsonData::Object(
        seq![
            ("id"@, JsonData::Text(p.internal_id@)),
            ("name"@, JsonData::Text(match p.name {
                Some(n) => n@,
                None => "Process"@,
            })),
            ("processType"@, or_null(p.raw.member("sourceProcessType"@))),
        ],
    )
}

/// The first process whose source type is `LCI_RESULT`.
pub open spec fn first_result(ps: Seq<CanonicalEntity>) -> Option<int>
    decreases ps.len(),
{
    if ps.len() == 0 {
        None
    } else if ps[0].raw.member_text("sourceProcessType"@) == Some("LCI_RESULT"@) {
        Some(0)
    } else {
        match first_result(ps.drop_first()) {
            Some(i) => Some(i + 1),
            None => None,
        }
    }
}

/// The reference process: the first result process, else the first process.
pub open spec fn reference_process(ps: Seq<CanonicalEntity>) -> Seq<char> {
    match first_result(ps) {
        Some(i) => ps[i].internal_id@,
        None => ps[0].internal_id@,
    }
}

/// The source fields of the candidate model.
pub open spec fn graph_raw(ps: Seq<CanonicalEntity>, links: Seq<JsonData>) -> JsonData {
    JsonData::Object(
        seq![
            ("connections"@, JsonData::Array(links)),
            ("description"@, JsonData::Text(
                "Candidate lifecycle model derived from openLCA JSON-LD exchange defaultProvider hints."@,
            )),
            ("processRefs"@, JsonData::Array(ps.map_values(|p: CanonicalEntity| process_ref(p)))),
            ("referenceProcessId"@, JsonData::Text(reference_process(ps))),
            ("sourceTrace"@, JsonData::Object(
                seq![
                    ("derivedEntity"@, JsonData::Text("default-provider-candidate-lifecyclemodel"@)),
                    ("format"@, JsonData::Text("openlca-jsonld"@)),
                    ("providerConnectionCount"@, JsonData::Number(decimal(links.len()))),
                    ("sourceObject"@, JsonData::Text("provider-graph"@)),
                ],
            )),
        ],
    )
}

/// The seed of the candidate model's identity.
pub open spec fn model_seed(ps: Seq<CanonicalEntity>) -> Seq<char> {
    "openlca-jsonld/lifecyclemodel/"@ + join(ids_of(ps), "/"@)
}

fn text_value(s: &str) -> (r: JsonValue)
    ensures
        data(r) == JsonData::Text(s@),
{
    JsonValue::String(owned(s))
}

pub(crate) fn member_or_null(x: &JsonValue, key: &str) -> (r: JsonValue)
    ensures
        data(r) == or_null(x.member(key@)),
{
    match x.get(key) {
        Some(v) => v.duplicate(),
        None => JsonValue::Null,
    }
}

/// Whether `id` is the internal id of one of the processes.
fn is_process_id(processes: &Vec<CanonicalEntity>, id: &str) -> (r: bool)
    ensures
        r == ids_of(processes@).to_set().contains(id@),
{
    let mut i: usize = 0;
    while i < processes.len()
        invariant
            i <= processes@.len(),
            forall|k: int| 0 <= k < i ==> (#[trigger] processes@[k]).internal_id@ != id@,
        decreases processes@.len() - i,
    {
        if str_eq(processes[i].internal_id.as_str(), id) {
            assert(ids_of(processes@)[i as int] == id@);
            return true;
        }
        i = i + 1;
    }
    proof {
        if ids_of(processes@).to_set().contains(id@) {
            let k = choose|k: int| 0 <= k < ids_of(processes@).len() && ids_of(processes@)[k] == id@;
            assert(processes@[k].internal_id@ != id@);
        }
    }
    false
}

/// The connection of an exchange, if it is a provider link (see `provider_link`).
fn link(processes: &Vec<CanonicalEntity>, consumer: &str, x: &JsonValue) -> (r: Option<JsonValue>)
    ensures
        r is Some <==> provider_link(ids_of(processes@).to_set(), *x),
        r matches Some(c) ==> data(c) == connection(consumer@, *x),
{
    let provider = match x.get_str("providerRefId") {
        Some(p) => p,
        None => {
            return None;
        },
    };
    let input = match x.get("isInput") {
        Some(JsonValue::Bool(b)) => *b,
        _ => false,
    };
    if !input || !is_process_id(processes, provider) {
        return None;
    }
    let flow = match x.get_str("flowRefId") {
        Some(f) => f,
        None => {
            return None;
        },
    };
    if !parses_as_uuid(flow) {
        return None;
    }
    let amount = match x.get("amount") {
        Some(a) => a.duplicate(),
        None => text_value("0"),
    };
    let mut members: Vec<(String, JsonValue)> = Vec::new();
    members.push((owned("amount"), amount));
    members.push((owned("consumerExchangeInternalId"), member_or_null(x, "internalId")));
    members.push((owned("consumerProcessId"), text_value(consumer)));
    members.push((owned("flowName"), member_or_null(x, "flowName")));
    members.push((owned("flowRefId"), text_value(flow)));
    members.push((owned("location"), member_or_null(x, "location")));
    members.push((owned("providerProcessId"), text_value(provider)));
    let r = JsonValue::Object(members);
    proof {
        crate::json::lemma_data_members(members@);
        assert(data_members(members@) =~= connection(consumer@, *x)->Object_0);
    }
    Some(r)
}

/// A candidate life cycle model that links processes through the default
/// providers named by their inputs: none where there are fewer than two
/// processes or no provider link; otherwise the model with the links as its
/// connections (see `graph_raw`), named by the process ids in order.
pub fn provider_graph_lifecycle_model(
    processes: &Vec<CanonicalEntity>,
    exchanges: &Vec<Vec<JsonValue>>,
) -> (r: Option<CanonicalEntity>)
    requires
        processes@.len() == exchanges@.len(),
    ensures
        ({
            let ps = processes@;
            let links = graph_links(ids_of(ps).to_set(), ps, exchanges@);
            match r {
                None => ps.len() < 2 || links.len() == 0,
                Some(e) => {
                    &&& ps.len() >= 2 && links.len() > 0
                    &&& e.entity_type@ == "lifecyclemodels"@
                    &&& e.internal_id@ == uuid_v5_url(vstd::utf8::encode_utf8(model_seed(ps)))
                    &&& e.external_id is None
                    &&& e.name matches Some(n) && n@ == "openLCA JSON-LD provider graph"@
                    &&& e.category_path@.len() == 0
                    &&& data(e.raw) == graph_raw(ps, links)
                },
            }
        }),
{
    let n = processes.len();
    if n < 2 {
        return None;
    }
    let ghost ps = processes@;
    let ghost ids = ids_of(ps).to_set();
    let mut links: Vec<JsonValue> = Vec::new();
    let mut i: usize = 0;
    assert(ps.subrange(0, 0) =~= Seq::<CanonicalEntity>::empty());
    while i < n
        invariant
            i <= n,
            n == ps.len(),
            n == exchanges@.len(),
            ps == processes@,
            ids == ids_of(ps).to_set(),
            data_items(links@) == graph_links(ids, ps.subrange(0, i as int), exchanges@.subrange(0, i as int)),
        decreases n - i,
    {
        let consumer = processes[i].internal_id.as_str();
        let xs = &exchanges[i];
        let ghost before = data_items(links@);
        let mut j: usize = 0;
        assert(xs@.subrange(0, 0) =~= Seq::<JsonValue>::empty());
        while j < xs.len()
            invariant
                j <= xs@.len(),
                ps == processes@,
                ids == ids_of(ps).to_set(),
                data_items(links@) == before + process_links(ids, consumer@, xs@.subrange(0, j as int)),
            decreases xs@.len() - j,
        {
            let ghost prev = links@;
            match link(processes, consumer, &xs[j]) {
                Some(c) => {
                    links.push(c);
                    proof {
                        lemma_data_items_push(prev, c);
                    }
                },
                None => {},
            }
            j = j + 1;
            proof {
                let sub = xs@.subrange(0, j as int);
                assert(sub.drop_last() =~= xs@.subrange(0, j - 1));
                assert(sub.last() == xs@[j - 1]);
            }
        }
        assert(xs@.subrange(0, xs@.len() as int) =~= xs@);
        i = i + 1;
        proof {
            let sp = ps.subrange(0, i as int);
            let sx = exchanges@.subrange(0, i as int);
            assert(sp.drop_last() =~= ps.subrange(0, i - 1));
            assert(sx.drop_last() =~= exchanges@.subrange(0, i - 1));
            assert(sp.last() == ps[i - 1]);
            assert(sx.last() == exchanges@[i - 1]);
        }
    }
    assert(ps.subrange(0, n as int) =~= ps);
    assert(exchanges@.subrange(0, n as int) =~= exchanges@);
    if links.len() == 0 {
        return None;
    }
    let ghost ls = data_items(links@);
    let count = links.len();
    proof {
        crate::json::lemma_data_items(links@);
    }
    let mut refs: Vec<JsonValue> = Vec::new();
    let mut names: Vec<String> = Vec::new();
    let mut reference: Option<usize> = None;
    let mut i: usize = 0;
    while i < n
        invariant
            i <= n,
            n == ps.len(),
            ps == processes@,
            data_items(refs@) == ps.subrange(0, i as int).map_values(|p: CanonicalEntity| process_ref(p)),
            names@.map_values(|s: String| s@) == ids_of(ps.subrange(0, i as int)),
            match reference {
                Some(k) => k < i && first_result(ps.subrange(0, i as int)) == Some(k as int),
                None => first_result(ps.subrange(0, i as int)) is None,
            },
        decreases n - i,
    {
        let p = &processes[i];
        let name = match &p.name {
            Some(x) => x.as_str(),
            None => "Process",
        };
        let mut members: Vec<(String, JsonValue)> = Vec::new();
        members.push((owned("id"), text_value(p.internal_id.as_str())));
        members.push((owned("name"), text_value(name)));
        members.push((owned("processType"), member_or_null(&p.raw, "sourceProcessType")));
        let entry = JsonValue::Object(members);
        proof {
            crate::json::lemma_data_members(members@);
            assert(data_members(members@) =~= process_ref(*p)->Object_0);
        }
        let ghost prev = refs@;
        refs.push(entry);
        proof {
            lemma_data_items_push(prev, entry);
        }
        let ghost prev_names = names@;
        names.push(p.internal_id.clone());
        if reference.is_none() {
            match p.raw.get_str("sourceProcessType") {
                Some(t) => {
                    if str_eq(t, "LCI_RESULT") {
                        reference = Some(i);
                    }
                },
                None => {},
            }
        }
        i = i + 1;
        proof {
            let sub = ps.subrange(0, i as int);
            assert(sub.drop_last() =~= ps.subrange(0, i - 1));
            assert(sub.last() == ps[i - 1]);
            assert(sub.map_values(|p: CanonicalEntity| process_ref(p)) =~= ps.subrange(0, i - 1).map_values(
                |p: CanonicalEntity| process_ref(p),
            ).push(process_ref(ps[i - 1])));
            assert(names@.map_values(|s: String| s@) =~= prev_names.map_values(|s: String| s@).push(ps[i - 1].internal_id@));
            assert(ids_of(sub) =~= ids_of(ps.subrange(0, i - 1)).push(ps[i - 1].internal_id@));
            lemma_first_result_push(ps.subrange(0, i - 1), ps[i - 1]);
            assert(ps.subrange(0, i - 1).push(ps[i - 1]) =~= sub);
        }
    }
    assert(ps.subrange(0, n as int) =~= ps);
    let reference_id = match reference {
        Some(k) => processes[k].internal_id.clone(),
        None => processes[0].internal_id.clone(),
    };
    let joined = join_strings(&names, "/");
    let seed = concat("openlca-jsonld/lifecyclemodel/", joined.as_str());
    assert(seed@ == model_seed(ps));
    let id = stable_id(seed.as_str());
    let mut trace: Vec<(String, JsonValue)> = Vec::new();
    trace.push((owned("derivedEntity"), text_value("default-provider-candidate-lifecyclemodel")));
    trace.push((owned("format"), text_value("openlca-jsonld")));
    trace.push((owned("providerConnectionCount"), JsonValue::Number(decimal_string(count as u64))));
    trace.push((owned("sourceObject"), text_value("provider-graph")));
    let mut raw: Vec<(String, JsonValue)> = Vec::new();
    raw.push((owned("connections"), JsonValue::Array(links)));
    raw.push((owned("description"), text_value(
        "Candidate lifecycle model derived from openLCA JSON-LD exchange defaultProvider hints.",
    )));
    raw.push((owned("processRefs"), JsonValue::Array(refs)));
    raw.push((owned("referenceProcessId"), JsonValue::String(reference_id)));
    raw.push((owned("sourceTrace"), JsonValue::Object(trace)));
    let raw = JsonValue::Object(raw);
    proof {
        crate::json::lemma_data_members(trace@);
        crate::json::lemma_data_members(raw->Object_0@);
        assert(data_members(trace@) =~= graph_raw(ps, ls)->Object_0[4].1->Object_0);
        assert(data_members(raw->Object_0@) =~= graph_raw(ps, ls)->Object_0);
    }
    Some(CanonicalEntity {
        entity_type: owned("lifecyclemodels"),
        internal_id: id,
        external_id: None,
        name: Some(owned("openLCA JSON-LD provider graph")),
        category_path: Vec::new(),
        raw,
    })
}

pub proof fn lemma_data_items_push(items: Seq<JsonValue>, x: JsonValue)
    ensures
        data_items(items.push(x)) == data_items(items).push(data(x)),
{
    crate::json::lemma_data_items(items);
    crate::json::lemma_data_items(items.push(x));
    assert(data_items(items.push(x)) =~= data_items(items).push(data(x)));
}

pub proof fn lemma_first_result_push(ps: Seq<CanonicalEntity>, p: CanonicalEntity)
    ensures
        first_result(ps.push(p)) == match first_result(ps) {
            Some(k) => Some(k),
            None => if p.raw.member_text("sourceProcessType"@) == Some("LCI_RESULT"@) {
                Some(ps.len() as int)
            } else {
                None
            },
        },
    decreases ps.len(),
{
    if ps.len() == 0 {
        assert(ps.push(p)[0] == p);
        assert(ps.push(p).drop_first() =~= Seq::<CanonicalEntity>::empty());
        assert(first_result(Seq::<CanonicalEntity>::empty()) is None);
        assert(first_result(ps) is None);
    } else {
        assert(ps.push(p)[0] == ps[0]);
        assert(ps.push(p).drop_first() =~= ps.drop_first().push(p));
        lemma_first_result_push(ps.drop_first(), p);
        assert(ps.drop_first().len() == ps.len() - 1);
    }
}

} // verus!
