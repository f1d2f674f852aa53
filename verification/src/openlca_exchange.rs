//! The openLCA JSON-LD rules for exchanges: each source exchange read into a
//! canonical exchange (flow, direction, amount, unit, property, provider,
//! location, uncertainty), the allocation factors of a process attached to
//! the exchanges they allocate, and the data quality indicators of a process.
use vstd::prelude::*;

use crate::json::{JsonData, JsonValue, data, data_items, data_members, deref_opt, lemma_data_items, push_member};
use crate::process_writer::text_or;
use crate::table::TextMap;
use crate::text::{chars_of, decimal, decimal_string, owned, split_chars, str_contains, str_eq, trim_str};
use crate::units::{
    decimal_between, decimal_fits, decimal_in_limits, decimal_mul, decimal_normalized, decimal_of, decimal_of_value,
    decimal_product, decimal_round_half_even, decimal_rounded, decimal_text, decimal_valid, decimal_within, json_view,
    lemma_json_view_insert, lookup,
};

verus! {

// ---------------------------------------------------------------------------
// Values
// ---------------------------------------------------------------------------

/// The text of an amount: a string as it is, a number as written, `0` for
/// anything else.
pub open spec fn number_text(v: JsonValue) -> Seq<char> {
    match v {
        JsonValue::String(s) => s@,
        JsonValue::Number(n) => n@,
        _ => "0"@,
    }
}

fn number_text_of(v: &JsonValue) -> (r: String)
    ensures
        r@ == number_text(*v),
{
    match v {
        JsonValue::String(s) => s.clone(),
        JsonValue::Number(n) => n.clone(),
        _ => owned("0"),
    }
}

/// Sets a member of an exchange.
fn put(m: &mut TextMap<JsonValue>, key: &str, v: JsonValue)
    ensures
        json_view(final(m).view()) == json_view(old(m).view()).insert(key@, data(v)),
{
    let ghost before = m.view();
    let ghost vv = v;
    m.insert(owned(key), v);
    proof {
        lemma_json_view_insert(before, key@, vv);
    }
}

/// A member copied under another name, where the source has it.
pub open spec fn copy_to(m: Map<Seq<char>, JsonData>, o: JsonValue, source: Seq<char>, target: Seq<char>) -> Map<
    Seq<char>,
    JsonData,
> {
    match o.member(source) {
        Some(v) => m.insert(target, data(v)),
        None => m,
    }
}

fn copy_member(m: &mut TextMap<JsonValue>, o: &JsonValue, source: &str, target: &str)
    ensures
        json_view(final(m).view()) == copy_to(json_view(old(m).view()), *o, source@, target@),
{
    match o.get(source) {
        Some(v) => put(m, target, v.duplicate()),
        None => {},
    }
}

/// The id and the name of a referenced object, copied under two names.
pub open spec fn ref_copy(m: Map<Seq<char>, JsonData>, r: JsonValue, id_field: Seq<char>, name_field: Seq<char>) -> Map<
    Seq<char>,
    JsonData,
> {
    copy_to(copy_to(m, r, "@id"@, id_field), r, "name"@, name_field)
}

// ---------------------------------------------------------------------------
// Uncertainty
// ---------------------------------------------------------------------------

/// The TIDAS name of an openLCA distribution type.
pub open spec fn uncertainty_kind(t: Seq<char>) -> Option<Seq<char>> {
    if t == "LOG_NORMAL_DISTRIBUTION"@ {
        Some("log-normal"@)
    } else if t == "NORMAL_DISTRIBUTION"@ {
        Some("normal"@)
    } else if t == "TRIANGLE_DISTRIBUTION"@ || t == "TRIANGULAR_DISTRIBUTION"@ {
        Some("triangular"@)
    } else if t == "UNIFORM_DISTRIBUTION"@ {
        Some("uniform"@)
    } else {
        None
    }
}

fn uncertainty_kind_of(t: &str) -> (r: Option<&'static str>)
    ensures
        match r {
            Some(k) => uncertainty_kind(t@) == Some(k@),
            None => uncertainty_kind(t@) is None,
        },
{
    if str_eq(t, "LOG_NORMAL_DISTRIBUTION") {
        Some("log-normal")
    } else if str_eq(t, "NORMAL_DISTRIBUTION") {
        Some("normal")
    } else if str_eq(t, "TRIANGLE_DISTRIBUTION") || str_eq(t, "TRIANGULAR_DISTRIBUTION") {
        Some("triangular")
    } else if str_eq(t, "UNIFORM_DISTRIBUTION") {
        Some("uniform")
    } else {
        None
    }
}

/// The relative standard deviation (95 %) of an uncertainty, in percent: the
/// square of the geometric standard deviation of a log-normal distribution,
/// or twice the standard deviation of a normal one, rounded to three places
/// (halves to even), where it lies between 0 and 100. A deviation, or a
/// square or double of one, beyond the decimal limits gives none.
pub open spec fn dispersion_of(u: JsonValue) -> Option<Seq<char>> {
    match u.member_text("distributionType"@) {
        None => None,
        Some(t) => {
            let value = if t == "LOG_NORMAL_DISTRIBUTION"@ {
                match decimal_of(u.member("geomSd"@)) {
                    Some(g) => if decimal_fits(g) {
                        Some(decimal_product(g, g))
                    } else {
                        None
                    },
                    None => None,
                }
            } else if t == "NORMAL_DISTRIBUTION"@ {
                match decimal_of(u.member("sd"@)) {
                    Some(s) => if decimal_fits(s) && decimal_fits("2"@) {
                        Some(decimal_product(s, "2"@))
                    } else {
                        None
                    },
                    None => None,
                }
            } else {
                None
            };
            match value {
                Some(v) => if decimal_fits(v) && decimal_between(decimal_rounded(v, 3), "0"@, "100"@) {
                    Some(decimal_rounded(v, 3))
                } else {
                    None
                },
                None => None,
            }
        },
    }
}

/// The relative standard deviation of an uncertainty (see `dispersion_of`).
pub fn uncertainty_dispersion(u: &JsonValue) -> (r: Option<String>)
    ensures
        crate::normalization::opt_view(r) == dispersion_of(*u),
{
    let t = match u.get_str("distributionType") {
        Some(t) => t,
        None => {
            return None;
        },
    };
    let value = if str_eq(t, "LOG_NORMAL_DISTRIBUTION") {
        match decimal_of_value(u.get("geomSd")) {
            Some(g) => if decimal_in_limits(g.as_str()) {
                Some(decimal_mul(g.as_str(), g.as_str()))
            } else {
                None
            },
            None => None,
        }
    } else if str_eq(t, "NORMAL_DISTRIBUTION") {
        match decimal_of_value(u.get("sd")) {
            Some(s) => {
                let two = owned("2");
                if decimal_in_limits(s.as_str()) && decimal_in_limits(two.as_str()) {
                    Some(decimal_mul(s.as_str(), two.as_str()))
                } else {
                    None
                }
            },
            None => None,
        }
    } else {
        None
    };
    match value {
        Some(v) => {
            if !decimal_in_limits(v.as_str()) {
                return None;
            }
            let rounded = decimal_round_half_even(v.as_str(), 3);
            if decimal_within(rounded.as_str(), "0", "100") {
                Some(rounded)
            } else {
                None
            }
        },
        None => None,
    }
}

/// An exchange with the facts of an uncertainty: its distribution type, its
/// minimum and maximum, and its relative standard deviation.
pub open spec fn with_uncertainty(m: Map<Seq<char>, JsonData>, u: Option<JsonValue>) -> Map<Seq<char>, JsonData> {
    match u {
        Some(x) => if x is Object {
            let a = match x.member_text("distributionType"@) {
                Some(t) => match uncertainty_kind(t) {
                    Some(k) => m.insert("uncertaintyDistributionType"@, JsonData::Text(k)),
                    None => m,
                },
                None => m,
            };
            let b = match x.member("minimum"@) {
                Some(v) => a.insert("minimumAmount"@, JsonData::Text(number_text(v))),
                None => a,
            };
            let c = match x.member("maximum"@) {
                Some(v) => b.insert("maximumAmount"@, JsonData::Text(number_text(v))),
                None => b,
            };
            match dispersion_of(x) {
                Some(d) => c.insert("relativeStandardDeviation95In"@, JsonData::Text(d)),
                None => c,
            }
        } else {
            m
        },
        None => m,
    }
}

fn add_uncertainty(m: &mut TextMap<JsonValue>, u: Option<&JsonValue>)
    ensures
        json_view(final(m).view()) == with_uncertainty(json_view(old(m).view()), deref_opt(u)),
{
    let x = match u {
        Some(x) => x,
        None => {
            return;
        },
    };
    if x.as_object().is_none() {
        return;
    }
    match x.get_str("distributionType") {
        Some(t) => match uncertainty_kind_of(t) {
            Some(k) => put(m, "uncertaintyDistributionType", JsonValue::String(owned(k))),
            None => {},
        },
        None => {},
    }
    match x.get("minimum") {
        Some(v) => put(m, "minimumAmount", JsonValue::String(number_text_of(v))),
        None => {},
    }
    match x.get("maximum") {
        Some(v) => put(m, "maximumAmount", JsonValue::String(number_text_of(v))),
        None => {},
    }
    match uncertainty_dispersion(x) {
        Some(d) => put(m, "relativeStandardDeviation95In", JsonValue::String(d)),
        None => {},
    }
}

// ---------------------------------------------------------------------------
// Exchanges
// ---------------------------------------------------------------------------

/// The position from one of the exchange at an index (the largest index keeps
/// its own number).
pub open spec fn position(index: nat) -> nat {
    if index >= usize::MAX {
        index
    } else {
        index + 1
    }
}

/// The first members of a canonical exchange: id, flow, direction and amount.
pub open spec fn exchange_base(o: JsonValue, flow: JsonValue, flow_id: Seq<char>, index: nat) -> Map<Seq<char>, JsonData> {
    Map::<Seq<char>, JsonData>::empty().insert(
        "internalId"@,
        match o.member("internalId"@) {
            Some(v) => data(v),
            None => JsonData::Number(decimal(position(index))),
        },
    ).insert("flowRefId"@, JsonData::Text(flow_id)).insert(
        "flowName"@,
        JsonData::Text(text_or(flow.member_text("name"@), "Flow"@)),
    ).insert("flow"@, data(flow)).insert("isInput"@, JsonData::Bool(o.member("isInput"@) == Some(JsonValue::Bool(true)))).insert(
        "amount"@,
        JsonData::Text(
            match o.member("amount"@) {
                Some(v) => number_text(v),
                None => "0"@,
            },
        ),
    )
}

/// The members an exchange copies: its quantitative reference mark, formula,
/// avoided-product mark, quality entry and description (as general comment).
pub open spec fn exchange_fields(m: Map<Seq<char>, JsonData>, o: JsonValue) -> Map<Seq<char>, JsonData> {
    copy_to(
        copy_to(
            copy_to(copy_to(copy_to(m, o, "isQuantitativeReference"@, "isQuantitativeReference"@), o, "amountFormula"@,
                "amountFormula"@), o, "isAvoidedProduct"@, "isAvoidedProduct"@),
            o,
            "dqEntry"@,
            "dqEntry"@,
        ),
        o,
        "description"@,
        "generalComment"@,
    )
}

/// The references of an exchange: its unit (else the flow's reference unit
/// name), flow property, default provider and location.
pub open spec fn exchange_refs(m: Map<Seq<char>, JsonData>, o: JsonValue, flow: JsonValue) -> Map<Seq<char>, JsonData> {
    let m3 = match o.member("unit"@) {
        Some(u) if u is Object => ref_copy(m, u, "unitId"@, "unitName"@),
        _ => match flow.member_text("refUnit"@) {
            Some(t) => m.insert("unitName"@, JsonData::Text(t)),
            None => m,
        },
    };
    let m4 = match o.member("flowProperty"@) {
        Some(p) if p is Object => ref_copy(m3, p, "flowPropertyRefId"@, "flowPropertyName"@),
        _ => m3,
    };
    let m5 = match o.member("defaultProvider"@) {
        Some(p) if p is Object => match p.member_text("@id"@) {
            Some(pid) => m4.insert("providerRefId"@, JsonData::Text(pid)),
            None => m4,
        },
        _ => m4,
    };
    match o.member("location"@) {
        Some(l) if l is Object => {
            let with_code = match l.member_text("code"@) {
                Some(c) => m5.insert("location"@, JsonData::Text(c)),
                None => m5,
            };
            with_code.insert("sourceLocation"@, data(l))
        },
        _ => m5,
    }
}

/// The canonical exchange of an openLCA exchange at a position of its
/// process; none where it names no flow by id.
pub open spec fn exchange_of(o: JsonValue, index: nat) -> Option<Map<Seq<char>, JsonData>> {
    match o.member("flow"@) {
        Some(flow) => if flow is Object {
            match flow.member_text("@id"@) {
                None => None,
                Some(flow_id) => Some(
                    with_uncertainty(
                        exchange_refs(exchange_fields(exchange_base(o, flow, flow_id, index), o), o, flow),
                        o.member("uncertainty"@),
                    ).insert(
                        "sourceTrace"@,
                        JsonData::Object(seq![("exchange"@, data(o)), ("format"@, JsonData::Text("openlca-jsonld"@))]),
                    ),
                ),
            }
        } else {
            None
        },
        None => None,
    }
}

fn add_base(o: &JsonValue, flow: &JsonValue, flow_id: &str, index: usize) -> (r: TextMap<JsonValue>)
    ensures
        json_view(r.view()) == exchange_base(*o, *flow, flow_id@, index as nat),
{
    let flow_name = match flow.get_str("name") {
        Some(n) => n,
        None => "Flow",
    };
    let amount = match o.get("amount") {
        Some(v) => number_text_of(v),
        None => owned("0"),
    };
    let input = match o.get("isInput") {
        Some(JsonValue::Bool(b)) => *b,
        _ => false,
    };
    let mut m: TextMap<JsonValue> = TextMap::new();
    proof {
        assert(json_view(m.view()) =~= Map::<Seq<char>, JsonData>::empty());
    }
    let internal = match o.get("internalId") {
        Some(v) => v.duplicate(),
        None => JsonValue::Number(decimal_string(index.saturating_add(1) as u64)),
    };
    put(&mut m, "internalId", internal);
    put(&mut m, "flowRefId", JsonValue::String(owned(flow_id)));
    put(&mut m, "flowName", JsonValue::String(owned(flow_name)));
    put(&mut m, "flow", flow.duplicate());
    put(&mut m, "isInput", JsonValue::Bool(input));
    put(&mut m, "amount", JsonValue::String(amount));
    m
}

fn add_fields(m: &mut TextMap<JsonValue>, o: &JsonValue)
    ensures
        json_view(final(m).view()) == exchange_fields(json_view(old(m).view()), *o),
{
    copy_member(m, o, "isQuantitativeReference", "isQuantitativeReference");
    copy_member(m, o, "amountFormula", "amountFormula");
    copy_member(m, o, "isAvoidedProduct", "isAvoidedProduct");
    copy_member(m, o, "dqEntry", "dqEntry");
    copy_member(m, o, "description", "generalComment");
}

fn add_refs(m: &mut TextMap<JsonValue>, o: &JsonValue, flow: &JsonValue)
    ensures
        json_view(final(m).view()) == exchange_refs(json_view(old(m).view()), *o, *flow),
{
    let unit_object = match o.get("unit") {
        Some(u) => if u.as_object().is_some() {
            Some(u)
        } else {
            None
        },
        None => None,
    };
    match unit_object {
        Some(u) => {
            copy_member(m, u, "@id", "unitId");
            copy_member(m, u, "name", "unitName");
        },
        None => match flow.get_str("refUnit") {
            Some(t) => put(m, "unitName", JsonValue::String(owned(t))),
            None => {},
        },
    }
    match o.get("flowProperty") {
        Some(p) => if p.as_object().is_some() {
            copy_member(m, p, "@id", "flowPropertyRefId");
            copy_member(m, p, "name", "flowPropertyName");
        },
        None => {},
    }
    match o.get("defaultProvider") {
        Some(p) => if p.as_object().is_some() {
            match p.get_str("@id") {
                Some(pid) => put(m, "providerRefId", JsonValue::String(owned(pid))),
                None => {},
            }
        },
        None => {},
    }
    match o.get("location") {
        Some(l) => if l.as_object().is_some() {
            match l.get_str("code") {
                Some(c) => put(m, "location", JsonValue::String(owned(c))),
                None => {},
            }
            put(m, "sourceLocation", l.duplicate());
        },
        None => {},
    }
}

/// The canonical exchange of an openLCA exchange (see `exchange_of`).
pub fn exchange(o: &JsonValue, index: usize) -> (r: Option<TextMap<JsonValue>>)
    ensures
        match exchange_of(*o, index as nat) {
            Some(m) => r matches Some(x) && json_view(x.view()) == m,
            None => r is None,
        },
{
    let flow = match o.get("flow") {
        Some(f) => f,
        None => {
            return None;
        },
    };
    if flow.as_object().is_none() {
        return None;
    }
    let flow_id = match flow.get_str("@id") {
        Some(f) => f,
        None => {
            return None;
        },
    };
    let mut m = add_base(o, flow, flow_id, index);
    add_fields(&mut m, o);
    add_refs(&mut m, o, flow);
    add_uncertainty(&mut m, o.get("uncertainty"));
    let mut trace: Vec<(String, JsonValue)> = Vec::new();
    push_member(&mut trace, "exchange", o.duplicate());
    push_member(&mut trace, "format", JsonValue::String(owned("openlca-jsonld")));
    assert(data_members(trace@) =~= seq![("exchange"@, data(*o)), ("format"@, JsonData::Text("openlca-jsonld"@))]);
    put(&mut m, "sourceTrace", JsonValue::Object(trace));
    Some(m)
}

// ---------------------------------------------------------------------------
// Allocation factors
// ---------------------------------------------------------------------------

/// The members of a list of exchanges, as JSON values.
pub open spec fn views(xs: Seq<TextMap<JsonValue>>) -> Seq<Map<Seq<char>, JsonData>> {
    xs.map_values(|m: TextMap<JsonValue>| json_view(m.view()))
}

/// The key an internal id is found by: a string itself, a number as written,
/// and `true`, `false` or `null`; an array or object gives none.
pub open spec fn value_key(v: JsonData) -> Option<Seq<char>> {
    match v {
        JsonData::Text(s) => Some(s),
        JsonData::Number(n) => Some(n),
        JsonData::Bool(b) => Some(if b { "true"@ } else { "false"@ }),
        JsonData::Null => Some("null"@),
        _ => None,
    }
}

fn value_key_of(v: &JsonValue) -> (r: Option<String>)
    ensures
        crate::normalization::opt_view(r) == value_key(data(*v)),
{
    match v {
        JsonValue::String(s) => Some(s.clone()),
        JsonValue::Number(n) => Some(n.clone()),
        JsonValue::Bool(b) => Some(owned(if *b { "true" } else { "false" })),
        JsonValue::Null => Some(owned("null")),
        _ => None,
    }
}

/// The last exchange whose internal id has the key.
pub open spec fn index_of_key(xs: Seq<Map<Seq<char>, JsonData>>, key: Seq<char>) -> Option<nat>
    decreases xs.len(),
{
    if xs.len() == 0 {
        None
    } else if (lookup(xs.last(), "internalId"@) matches Some(v) && value_key(v) == Some(key)) {
        Some((xs.len() - 1) as nat)
    } else {
        index_of_key(xs.drop_last(), key)
    }
}

pub open spec fn is_input(x: Map<Seq<char>, JsonData>) -> bool {
    lookup(x, "isInput"@) == Some(JsonData::Bool(true))
}

/// The text of a string member.
pub open spec fn data_text(x: Map<Seq<char>, JsonData>, key: Seq<char>) -> Option<Seq<char>> {
    match lookup(x, key) {
        Some(JsonData::Text(t)) => Some(t),
        _ => None,
    }
}

/// The first output exchange of a flow, from position `base` on.
pub open spec fn first_output(xs: Seq<Map<Seq<char>, JsonData>>, flow: Seq<char>, base: nat) -> Option<nat>
    decreases xs.len(),
{
    if xs.len() == 0 {
        None
    } else if !is_input(xs[0]) && data_text(xs[0], "flowRefId"@) == Some(flow) {
        Some(base)
    } else {
        first_output(xs.drop_first(), flow, base + 1)
    }
}

/// An allocation factor as a percentage: the decimal times 100, rounded to
/// three places (halves to even), without trailing zeros; none where a step
/// would leave the decimal limits.
pub open spec fn allocation_percent(v: Option<JsonValue>) -> Option<Seq<char>> {
    match decimal_of(v) {
        Some(d) => {
            let p = decimal_product(d, "100"@);
            if decimal_fits(d) && decimal_fits("100"@) && decimal_fits(p) && decimal_fits(decimal_rounded(p, 3)) {
                Some(decimal_normalized(decimal_rounded(p, 3)))
            } else {
                None
            }
        },
        None => None,
    }
}

/// The exchange an allocation factor allocates, and the allocation: the
/// factor's exchange by internal id, its product as the first output exchange
/// of that flow (by position from one), and a non-zero percentage.
pub open spec fn factor_entry(xs: Seq<Map<Seq<char>, JsonData>>, f: JsonValue) -> Option<(nat, JsonData)> {
    let target = match f.member("exchange"@) {
        Some(e) if e is Object => match e.member("internalId"@) {
            Some(iv) => match value_key(data(iv)) {
                Some(k) => index_of_key(xs, k),
                None => None,
            },
            None => None,
        },
        _ => None,
    };
    let product = match f.member("product"@) {
        Some(p) if p is Object => p.member_text("@id"@),
        _ => None,
    };
    match (target, product) {
        (Some(t), Some(pid)) => match first_output(xs, pid, 1) {
            Some(c) => match allocation_percent(f.member("value"@)) {
                Some(fraction) => if fraction == "0"@ {
                    None
                } else {
                    Some(
                        (
                            t,
                            JsonData::Object(seq![
                                ("allocatedFraction"@, JsonData::Text(fraction)),
                                ("internalReferenceToCoProduct"@, JsonData::Text(decimal(c))),
                            ]),
                        ),
                    )
                },
                None => None,
            },
            None => None,
        },
        _ => None,
    }
}

/// The allocations of a list of factors, in order.
pub open spec fn factor_entries(xs: Seq<Map<Seq<char>, JsonData>>, fs: Seq<JsonValue>) -> Seq<(nat, JsonData)>
    decreases fs.len(),
{
    if fs.len() == 0 {
        Seq::empty()
    } else {
        match factor_entry(xs, fs.last()) {
            Some(e) => factor_entries(xs, fs.drop_last()).push(e),
            None => factor_entries(xs, fs.drop_last()),
        }
    }
}

/// The allocations of the exchange at an index, in order.
pub open spec fn targeted(es: Seq<(nat, JsonData)>, i: nat) -> Seq<JsonData>
    decreases es.len(),
{
    if es.len() == 0 {
        Seq::empty()
    } else if es.last().0 == i {
        targeted(es.drop_last(), i).push(es.last().1)
    } else {
        targeted(es.drop_last(), i)
    }
}

/// The exchanges of a process with its allocation factors attached: each
/// exchange that some factor allocates gets the list of its allocations.
pub open spec fn allocated(xs: Seq<Map<Seq<char>, JsonData>>, process: JsonValue) -> Seq<Map<Seq<char>, JsonData>> {
    match process.member("allocationFactors"@) {
        Some(JsonValue::Array(fs)) => Seq::new(
            xs.len(),
            |i: int|
                {
                    let list = targeted(factor_entries(xs, fs@), i as nat);
                    if list.len() > 0 {
                        xs[i].insert("allocations"@, JsonData::Array(list))
                    } else {
                        xs[i]
                    }
                },
        ),
        _ => xs,
    }
}

fn find_key(xs: &Vec<TextMap<JsonValue>>, key: &str) -> (r: Option<usize>)
    ensures
        match r {
            Some(i) => index_of_key(views(xs@), key@) == Some(i as nat),
            None => index_of_key(views(xs@), key@) is None,
        },
{
    let ghost vs = views(xs@);
    let mut i: usize = xs.len();
    assert(vs.subrange(0, i as int) =~= vs);
    while i > 0
        invariant
            i <= xs@.len(),
            vs == views(xs@),
            index_of_key(vs, key@) == index_of_key(vs.subrange(0, i as int), key@),
        decreases i,
    {
        let ghost sub = vs.subrange(0, i as int);
        assert(sub.last() == json_view(xs@[i - 1].view()));
        assert(sub.drop_last() =~= vs.subrange(0, i - 1));
        let hit = match xs[i - 1].get("internalId") {
            Some(v) => match value_key_of(v) {
                Some(k) => str_eq(k.as_str(), key),
                None => false,
            },
            None => false,
        };
        if hit {
            return Some(i - 1);
        }
        i = i - 1;
    }
    assert(vs.subrange(0, 0) =~= Seq::<Map<Seq<char>, JsonData>>::empty());
    None
}

fn find_output(xs: &Vec<TextMap<JsonValue>>, flow: &str) -> (r: Option<usize>)
    ensures
        match r {
            Some(p) => first_output(views(xs@), flow@, 1) == Some(p as nat),
            None => first_output(views(xs@), flow@, 1) is None,
        },
{
    let ghost vs = views(xs@);
    let mut i: usize = 0;
    assert(vs.subrange(0, vs.len() as int) =~= vs);
    while i < xs.len()
        invariant
            i <= xs@.len(),
            vs == views(xs@),
            first_output(vs, flow@, 1) == first_output(vs.subrange(i as int, vs.len() as int), flow@, (i + 1) as nat),
        decreases xs@.len() - i,
    {
        let ghost sub = vs.subrange(i as int, vs.len() as int);
        assert(sub[0] == json_view(xs@[i as int].view()));
        assert(sub.drop_first() =~= vs.subrange(i + 1, vs.len() as int));
        let input = match xs[i].get("isInput") {
            Some(JsonValue::Bool(b)) => *b,
            _ => false,
        };
        let same = match xs[i].get("flowRefId") {
            Some(v) => match v.as_str() {
                Some(t) => str_eq(t, flow),
                None => false,
            },
            None => false,
        };
        if !input && same {
            return Some(i + 1);
        }
        i = i + 1;
    }
    None
}

fn allocation_percent_of(v: Option<&JsonValue>) -> (r: Option<String>)
    ensures
        crate::normalization::opt_view(r) == allocation_percent(deref_opt(v)),
{
    let d = match decimal_of_value(v) {
        Some(d) => d,
        None => {
            return None;
        },
    };
    let hundred = owned("100");
    if !decimal_in_limits(d.as_str()) || !decimal_in_limits(hundred.as_str()) {
        return None;
    }
    let p = decimal_mul(d.as_str(), hundred.as_str());
    if !decimal_in_limits(p.as_str()) {
        return None;
    }
    let rounded = decimal_round_half_even(p.as_str(), 3);
    if !decimal_in_limits(rounded.as_str()) {
        return None;
    }
    Some(decimal_text(rounded.as_str()))
}

fn factor_entry_of(xs: &Vec<TextMap<JsonValue>>, f: &JsonValue) -> (r: Option<(usize, JsonValue)>)
    ensures
        match factor_entry(views(xs@), *f) {
            Some((t, e)) => r matches Some((i, v)) && i == t && data(v) == e,
            None => r is None,
        },
{
    let target = match f.get("exchange") {
        Some(e) => if e.as_object().is_some() {
            match e.get("internalId") {
                Some(iv) => match value_key_of(iv) {
                    Some(k) => find_key(xs, k.as_str()),
                    None => None,
                },
                None => None,
            }
        } else {
            None
        },
        None => None,
    };
    let product = match f.get("product") {
        Some(p) => if p.as_object().is_some() {
            p.get_str("@id")
        } else {
            None
        },
        None => None,
    };
    let (t, pid) = match (target, product) {
        (Some(t), Some(pid)) => (t, pid),
        _ => {
            return None;
        },
    };
    let c = match find_output(xs, pid) {
        Some(c) => c,
        None => {
            return None;
        },
    };
    let fraction = match allocation_percent_of(f.get("value")) {
        Some(x) => x,
        None => {
            return None;
        },
    };
    if str_eq(fraction.as_str(), "0") {
        return None;
    }
    let mut m: Vec<(String, JsonValue)> = Vec::new();
    let ghost fv = fraction@;
    push_member(&mut m, "allocatedFraction", JsonValue::String(fraction));
    push_member(&mut m, "internalReferenceToCoProduct", JsonValue::String(decimal_string(c as u64)));
    assert(data_members(m@) =~= seq![
        ("allocatedFraction"@, JsonData::Text(fv)),
        ("internalReferenceToCoProduct"@, JsonData::Text(decimal(c as nat))),
    ]);
    Some((t, JsonValue::Object(m)))
}

pub open spec fn entry_views(ps: Seq<(usize, JsonValue)>) -> Seq<(nat, JsonData)> {
    ps.map_values(|p: (usize, JsonValue)| (p.0 as nat, data(p.1)))
}

fn targeted_of(ps: &Vec<(usize, JsonValue)>, i: usize) -> (r: Vec<JsonValue>)
    ensures
        data_items(r@) == targeted(entry_views(ps@), i as nat),
{
    let ghost es = entry_views(ps@);
    let mut out: Vec<JsonValue> = Vec::new();
    let mut k: usize = 0;
    assert(es.subrange(0, 0) =~= Seq::<(nat, JsonData)>::empty());
    while k < ps.len()
        invariant
            k <= ps@.len(),
            es == entry_views(ps@),
            data_items(out@) == targeted(es.subrange(0, k as int), i as nat),
        decreases ps@.len() - k,
    {
        let ghost sub = es.subrange(0, k + 1);
        assert(sub.drop_last() =~= es.subrange(0, k as int));
        assert(sub.last() == (ps@[k as int].0 as nat, data(ps@[k as int].1)));
        if ps[k].0 == i {
            let v = ps[k].1.duplicate();
            proof {
                crate::openlca::lemma_data_items_push(out@, v);
            }
            out.push(v);
        }
        k = k + 1;
    }
    assert(es.subrange(0, es.len() as int) =~= es);
    out
}

/// Attaches the allocation factors of a process to its exchanges (see `allocated`).
pub fn apply_allocations(process: &JsonValue, exchanges: &mut Vec<TextMap<JsonValue>>)
    ensures
        final(exchanges)@.len() == old(exchanges)@.len(),
        forall|i: int|
            0 <= i < final(exchanges)@.len() ==> json_view(#[trigger] final(exchanges)@[i].view()) == allocated(
                views(old(exchanges)@),
                *process,
            )[i],
{
    let ghost xs = views(exchanges@);
    let ghost orig = exchanges@;
    let factors = match process.get("allocationFactors") {
        Some(JsonValue::Array(f)) => f,
        _ => {
            return;
        },
    };
    let mut pairs: Vec<(usize, JsonValue)> = Vec::new();
    let mut k: usize = 0;
    assert(factors@.subrange(0, 0) =~= Seq::<JsonValue>::empty());
    assert(entry_views(pairs@) =~= Seq::<(nat, JsonData)>::empty());
    while k < factors.len()
        invariant
            k <= factors@.len(),
            xs == views(exchanges@),
            entry_views(pairs@) == factor_entries(xs, factors@.subrange(0, k as int)),
        decreases factors@.len() - k,
    {
        let ghost sub = factors@.subrange(0, k + 1);
        assert(sub.drop_last() =~= factors@.subrange(0, k as int));
        assert(sub.last() == factors@[k as int]);
        match factor_entry_of(exchanges, &factors[k]) {
            Some(p) => {
                let ghost before = pairs@;
                pairs.push(p);
                assert(entry_views(pairs@) =~= entry_views(before).push((p.0 as nat, data(p.1))));
            },
            None => {},
        }
        k = k + 1;
    }
    assert(factors@.subrange(0, factors@.len() as int) =~= factors@);
    let ghost es = factor_entries(xs, factors@);
    let mut rest: Vec<TextMap<JsonValue>> = Vec::new();
    std::mem::swap(exchanges, &mut rest);
    let n = rest.len();
    let mut i: usize = 0;
    while i < n
        invariant
            n == orig.len(),
            i <= n,
            exchanges@.len() == i,
            rest@ == orig.subrange(i as int, n as int),
            xs == views(orig),
            entry_views(pairs@) == es,
            es == factor_entries(xs, factors@),
            process.member("allocationFactors"@) == Some(JsonValue::Array(*factors)),
            forall|j: int|
                0 <= j < i ==> json_view(#[trigger] exchanges@[j].view()) == allocated(xs, *process)[j],
        decreases n - i,
    {
        assert(rest@[0] == orig[i as int]);
        let mut x = rest.remove(0);
        let list = targeted_of(&pairs, i);
        proof {
            crate::json::lemma_data_items(list@);
        }
        if list.len() > 0 {
            put(&mut x, "allocations", JsonValue::Array(list));
        }
        exchanges.push(x);
        assert(rest@ =~= orig.subrange(i + 1, n as int));
        i = i + 1;
    }
}

/// The canonical exchanges of a process's exchange list, in order (those that
/// name no flow left out); each keeps the position it had in the list.
pub open spec fn exchanges_of(items: Seq<JsonValue>) -> Seq<Map<Seq<char>, JsonData>>
    decreases items.len(),
{
    if items.len() == 0 {
        Seq::empty()
    } else {
        match exchange_of(items.last(), (items.len() - 1) as nat) {
            Some(m) => exchanges_of(items.drop_last()).push(m),
            None => exchanges_of(items.drop_last()),
        }
    }
}

/// The canonical exchanges of a process with its allocation factors attached.
pub open spec fn process_exchanges_of(process: JsonValue) -> Seq<Map<Seq<char>, JsonData>> {
    let xs = match process.member("exchanges"@) {
        Some(JsonValue::Array(items)) => exchanges_of(items@),
        _ => Seq::empty(),
    };
    allocated(xs, process)
}

/// The canonical exchanges of a process (see `process_exchanges_of`).
pub fn process_exchanges(process: &JsonValue) -> (r: Vec<TextMap<JsonValue>>)
    ensures
        views(r@) == process_exchanges_of(*process),
{
    let mut out: Vec<TextMap<JsonValue>> = Vec::new();
    match process.get("exchanges") {
        Some(JsonValue::Array(items)) => {
            let mut i: usize = 0;
            assert(items@.subrange(0, 0) =~= Seq::<JsonValue>::empty());
            assert(views(out@) =~= Seq::<Map<Seq<char>, JsonData>>::empty());
            while i < items.len()
                invariant
                    i <= items@.len(),
                    views(out@) == exchanges_of(items@.subrange(0, i as int)),
                decreases items@.len() - i,
            {
                let ghost sub = items@.subrange(0, i + 1);
                assert(sub.drop_last() =~= items@.subrange(0, i as int));
                assert(sub.last() == items@[i as int]);
                match exchange(&items[i], i) {
                    Some(x) => {
                        let ghost before = out@;
                        out.push(x);
                        assert(views(out@) =~= views(before).push(json_view(x.view())));
                    },
                    None => {},
                }
                i = i + 1;
            }
            assert(items@.subrange(0, items@.len() as int) =~= items@);
        },
        _ => {
            assert(views(out@) =~= Seq::<Map<Seq<char>, JsonData>>::empty());
        },
    }
    let ghost xs = views(out@);
    apply_allocations(process, &mut out);
    assert(views(out@) =~= allocated(xs, *process));
    out
}

// ---------------------------------------------------------------------------
// Data quality indicators
// ---------------------------------------------------------------------------

pub open spec fn is_paren(c: char) -> bool {
    c == '(' || c == ')'
}

pub open spec fn trim_start_parens(s: Seq<char>) -> Seq<char>
    decreases s.len(),
{
    if s.len() > 0 && is_paren(s[0]) {
        trim_start_parens(s.drop_first())
    } else {
        s
    }
}

pub open spec fn trim_end_parens(s: Seq<char>) -> Seq<char>
    decreases s.len(),
{
    if s.len() > 0 && is_paren(s.last()) {
        trim_end_parens(s.drop_last())
    } else {
        s
    }
}

/// The value of a text of decimal digits.
pub open spec fn digits_value(s: Seq<char>) -> nat
    decreases s.len(),
{
    if s.len() == 0 {
        0
    } else {
        digits_value(s.drop_last()) * 10 + ((s.last() as nat) - ('0' as nat)) as nat
    }
}

/// `u8::from_str`: an optional `+`, then at least one digit, of value at most 255.
pub open spec fn parse_u8(s: Seq<char>) -> Option<u8> {
    let d = if s.len() > 0 && s[0] == '+' {
        s.drop_first()
    } else {
        s
    };
    if d.len() > 0 && crate::process_writer::all_digits(d) && digits_value(d) <= 255 {
        Some(digits_value(d) as u8)
    } else {
        None
    }
}

/// The scores of a data quality entry such as `(2;1;4)`: the pieces between
/// `;`, trimmed, that are small numbers, in order.
pub open spec fn parsed_scores(pieces: Seq<Seq<char>>) -> Seq<u8>
    decreases pieces.len(),
{
    if pieces.len() == 0 {
        Seq::empty()
    } else {
        match parse_u8(crate::text::trim(pieces.last())) {
            Some(v) => parsed_scores(pieces.drop_last()).push(v),
            None => parsed_scores(pieces.drop_last()),
        }
    }
}

pub open spec fn scores_of(entry: Seq<char>) -> Seq<u8> {
    parsed_scores(crate::text::split(trim_end_parens(trim_start_parens(crate::text::trim(entry))), ';'))
}

/// `Value::as_u64` of a number: digits only, of value that fits.
pub open spec fn position_value(v: JsonValue) -> Option<nat> {
    match v {
        JsonValue::Number(n) => if n@.len() > 0 && crate::process_writer::all_digits(n@) && digits_value(n@)
            <= u64::MAX {
            Some(digits_value(n@))
        } else {
            None
        },
        _ => None,
    }
}

/// The name of the indicator at a position of a data quality system (the
/// last one listed there).
pub open spec fn indicator_name(items: Seq<JsonValue>, pos: nat) -> Option<Seq<char>>
    decreases items.len(),
{
    if items.len() == 0 {
        None
    } else if (items.last().member("position"@) matches Some(p) && position_value(p) == Some(pos)
        && items.last().member_text("name"@) is Some) {
        items.last().member_text("name"@)
    } else {
        indicator_name(items.drop_last(), pos)
    }
}

/// The TIDAS indicator an openLCA indicator name stands for: the first
/// keyword its lower-case form contains decides.
pub open spec fn mapped_indicator(name: Seq<char>) -> Option<Seq<char>> {
    let n = crate::text::lower(name);
    if crate::text::contains(n, "complete"@) {
        Some("Completeness"@)
    } else if crate::text::contains(n, "temporal"@) || crate::text::contains(n, "time"@) {
        Some("Time representativeness"@)
    } else if crate::text::contains(n, "geograph"@) {
        Some("Geographical representativeness"@)
    } else if crate::text::contains(n, "technolog"@) {
        Some("Technological representativeness"@)
    } else if crate::text::contains(n, "reliab"@) {
        Some("Precision"@)
    } else if crate::text::contains(n, "review"@) || crate::text::contains(n, "data collection"@)
        || crate::text::contains(n, "method"@) {
        Some("Methodological appropriateness and consistency"@)
    } else {
        None
    }
}

pub open spec fn quality_level(score: u8) -> Option<Seq<char>> {
    if score == 1 {
        Some("Very good"@)
    } else if score == 2 {
        Some("Good"@)
    } else if score == 3 {
        Some("Fair"@)
    } else if score == 4 {
        Some("Poor"@)
    } else if score == 5 {
        Some("Very poor"@)
    } else {
        None
    }
}

pub open spec fn has_indicator(found: Seq<(Seq<char>, Seq<char>)>, name: Seq<char>) -> bool
    decreases found.len(),
{
    found.len() > 0 && (found.last().0 == name || has_indicator(found.drop_last(), name))
}

/// The indicators of the scores: the score at each position (from one) rates
/// the system's indicator there, mapped to its TIDAS name; the first rating of
/// each TIDAS indicator counts.
pub open spec fn rated(scores: Seq<u8>, items: Seq<JsonValue>) -> Seq<(Seq<char>, Seq<char>)>
    decreases scores.len(),
{
    if scores.len() == 0 {
        Seq::empty()
    } else {
        let prev = rated(scores.drop_last(), items);
        match indicator_name(items, scores.len() as nat) {
            Some(name) => match mapped_indicator(name) {
                Some(m) => match quality_level(scores.last()) {
                    Some(level) => if has_indicator(prev, m) {
                        prev
                    } else {
                        prev.push((m, level))
                    },
                    None => prev,
                },
                None => prev,
            },
            None => prev,
        }
    }
}

pub open spec fn indicator_json(r: (Seq<char>, Seq<char>)) -> JsonData {
    JsonData::Object(seq![("@name"@, JsonData::Text(r.0)), ("@value"@, JsonData::Text(r.1))])
}

/// The data quality indicators of a process's entry under a data quality system.
pub open spec fn quality_indicators_of(entry: Seq<char>, system: JsonValue) -> Seq<JsonData> {
    let items = match system.member("indicators"@) {
        Some(JsonValue::Array(items)) => items@,
        _ => Seq::empty(),
    };
    rated(scores_of(entry), items).map_values(|r: (Seq<char>, Seq<char>)| indicator_json(r))
}

fn strip_parens(s: &Vec<char>) -> (r: Vec<char>)
    ensures
        r@ == trim_end_parens(trim_start_parens(s@)),
{
    let n = s.len();
    let mut a: usize = 0;
    assert(s@.subrange(0, n as int) =~= s@);
    while a < n && (s[a] == '(' || s[a] == ')')
        invariant
            a <= n,
            n == s@.len(),
            trim_start_parens(s@) == trim_start_parens(s@.subrange(a as int, n as int)),
        decreases n - a,
    {
        assert(s@.subrange(a as int, n as int).drop_first() =~= s@.subrange(a + 1, n as int));
        a = a + 1;
    }
    let ghost head = s@.subrange(a as int, n as int);
    assert(trim_start_parens(s@) == head) by {
        if a < n {
            assert(head[0] == s@[a as int]);
        }
    }
    let mut b: usize = n;
    assert(head.subrange(0, (b - a) as int) =~= head);
    while b > a && (s[b - 1] == '(' || s[b - 1] == ')')
        invariant
            a <= b <= n,
            n == s@.len(),
            head == s@.subrange(a as int, n as int),
            trim_end_parens(head) == trim_end_parens(s@.subrange(a as int, b as int)),
        decreases b - a,
    {
        assert(s@.subrange(a as int, b as int).drop_last() =~= s@.subrange(a as int, b - 1));
        b = b - 1;
    }
    let mut out: Vec<char> = Vec::new();
    let mut k: usize = a;
    while k < b
        invariant
            a <= k <= b <= n,
            n == s@.len(),
            out@ == s@.subrange(a as int, k as int),
        decreases b - k,
    {
        out.push(s[k]);
        k = k + 1;
    }
    proof {
        let mid = s@.subrange(a as int, b as int);
        if b > a {
            assert(mid.last() == s@[b - 1]);
        }
        assert(trim_end_parens(mid) == mid);
    }
    out
}

proof fn lemma_digits_value_step(s: Seq<char>, c: char)
    ensures
        digits_value(s.push(c)) == digits_value(s) * 10 + ((c as nat) - ('0' as nat)) as nat,
{
    assert(s.push(c).drop_last() =~= s);
}

/// The value of a text of digits, capped: exact up to `cap`, `cap` beyond.
pub(crate) fn capped_digits(s: &[char], cap: u128) -> (r: Option<u128>)
    requires
        cap <= u128::MAX / 16,
    ensures
        match r {
            Some(v) => crate::process_writer::all_digits(s@) && v == (if digits_value(s@) < cap { digits_value(s@) } else { cap as nat }),
            None => !crate::process_writer::all_digits(s@),
        },
{
    let mut v: u128 = 0;
    let mut i: usize = 0;
    assert(s@.subrange(0, 0) =~= Seq::<char>::empty());
    while i < s.len()
        invariant
            i <= s@.len(),
            cap <= u128::MAX / 16,
            crate::process_writer::all_digits(s@.subrange(0, i as int)),
            v == (if digits_value(s@.subrange(0, i as int)) < cap { digits_value(s@.subrange(0, i as int)) } else { cap as nat }),
        decreases s@.len() - i,
    {
        let c = s[i];
        if !(c >= '0' && c <= '9') {
            return None;
        }
        let d = (c as u32 - '0' as u32) as u128;
        let ghost pre = s@.subrange(0, i as int);
        proof {
            lemma_digits_value_step(pre, c);
            assert(s@.subrange(0, i + 1) =~= pre.push(c));
        }
        let next = v * 10 + d;
        v = if next < cap { next } else { cap };
        i = i + 1;
    }
    assert(s@.subrange(0, s@.len() as int) =~= s@);
    Some(v)
}

fn parse_u8_of(s: &Vec<char>) -> (r: Option<u8>)
    ensures
        r == parse_u8(s@),
{
    let signed = s.len() > 0 && s[0] == '+';
    let mut d: Vec<char> = Vec::new();
    let mut k: usize = if signed { 1 } else { 0 };
    let start = k;
    while k < s.len()
        invariant
            start <= k <= s@.len(),
            start == (if signed { 1usize } else { 0usize }),
            signed ==> s@.len() > 0,
            d@ == s@.subrange(start as int, k as int),
        decreases s@.len() - k,
    {
        d.push(s[k]);
        k = k + 1;
    }
    proof {
        if signed {
            assert(d@ =~= s@.drop_first());
        } else {
            assert(d@ =~= s@);
        }
    }
    if d.len() == 0 {
        return None;
    }
    match capped_digits(d.as_slice(), 256) {
        Some(v) => if v <= 255 {
            Some(v as u8)
        } else {
            None
        },
        None => None,
    }
}

fn scores(entry: &str) -> (r: Vec<u8>)
    ensures
        r@ == scores_of(entry@),
{
    let t = chars_of(trim_str(entry).as_str());
    let inner = strip_parens(&t);
    let pieces = split_chars(inner.as_slice(), ';');
    let ghost ps = pieces@.map_values(|v: Vec<char>| v@);
    let mut out: Vec<u8> = Vec::new();
    let mut i: usize = 0;
    assert(ps.subrange(0, 0) =~= Seq::<Seq<char>>::empty());
    while i < pieces.len()
        invariant
            i <= pieces@.len(),
            ps == pieces@.map_values(|v: Vec<char>| v@),
            out@ == parsed_scores(ps.subrange(0, i as int)),
        decreases pieces@.len() - i,
    {
        let ghost sub = ps.subrange(0, i + 1);
        assert(sub.drop_last() =~= ps.subrange(0, i as int));
        assert(sub.last() == pieces@[i as int]@);
        let piece = crate::text::trim_chars(pieces[i].as_slice());
        match parse_u8_of(&piece) {
            Some(v) => out.push(v),
            None => {},
        }
        i = i + 1;
    }
    assert(ps.subrange(0, ps.len() as int) =~= ps);
    out
}

fn mapped_indicator_of(name: &str) -> (r: Option<&'static str>)
    ensures
        match r {
            Some(m) => mapped_indicator(name@) == Some(m@),
            None => mapped_indicator(name@) is None,
        },
{
    let lowered = crate::text::to_ascii_lowercase(name);
    let n = lowered.as_str();
    if str_contains(n, "complete") {
        Some("Completeness")
    } else if str_contains(n, "temporal") || str_contains(n, "time") {
        Some("Time representativeness")
    } else if str_contains(n, "geograph") {
        Some("Geographical representativeness")
    } else if str_contains(n, "technolog") {
        Some("Technological representativeness")
    } else if str_contains(n, "reliab") {
        Some("Precision")
    } else if str_contains(n, "review") || str_contains(n, "data collection") || str_contains(n, "method") {
        Some("Methodological appropriateness and consistency")
    } else {
        None
    }
}

fn quality_level_of(score: u8) -> (r: Option<&'static str>)
    ensures
        match r {
            Some(l) => quality_level(score) == Some(l@),
            None => quality_level(score) is None,
        },
{
    if score == 1 {
        Some("Very good")
    } else if score == 2 {
        Some("Good")
    } else if score == 3 {
        Some("Fair")
    } else if score == 4 {
        Some("Poor")
    } else if score == 5 {
        Some("Very poor")
    } else {
        None
    }
}

fn position_is(v: &JsonValue, pos: u64) -> (r: bool)
    ensures
        r == (position_value(*v) == Some(pos as nat)),
{
    match v {
        JsonValue::Number(n) => {
            let c = chars_of(n.as_str());
            if c.len() == 0 {
                return false;
            }
            let cap: u128 = 0x1_0000_0000_0000_0000;
            match capped_digits(c.as_slice(), cap) {
                Some(x) => {
                    if x >= cap {
                        false
                    } else {
                        x == pos as u128
                    }
                },
                None => false,
            }
        },
        _ => false,
    }
}

fn indicator_name_of(items: &Vec<JsonValue>, pos: u64) -> (r: Option<&str>)
    ensures
        crate::normalization::opt_str(r) == indicator_name(items@, pos as nat),
{
    let mut i: usize = items.len();
    assert(items@.subrange(0, i as int) =~= items@);
    while i > 0
        invariant
            i <= items@.len(),
            indicator_name(items@, pos as nat) == indicator_name(items@.subrange(0, i as int), pos as nat),
        decreases i,
    {
        let ghost sub = items@.subrange(0, i as int);
        assert(sub.last() == items@[i - 1]);
        assert(sub.drop_last() =~= items@.subrange(0, i - 1));
        let here = match items[i - 1].get("position") {
            Some(p) => position_is(p, pos),
            None => false,
        };
        if here {
            match items[i - 1].get_str("name") {
                Some(n) => {
                    return Some(n);
                },
                None => {},
            }
        }
        i = i - 1;
    }
    assert(items@.subrange(0, 0) =~= Seq::<JsonValue>::empty());
    None
}

fn has_indicator_of(found: &Vec<(&'static str, &'static str)>, name: &str) -> (r: bool)
    ensures
        r == has_indicator(found@.map_values(|p: (&'static str, &'static str)| (p.0@, p.1@)), name@),
{
    let ghost fs = found@.map_values(|p: (&'static str, &'static str)| (p.0@, p.1@));
    let mut k: usize = found.len();
    assert(fs.subrange(0, k as int) =~= fs);
    while k > 0
        invariant
            k <= found@.len(),
            fs == found@.map_values(|p: (&'static str, &'static str)| (p.0@, p.1@)),
            has_indicator(fs, name@) == has_indicator(fs.subrange(0, k as int), name@),
        decreases k,
    {
        let ghost sub = fs.subrange(0, k as int);
        assert(sub.last() == fs[k - 1]);
        assert(sub.drop_last() =~= fs.subrange(0, k - 1));
        if str_eq(found[k - 1].0, name) {
            return true;
        }
        k = k - 1;
    }
    false
}

/// The data quality indicators of a process (see `quality_indicators_of`).
pub fn data_quality_indicators(entry: &str, system: &JsonValue) -> (r: Vec<JsonValue>)
    ensures
        data_items(r@) == quality_indicators_of(entry@, *system),
{
    let none: Vec<JsonValue> = Vec::new();
    let items: &Vec<JsonValue> = match system.get("indicators") {
        Some(JsonValue::Array(items)) => items,
        _ => &none,
    };
    let ghost its = items@;
    assert(its == match system.member("indicators"@) {
        Some(JsonValue::Array(items)) => items@,
        _ => Seq::<JsonValue>::empty(),
    }) by {
        if !(system.member("indicators"@) matches Some(JsonValue::Array(_))) {
            assert(none@ =~= Seq::<JsonValue>::empty());
        }
    }
    let sc = scores(entry);
    let mut found: Vec<(&'static str, &'static str)> = Vec::new();
    let mut i: usize = 0;
    assert(sc@.subrange(0, 0) =~= Seq::<u8>::empty());
    while i < sc.len()
        invariant
            i <= sc@.len(),
            its == items@,
            found@.map_values(|p: (&'static str, &'static str)| (p.0@, p.1@)) == rated(sc@.subrange(0, i as int), its),
        decreases sc@.len() - i,
    {
        let ghost sub = sc@.subrange(0, i + 1);
        assert(sub.drop_last() =~= sc@.subrange(0, i as int));
        assert(sub.last() == sc@[i as int]);
        let ghost before = found@;
        match indicator_name_of(items, (i as u64) + 1) {
            Some(name) => match mapped_indicator_of(name) {
                Some(m) => match quality_level_of(sc[i]) {
                    Some(level) => {
                        if !has_indicator_of(&found, m) {
                            found.push((m, level));
                            assert(found@.map_values(|p: (&'static str, &'static str)| (p.0@, p.1@)) =~= before.map_values(
                                |p: (&'static str, &'static str)| (p.0@, p.1@),
                            ).push((m@, level@)));
                        }
                    },
                    None => {},
                },
                None => {},
            },
            None => {},
        }
        i = i + 1;
    }
    assert(sc@.subrange(0, sc@.len() as int) =~= sc@);
    let mut out: Vec<JsonValue> = Vec::new();
    let ghost rs = found@.map_values(|p: (&'static str, &'static str)| (p.0@, p.1@));
    let mut k: usize = 0;
    while k < found.len()
        invariant
            k <= found@.len(),
            rs == found@.map_values(|p: (&'static str, &'static str)| (p.0@, p.1@)),
            data_items(out@) == rs.subrange(0, k as int).map_values(|r: (Seq<char>, Seq<char>)| indicator_json(r)),
        decreases found@.len() - k,
    {
        let mut m: Vec<(String, JsonValue)> = Vec::new();
        push_member(&mut m, "@name", JsonValue::String(owned(found[k].0)));
        push_member(&mut m, "@value", JsonValue::String(owned(found[k].1)));
        let v = JsonValue::Object(m);
        proof {
            assert(data_members(m@) =~= seq![("@name"@, JsonData::Text(found@[k as int].0@)), ("@value"@, JsonData::Text(found@[k as int].1@))]);
            crate::openlca::lemma_data_items_push(out@, v);
            assert(rs.subrange(0, k + 1).map_values(|r: (Seq<char>, Seq<char>)| indicator_json(r)) =~= rs.subrange(0, k as int).map_values(
                |r: (Seq<char>, Seq<char>)| indicator_json(r),
            ).push(indicator_json(rs[k as int])));
        }
        out.push(v);
        k = k + 1;
    }
    assert(rs.subrange(0, rs.len() as int) =~= rs);
    out
}

} // verus!
