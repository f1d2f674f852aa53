//! The exchanges of a written process dataset: each exchange item with its
//! flow, direction, amounts, details, comment and import trace, and the text of
//! a process's functional unit.
use vstd::prelude::*;

use crate::flow_properties::nonblank;
use crate::json::{JsonData, JsonValue, data, data_members, push_member};
use crate::normalization::{opt_str, opt_view};
use crate::table::TextMap;
use crate::text::{chars_of, concat, concat3, is_digit, owned, split, split_chars, str_eq, string_of, trim_str};
use crate::units::lookup;
use crate::writers::{
    ProcessWriteError, dataset_ref, dataset_ref_json, exchange_metadata, exchange_metadata_json, localized,
    localized_json,
};

verus! {

// ---------------------------------------------------------------------------
// Reading an exchange
// ---------------------------------------------------------------------------

/// The text of a string member of an exchange.
pub open spec fn text_member(x: Map<Seq<char>, JsonValue>, key: Seq<char>) -> Option<Seq<char>> {
    match lookup(x, key) {
        Some(v) => v.text(),
        None => None,
    }
}

pub open spec fn text_or(t: Option<Seq<char>>, default: Seq<char>) -> Seq<char> {
    match t {
        Some(s) => s,
        None => default,
    }
}

fn text_member_of<'a>(x: &'a TextMap<JsonValue>, key: &str) -> (r: Option<&'a str>)
    ensures
        opt_str(r) == text_member(x.view(), key@),
{
    match x.get(key) {
        Some(v) => v.as_str(),
        None => None,
    }
}

fn text_or_of<'a>(t: Option<&'a str>, default: &'a str) -> (r: &'a str)
    ensures
        r@ == text_or(opt_str(t), default@),
{
    match t {
        Some(s) => s,
        None => default,
    }
}

/// The text of a process's functional unit: amount, unit and flow name of its
/// reference exchange (`0`, `unit` and `flow` where they are missing).
pub open spec fn functional_unit_text(x: Map<Seq<char>, JsonValue>) -> Seq<char> {
    text_or(text_member(x, "amount"@), "0"@) + " "@ + text_or(text_member(x, "unitName"@), "unit"@) + " "@
        + text_or(text_member(x, "flowName"@), "flow"@)
}

/// The functional unit text (see `functional_unit_text`).
pub fn functional_unit(exchange: &TextMap<JsonValue>) -> (r: String)
    ensures
        r@ == functional_unit_text(exchange.view()),
{
    let amount = text_or_of(text_member_of(exchange, "amount"), "0");
    let unit = text_or_of(text_member_of(exchange, "unitName"), "unit");
    let flow = text_or_of(text_member_of(exchange, "flowName"), "flow");
    let head = concat3(amount, " ", unit);
    concat3(head.as_str(), " ", flow)
}

// ---------------------------------------------------------------------------
// Relative standard deviation as a percentage
// ---------------------------------------------------------------------------

/// The text without the trailing copies of `c`.
pub open spec fn trim_end_char(s: Seq<char>, c: char) -> Seq<char>
    decreases s.len(),
{
    if s.len() > 0 && s.last() == c {
        trim_end_char(s.drop_last(), c)
    } else {
        s
    }
}

pub open spec fn all_digits(s: Seq<char>) -> bool {
    forall|i: int| 0 <= i < s.len() ==> is_digit(#[trigger] s[i])
}

/// A percentage as the written dataset takes it: the text of a string
/// (trimmed) or number, with trailing zeros of a fraction and a trailing point
/// dropped; accepted where, after an optional sign, it has at most five digits
/// and at most three of them after a single point.
pub open spec fn percentage_text(v: JsonValue) -> Option<Seq<char>> {
    let raw = match v {
        JsonValue::String(s) => Some(crate::text::trim(s@)),
        JsonValue::Number(n) => Some(n@),
        _ => None,
    };
    match raw {
        None => None,
        Some(t0) => {
            let text = if t0.contains('.') {
                trim_end_char(trim_end_char(t0, '0'), '.')
            } else {
                t0
            };
            let unsigned = if text.len() > 0 && (text[0] == '+' || text[0] == '-') {
                text.drop_first()
            } else {
                text
            };
            let parts = split(unsigned, '.');
            let integer = parts[0];
            let fraction = if parts.len() > 1 {
                parts[1]
            } else {
                Seq::empty()
            };
            if parts.len() > 2 || integer.len() == 0 || !all_digits(integer) || !all_digits(fraction) || fraction.len()
                > 3 || integer.len() + fraction.len() > 5 {
                None
            } else {
                Some(text)
            }
        },
    }
}

fn trim_end_char_of(s: Vec<char>, c: char) -> (r: Vec<char>)
    ensures
        r@ == trim_end_char(s@, c),
{
    let mut n: usize = s.len();
    assert(s@.subrange(0, n as int) =~= s@);
    while n > 0 && s[n - 1] == c
        invariant
            n <= s@.len(),
            trim_end_char(s@, c) == trim_end_char(s@.subrange(0, n as int), c),
        decreases n,
    {
        assert(s@.subrange(0, n as int).drop_last() =~= s@.subrange(0, n - 1));
        n = n - 1;
    }
    let mut v = s;
    v.truncate(n);
    v
}

fn has_char(s: &Vec<char>, c: char) -> (r: bool)
    ensures
        r == s@.contains(c),
{
    let mut i: usize = 0;
    while i < s.len()
        invariant
            i <= s@.len(),
            forall|k: int| 0 <= k < i ==> s@[k] != c,
        decreases s@.len() - i,
    {
        if s[i] == c {
            return true;
        }
        i = i + 1;
    }
    false
}

fn digits_only(s: &Vec<char>) -> (r: bool)
    ensures
        r == all_digits(s@),
{
    let mut i: usize = 0;
    while i < s.len()
        invariant
            i <= s@.len(),
            forall|k: int| 0 <= k < i ==> is_digit(#[trigger] s@[k]),
        decreases s@.len() - i,
    {
        if !(s[i] >= '0' && s[i] <= '9') {
            return false;
        }
        i = i + 1;
    }
    true
}

/// The percentage of a value (see `percentage_text`).
pub fn percentage(value: &JsonValue) -> (r: Option<String>)
    ensures
        opt_view(r) == percentage_text(*value),
{
    let t0 = match value {
        JsonValue::String(s) => chars_of(trim_str(s.as_str()).as_str()),
        JsonValue::Number(n) => chars_of(n.as_str()),
        _ => {
            return None;
        },
    };
    let text = if has_char(&t0, '.') {
        let a = trim_end_char_of(t0, '0');
        trim_end_char_of(a, '.')
    } else {
        t0
    };
    let signed = text.len() > 0 && (text[0] == '+' || text[0] == '-');
    let mut unsigned: Vec<char> = Vec::new();
    let mut i: usize = if signed {
        1
    } else {
        0
    };
    let start = i;
    while i < text.len()
        invariant
            start <= i <= text@.len(),
            start == (if signed { 1usize } else { 0usize }),
            signed ==> text@.len() > 0,
            unsigned@ == text@.subrange(start as int, i as int),
        decreases text@.len() - i,
    {
        unsigned.push(text[i]);
        i = i + 1;
    }
    proof {
        if signed {
            assert(unsigned@ =~= text@.drop_first());
        } else {
            assert(unsigned@ =~= text@);
        }
    }
    let parts = split_chars(unsigned.as_slice(), '.');
    proof {
        crate::text::lemma_split_nonempty(unsigned@, '.');
    }
    let ghost views = parts@.map_values(|v: Vec<char>| v@);
    assert(views[0] == parts@[0]@);
    let empty: Vec<char> = Vec::new();
    let fraction: &Vec<char> = if parts.len() > 1 {
        assert(views[1] == parts@[1]@);
        &parts[1]
    } else {
        &empty
    };
    let integer = &parts[0];
    if parts.len() > 2 || integer.len() == 0 || !digits_only(integer) || !digits_only(fraction) || fraction.len() > 3
        || integer.len().saturating_add(fraction.len()) > 5 {
        return None;
    }
    assert(fraction@ =~= (if views.len() > 1 { views[1] } else { Seq::<char>::empty() }));
    Some(string_of(text.as_slice()))
}

// ---------------------------------------------------------------------------
// The exchange item
// ---------------------------------------------------------------------------

/// The general comment of an exchange: where it came from (its EcoSpold 1
/// number, EcoSpold 2 id, or internal id), then its own comment, trimmed,
/// where it has one.
pub open spec fn comment_text(x: Map<Seq<char>, JsonValue>, internal_id: Seq<char>) -> Seq<char> {
    let first = match text_member(x, "sourceExchangeNumber"@) {
        Some(v) => "Source EcoSpold1 exchange number: "@ + v + "."@,
        None => match text_member(x, "sourceExchangeId"@) {
            Some(v) => "Source EcoSpold2 exchange id: "@ + v + "."@,
            None => "Source exchange internal id: "@ + internal_id + "."@,
        },
    };
    match nonblank(text_member(x, "generalComment"@)) {
        Some(c) => first + " "@ + c,
        None => first,
    }
}

fn comment_of(exchange: &TextMap<JsonValue>, internal_id: &str) -> (r: String)
    ensures
        r@ == comment_text(exchange.view(), internal_id@),
{
    let first = match text_member_of(exchange, "sourceExchangeNumber") {
        Some(v) => concat3("Source EcoSpold1 exchange number: ", v, "."),
        None => match text_member_of(exchange, "sourceExchangeId") {
            Some(v) => concat3("Source EcoSpold2 exchange id: ", v, "."),
            None => concat3("Source exchange internal id: ", internal_id, "."),
        },
    };
    let comment = match text_member_of(exchange, "generalComment") {
        Some(c) => {
            let t = trim_str(c);
            if t.as_str().is_empty() {
                None
            } else {
                Some(t)
            }
        },
        None => None,
    };
    match comment {
        Some(c) => concat3(first.as_str(), " ", c.as_str()),
        None => first,
    }
}

/// How the exchange's amount was derived: its own status where it is one the
/// dataset knows, else `Unknown derivation`.
pub open spec fn derivation_text(x: Map<Seq<char>, JsonValue>) -> Seq<char> {
    match text_member(x, "dataDerivationTypeStatus"@) {
        Some(s) => if s == "Measured"@ || s == "Calculated"@ || s == "Estimated"@ {
            s
        } else {
            "Unknown derivation"@
        },
        None => "Unknown derivation"@,
    }
}

/// The allocations of an exchange that name both their co-product and their
/// fraction, in order.
pub open spec fn allocation_items(items: Seq<JsonValue>) -> Seq<JsonData>
    decreases items.len(),
{
    if items.len() == 0 {
        Seq::empty()
    } else {
        let rest = allocation_items(items.drop_last());
        let a = items.last();
        match (a.member("internalReferenceToCoProduct"@), a.member("allocatedFraction"@)) {
            (Some(product), Some(fraction)) => rest.push(
                JsonData::Object(seq![("@allocatedFraction"@, data(fraction)), ("@internalReferenceToCoProduct"@, data(product))]),
            ),
            _ => rest,
        }
    }
}

/// The allocations member of an item, where there is at least one allocation.
pub open spec fn allocations_json(x: Map<Seq<char>, JsonValue>) -> Option<JsonData> {
    match lookup(x, "allocations"@) {
        Some(JsonValue::Array(items)) => if allocation_items(items@).len() > 0 {
            Some(JsonData::Object(seq![("allocation"@, JsonData::Array(allocation_items(items@)))]))
        } else {
            None
        },
        _ => None,
    }
}

pub open spec fn opt_data(v: Option<JsonValue>) -> Option<JsonData> {
    match v {
        Some(x) => Some(data(x)),
        None => None,
    }
}

/// A member where there is a value.
pub open spec fn opt_member(key: Seq<char>, v: Option<JsonData>) -> Seq<(Seq<char>, JsonData)> {
    match v {
        Some(d) => seq![(key, d)],
        None => Seq::empty(),
    }
}

pub open spec fn percentage_json(x: Map<Seq<char>, JsonValue>) -> Option<JsonData> {
    match lookup(x, "relativeStandardDeviation95In"@) {
        Some(v) => match percentage_text(v) {
            Some(p) => Some(JsonData::Text(p)),
            None => None,
        },
        None => None,
    }
}

/// The item of an exchange in a written process, members in key order; none
/// where the exchange names no flow.
pub open spec fn exchange_item_json(x: Map<Seq<char>, JsonValue>, internal_id: Seq<char>) -> Option<JsonData> {
    match text_member(x, "flowRefId"@) {
        None => None,
        Some(flow) => {
            let amount = JsonData::Text(text_or(text_member(x, "amount"@), "0"@));
            let direction = if lookup(x, "isInput"@) == Some(JsonValue::Bool(true)) {
                "Input"@
            } else {
                "Output"@
            };
            Some(
                JsonData::Object(
                    seq![("@dataSetInternalID"@, JsonData::Text(internal_id))]
                        + opt_member("allocations"@, allocations_json(x))
                        + seq![("common:other"@, exchange_metadata_json(x))]
                        + seq![("dataDerivationTypeStatus"@, JsonData::Text(derivation_text(x)))]
                        + seq![("exchangeDirection"@, JsonData::Text(direction))]
                        + seq![("generalComment"@, localized_json(comment_text(x, internal_id)))]
                        + opt_member("location"@, opt_data(lookup(x, "location"@)))
                        + opt_member("maximumAmount"@, opt_data(lookup(x, "maximumAmount"@)))
                        + seq![("meanAmount"@, amount)]
                        + opt_member("minimumAmount"@, opt_data(lookup(x, "minimumAmount"@)))
                        + seq![("referenceToFlowDataSet"@, dataset_ref_json("flow data set"@, flow,
                            text_or(text_member(x, "flowName"@), "Flow"@), "flows"@))]
                        + opt_member("relativeStandardDeviation95In"@, percentage_json(x))
                        + seq![("resultingAmount"@, amount)]
                        + opt_member("uncertaintyDistributionType"@, opt_data(lookup(x, "uncertaintyDistributionType"@))),
                ),
            )
        },
    }
}


fn push_opt(m: &mut Vec<(String, JsonValue)>, key: &str, value: Option<JsonValue>)
    ensures
        data_members(final(m)@) == data_members(old(m)@) + opt_member(key@, opt_data(value)),
{
    match value {
        Some(v) => push_member(m, key, v),
        None => {
            assert(data_members(m@) + Seq::<(Seq<char>, JsonData)>::empty() =~= data_members(m@));
        },
    }
}

fn copy_member(exchange: &TextMap<JsonValue>, key: &str) -> (r: Option<JsonValue>)
    ensures
        opt_data(r) == opt_data(lookup(exchange.view(), key@)),
{
    match exchange.get(key) {
        Some(v) => Some(v.duplicate()),
        None => None,
    }
}

fn allocations_of(exchange: &TextMap<JsonValue>) -> (r: Option<JsonValue>)
    ensures
        opt_data(r) == allocations_json(exchange.view()),
{
    let items = match exchange.get("allocations") {
        Some(JsonValue::Array(items)) => items,
        _ => {
            return None;
        },
    };
    let mut out: Vec<JsonValue> = Vec::new();
    let mut i: usize = 0;
    assert(items@.subrange(0, 0) =~= Seq::<JsonValue>::empty());
    while i < items.len()
        invariant
            i <= items@.len(),
            crate::json::data_items(out@) == allocation_items(items@.subrange(0, i as int)),
        decreases items@.len() - i,
    {
        let ghost sub = items@.subrange(0, i + 1);
        assert(sub.drop_last() =~= items@.subrange(0, i as int));
        assert(sub.last() == items@[i as int]);
        let a = &items[i];
        match (a.get("internalReferenceToCoProduct"), a.get("allocatedFraction")) {
            (Some(product), Some(fraction)) => {
                let mut m: Vec<(String, JsonValue)> = Vec::new();
                push_member(&mut m, "@allocatedFraction", fraction.duplicate());
                push_member(&mut m, "@internalReferenceToCoProduct", product.duplicate());
                let v = JsonValue::Object(m);
                proof {
                    assert(data_members(m@) =~= seq![("@allocatedFraction"@, data(*fraction)), ("@internalReferenceToCoProduct"@, data(*product))]);
                    crate::openlca::lemma_data_items_push(out@, v);
                }
                out.push(v);
            },
            _ => {},
        }
        i = i + 1;
    }
    assert(items@.subrange(0, items@.len() as int) =~= items@);
    if out.len() == 0 {
        proof {
            crate::json::lemma_data_items(out@);
        }
        return None;
    }
    proof {
        crate::json::lemma_data_items(out@);
    }
    let mut m: Vec<(String, JsonValue)> = Vec::new();
    push_member(&mut m, "allocation", JsonValue::Array(out));
    assert(data_members(m@) =~= seq![("allocation"@, JsonData::Array(allocation_items(items@)))]);
    Some(JsonValue::Object(m))
}

fn derivation_of(exchange: &TextMap<JsonValue>) -> (r: &'static str)
    ensures
        r@ == derivation_text(exchange.view()),
{
    match text_member_of(exchange, "dataDerivationTypeStatus") {
        Some(s) => if str_eq(s, "Measured") {
            "Measured"
        } else if str_eq(s, "Calculated") {
            "Calculated"
        } else if str_eq(s, "Estimated") {
            "Estimated"
        } else {
            "Unknown derivation"
        },
        None => "Unknown derivation",
    }
}

/// The item of an exchange in a written process (see `exchange_item_json`);
/// an exchange that names no flow is refused with its internal id.
pub fn exchange_item(exchange: &TextMap<JsonValue>, internal_id: &str) -> (r: Result<JsonValue, ProcessWriteError>)
    ensures
        match exchange_item_json(exchange.view(), internal_id@) {
            Some(d) => r matches Ok(v) && data(v) == d,
            None => r matches Err(ProcessWriteError::MissingFlowReference(id)) && id@ == internal_id@,
        },
{
    let ghost x = exchange.view();
    let flow_id = match text_member_of(exchange, "flowRefId") {
        Some(f) => f,
        None => {
            return Err(ProcessWriteError::MissingFlowReference(owned(internal_id)));
        },
    };
    let flow_name = text_or_of(text_member_of(exchange, "flowName"), "Flow");
    let amount = text_or_of(text_member_of(exchange, "amount"), "0");
    let input = match exchange.get("isInput") {
        Some(JsonValue::Bool(b)) => *b,
        _ => false,
    };
    let direction = if input {
        "Input"
    } else {
        "Output"
    };
    let percentage_value = match exchange.get("relativeStandardDeviation95In") {
        Some(v) => match percentage(v) {
            Some(p) => Some(JsonValue::String(p)),
            None => None,
        },
        None => None,
    };
    let mut m: Vec<(String, JsonValue)> = Vec::new();
    push_member(&mut m, "@dataSetInternalID", JsonValue::String(owned(internal_id)));
    assert(data_members(m@) =~= seq![("@dataSetInternalID"@, JsonData::Text(internal_id@))]);
    push_opt(&mut m, "allocations", allocations_of(exchange));
    push_member(&mut m, "common:other", exchange_metadata(exchange));
    push_member(&mut m, "dataDerivationTypeStatus", JsonValue::String(owned(derivation_of(exchange))));
    push_member(&mut m, "exchangeDirection", JsonValue::String(owned(direction)));
    push_member(&mut m, "generalComment", localized(comment_of(exchange, internal_id).as_str()));
    push_opt(&mut m, "location", copy_member(exchange, "location"));
    push_opt(&mut m, "maximumAmount", copy_member(exchange, "maximumAmount"));
    push_member(&mut m, "meanAmount", JsonValue::String(owned(amount)));
    push_opt(&mut m, "minimumAmount", copy_member(exchange, "minimumAmount"));
    push_member(&mut m, "referenceToFlowDataSet", dataset_ref("flow data set", flow_id, flow_name, "flows"));
    push_opt(&mut m, "relativeStandardDeviation95In", percentage_value);
    push_member(&mut m, "resultingAmount", JsonValue::String(owned(amount)));
    push_opt(&mut m, "uncertaintyDistributionType", copy_member(exchange, "uncertaintyDistributionType"));
    Ok(JsonValue::Object(m))
}

} // verus!
