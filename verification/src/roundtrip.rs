//! The semantic round trip of a release: both sides of a dataset are brought to
//! a normal form, and the first place where they differ is reported.
use vstd::prelude::*;

use crate::json::{JsonData, JsonValue, data, data_items, data_members, lemma_data_items, lemma_data_members};
use crate::text::{
    concat, concat3, decimal, decimal_string, ends_with, owned, str_ends_with, str_eq, text_lt,
};

verus! {

/// Object keys that strictly ascend, as in a parsed JSON object.
pub open spec fn keys_ascending(ms: Seq<(Seq<char>, JsonData)>) -> bool {
    forall|i: int, j: int| 0 <= i < j < ms.len() ==> text_lt(#[trigger] ms[i].0, #[trigger] ms[j].0)
}

/// Every object of a value has strictly ascending keys.
pub open spec fn ordered(d: JsonData) -> bool
    decreases d,
{
    match d {
        JsonData::Object(ms) => keys_ascending(ms) && ordered_members(ms),
        JsonData::Array(items) => ordered_items(items),
        _ => true,
    }
}

pub open spec fn ordered_members(ms: Seq<(Seq<char>, JsonData)>) -> bool
    decreases ms,
{
    ms.len() == 0 || (ordered(ms[0].1) && ordered_members(ms.subrange(1, ms.len() as int)))
}

pub open spec fn ordered_items(items: Seq<JsonData>) -> bool
    decreases items,
{
    items.len() == 0 || (ordered(items[0]) && ordered_items(items.subrange(1, items.len() as int)))
}

/// The normal form of a value under a member name: an empty object is `null`;
/// an array of one item is that item; booleans and numbers become their text;
/// a `@uri` ending in `.xml` ends in `.json` instead; members and items are
/// normalized in turn, members under their own names.
pub open spec fn normalized(d: JsonData, field: Option<Seq<char>>) -> JsonData
    decreases d,
{
    match d {
        JsonData::Object(ms) => if ms.len() == 0 {
            JsonData::Null
        } else {
            JsonData::Object(normalized_members(ms))
        },
        JsonData::Array(items) => {
            let n = normalized_items(items, field);
            if n.len() == 1 {
                n[0]
            } else {
                JsonData::Array(n)
            }
        },
        JsonData::Bool(b) => JsonData::Text(if b { "true"@ } else { "false"@ }),
        JsonData::Number(t) => JsonData::Text(t),
        JsonData::Text(t) => if field == Some("@uri"@) && ends_with(t, ".xml"@) {
            JsonData::Text(t.subrange(0, t.len() - 4) + ".json"@)
        } else {
            JsonData::Text(t)
        },
        JsonData::Null => JsonData::Null,
    }
}

pub open spec fn normalized_members(ms: Seq<(Seq<char>, JsonData)>) -> Seq<(Seq<char>, JsonData)>
    decreases ms,
{
    if ms.len() == 0 {
        Seq::empty()
    } else {
        seq![(ms[0].0, normalized(ms[0].1, Some(ms[0].0)))] + normalized_members(ms.subrange(1, ms.len() as int))
    }
}

pub open spec fn normalized_items(items: Seq<JsonData>, field: Option<Seq<char>>) -> Seq<JsonData>
    decreases items,
{
    if items.len() == 0 {
        Seq::empty()
    } else {
        seq![normalized(items[0], field)] + normalized_items(items.subrange(1, items.len() as int), field)
    }
}

pub proof fn lemma_normalized_items(items: Seq<JsonData>, field: Option<Seq<char>>)
    ensures
        normalized_items(items, field).len() == items.len(),
        forall|i: int| 0 <= i < items.len() ==> #[trigger] normalized_items(items, field)[i] == normalized(items[i], field),
    decreases items.len(),
{
    if items.len() > 0 {
        let rest = items.subrange(1, items.len() as int);
        lemma_normalized_items(rest, field);
        assert forall|i: int| 0 <= i < items.len() implies #[trigger] normalized_items(items, field)[i] == normalized(items[i], field) by {
            if i > 0 {
                assert(rest[i - 1] == items[i]);
            }
        }
    }
}

pub proof fn lemma_normalized_members(ms: Seq<(Seq<char>, JsonData)>)
    ensures
        normalized_members(ms).len() == ms.len(),
        forall|i: int| 0 <= i < ms.len() ==> #[trigger] normalized_members(ms)[i] == (ms[i].0, normalized(ms[i].1, Some(ms[i].0))),
    decreases ms.len(),
{
    if ms.len() > 0 {
        let rest = ms.subrange(1, ms.len() as int);
        lemma_normalized_members(rest);
        assert forall|i: int| 0 <= i < ms.len() implies #[trigger] normalized_members(ms)[i] == (ms[i].0, normalized(ms[i].1, Some(ms[i].0))) by {
            if i > 0 {
                assert(rest[i - 1] == ms[i]);
            }
        }
    }
}

pub proof fn lemma_ordered_members(ms: Seq<(Seq<char>, JsonData)>)
    requires
        ordered_members(ms),
    ensures
        forall|i: int| 0 <= i < ms.len() ==> ordered(#[trigger] ms[i].1),
    decreases ms.len(),
{
    if ms.len() > 0 {
        let rest = ms.subrange(1, ms.len() as int);
        lemma_ordered_members(rest);
        assert forall|i: int| 0 <= i < ms.len() implies ordered(#[trigger] ms[i].1) by {
            if i > 0 {
                assert(rest[i - 1] == ms[i]);
            }
        }
    }
}

pub proof fn lemma_ordered_items(items: Seq<JsonData>)
    requires
        ordered_items(items),
    ensures
        forall|i: int| 0 <= i < items.len() ==> ordered(#[trigger] items[i]),
    decreases items.len(),
{
    if items.len() > 0 {
        let rest = items.subrange(1, items.len() as int);
        lemma_ordered_items(rest);
        assert forall|i: int| 0 <= i < items.len() implies ordered(#[trigger] items[i]) by {
            if i > 0 {
                assert(rest[i - 1] == items[i]);
            }
        }
    }
}

pub open spec fn opt_text(o: Option<&str>) -> Option<Seq<char>> {
    match o {
        Some(s) => Some(s@),
        None => None,
    }
}

/// The normal form of a value (see `normalized`). The value's objects have
/// their members in key order, as parsed JSON objects do; the normal form keeps
/// that order.
pub fn normalize(value: &JsonValue, field_name: Option<&str>) -> (r: JsonValue)
    requires
        ordered(data(*value)),
    ensures
        data(r) == normalized(data(*value), opt_text(field_name)),
    decreases value,
{
    proof {
        reveal_strlit("true");
        reveal_strlit("false");
    }
    match value {
        JsonValue::Object(members) => {
            proof {
                lemma_data_members(members@);
                assert(ordered_members(data_members(members@)));
                lemma_ordered_members(data_members(members@));
                assert forall|k: int| 0 <= k < members@.len() implies ordered(data(#[trigger] members@[k].1)) by {
                    assert(data_members(members@)[k].1 == data(members@[k].1));
                }
            }
            if members.len() == 0 {
                return JsonValue::Null;
            }
            let mut out: Vec<(String, JsonValue)> = Vec::new();
            let mut i: usize = 0;
            while i < members.len()
                invariant
                    i <= members@.len(),
                    *value == JsonValue::Object(*members),
                    forall|k: int| 0 <= k < members@.len() ==> ordered(data(#[trigger] members@[k].1)),
                    out@.len() == i,
                    forall|k: int| 0 <= k < i ==> (#[trigger] out@[k]).0@ == members@[k].0@
                        && data(out@[k].1) == normalized(data(members@[k].1), Some(members@[k].0@)),
                decreases members@.len() - i,
            {
                proof {
                    assert(decreases_to!(*value => (*value)->Object_0));
                    vstd::std_specs::vec::axiom_vec_index_decreases(*members, i as int);
                    assert(decreases_to!(members@[i as int] => members@[i as int].1));
                }
                let child = normalize(&members[i].1, Some(members[i].0.as_str()));
                out.push((members[i].0.clone(), child));
                i = i + 1;
            }
            proof {
                lemma_data_members(out@);
                lemma_data_members(members@);
                lemma_normalized_members(data_members(members@));
                assert(data_members(out@) =~= normalized_members(data_members(members@)));
            }
            JsonValue::Object(out)
        },
        JsonValue::Array(items) => {
            proof {
                lemma_data_items(items@);
                assert(ordered_items(data_items(items@)));
                lemma_ordered_items(data_items(items@));
                assert forall|k: int| 0 <= k < items@.len() implies ordered(data(#[trigger] items@[k])) by {
                    assert(data_items(items@)[k] == data(items@[k]));
                }
            }
            let mut out: Vec<JsonValue> = Vec::new();
            let mut i: usize = 0;
            while i < items.len()
                invariant
                    i <= items@.len(),
                    *value == JsonValue::Array(*items),
                    forall|k: int| 0 <= k < items@.len() ==> ordered(data(#[trigger] items@[k])),
                    out@.len() == i,
                    forall|k: int| 0 <= k < i ==> data(#[trigger] out@[k]) == normalized(data(items@[k]), opt_text(field_name)),
                decreases items@.len() - i,
            {
                proof {
                    assert(decreases_to!(*value => (*value)->Array_0));
                    vstd::std_specs::vec::axiom_vec_index_decreases(*items, i as int);
                }
                out.push(normalize(&items[i], field_name));
                i = i + 1;
            }
            proof {
                lemma_data_items(out@);
                lemma_data_items(items@);
                lemma_normalized_items(data_items(items@), opt_text(field_name));
                assert(data_items(out@) =~= normalized_items(data_items(items@), opt_text(field_name)));
            }
            if out.len() == 1 {
                let single = out.pop();
                match single {
                    Some(v) => v,
                    None => JsonValue::Null,
                }
            } else {
                JsonValue::Array(out)
            }
        },
        JsonValue::Bool(b) => JsonValue::String(owned(if *b { "true" } else { "false" })),
        JsonValue::Number(n) => JsonValue::String(n.clone()),
        JsonValue::String(t) => {
            let is_uri = match field_name {
                Some(f) => str_eq(f, "@uri"),
                None => false,
            };
            if is_uri && str_ends_with(t.as_str(), ".xml") {
                let c = crate::text::chars_of(t.as_str());
                let mut prefix: Vec<char> = Vec::new();
                let mut k: usize = 0;
                proof {
                    reveal_strlit(".xml");
                }
                while k < c.len() - 4
                    invariant
                        c@ == t@,
                        c@.len() >= 4,
                        k <= c@.len() - 4,
                        prefix@ == c@.subrange(0, k as int),
                    decreases c@.len() - 4 - k,
                {
                    prefix.push(c[k]);
                    k = k + 1;
                    assert(prefix@ =~= c@.subrange(0, k as int));
                }
                let p = crate::text::string_of(prefix.as_slice());
                JsonValue::String(concat(p.as_str(), ".json"))
            } else {
                JsonValue::String(t.clone())
            }
        },
        JsonValue::Null => JsonValue::Null,
    }
}

/// The keys of an object's members, in order.
pub open spec fn member_keys(ms: Seq<(Seq<char>, JsonData)>) -> Seq<Seq<char>> {
    ms.map_values(|m: (Seq<char>, JsonData)| m.0)
}

/// The value of the first member with a key (`null` when there is none).
pub open spec fn lookup(ms: Seq<(Seq<char>, JsonData)>, key: Seq<char>) -> JsonData
    decreases ms.len(),
{
    if ms.len() == 0 {
        JsonData::Null
    } else if ms[0].0 == key {
        ms[0].1
    } else {
        lookup(ms.drop_first(), key)
    }
}

/// The first location, in document order, where two values differ: objects
/// with different key sequences, or arrays of different lengths, differ where
/// they stand; otherwise their members (looked up by key) and items are
/// compared in order; any other two values differ unless they are equal.
/// Numbers compare by their text.
pub open spec fn first_diff(a: JsonData, b: JsonData, location: Seq<char>) -> Option<Seq<char>>
    decreases a,
{
    match a {
        JsonData::Object(l) => match b {
            JsonData::Object(r) => if member_keys(l) != member_keys(r) {
                Some(location)
            } else {
                diff_members(l, r, location)
            },
            _ => Some(location),
        },
        JsonData::Array(l) => match b {
            JsonData::Array(r) => if l.len() != r.len() {
                Some(location)
            } else {
                diff_items(l, r, location, 0)
            },
            _ => Some(location),
        },
        _ => if a != b {
            Some(location)
        } else {
            None
        },
    }
}

pub open spec fn diff_members(l: Seq<(Seq<char>, JsonData)>, r: Seq<(Seq<char>, JsonData)>, location: Seq<char>) -> Option<Seq<char>>
    decreases l,
{
    if l.len() == 0 {
        None
    } else {
        match first_diff(l[0].1, lookup(r, l[0].0), location + "/"@ + l[0].0) {
            Some(x) => Some(x),
            None => diff_members(l.subrange(1, l.len() as int), r, location),
        }
    }
}

pub open spec fn diff_items(l: Seq<JsonData>, r: Seq<JsonData>, location: Seq<char>, first: nat) -> Option<Seq<char>>
    decreases l,
{
    if l.len() == 0 {
        None
    } else {
        match first_diff(l[0], r[0], location + "/"@ + decimal(first)) {
            Some(x) => Some(x),
            None => diff_items(l.subrange(1, l.len() as int), r.subrange(1, r.len() as int), location, first + 1),
        }
    }
}

pub open spec fn opt_view(o: Option<String>) -> Option<Seq<char>> {
    match o {
        Some(s) => Some(s@),
        None => None,
    }
}

/// The value of the first member with a key.
fn lookup_value<'a>(members: &'a Vec<(String, JsonValue)>, key: &str) -> (r: &'a JsonValue)
    requires
        member_keys(data_members(members@)).contains(key@),
    ensures
        data(*r) == lookup(data_members(members@), key@),
{
    let ghost dm = data_members(members@);
    proof {
        lemma_data_members(members@);
    }
    let mut i: usize = 0;
    assert(dm.subrange(0, dm.len() as int) =~= dm);
    while i < members.len()
        invariant
            i <= members@.len(),
            dm == data_members(members@),
            dm.len() == members@.len(),
            forall|k: int| 0 <= k < members@.len() ==> #[trigger] dm[k] == (members@[k].0@, data(members@[k].1)),
            lookup(dm, key@) == lookup(dm.subrange(i as int, dm.len() as int), key@),
            exists|k: int| i <= k < dm.len() && dm[k].0 == key@,
        decreases members@.len() - i,
    {
        let ghost rest = dm.subrange(i as int, dm.len() as int);
        assert(rest[0] == dm[i as int]);
        assert(rest.drop_first() =~= dm.subrange(i + 1, dm.len() as int));
        if str_eq(members[i].0.as_str(), key) {
            return &members[i].1;
        }
        i = i + 1;
    }
    proof {
        let k = choose|k: int| i <= k < dm.len() && dm[k].0 == key@;
    }
    &members[0].1
}

/// The first location where two values differ (see `first_diff`).
fn first_difference(left: &JsonValue, right: &JsonValue, location: &str) -> (r: Option<String>)
    ensures
        opt_view(r) == first_diff(data(*left), data(*right), location@),
    decreases left,
{
    match (left, right) {
        (JsonValue::Object(l), JsonValue::Object(rm)) => {
            let ghost dl = data_members(l@);
            let ghost dr = data_members(rm@);
            proof {
                lemma_data_members(l@);
                lemma_data_members(rm@);
            }
            let mut same = l.len() == rm.len();
            if !same {
                assert(member_keys(dl).len() != member_keys(dr).len());
            }
            let mut k: usize = 0;
            while same && k < l.len()
                invariant
                    k <= l@.len(),
                    dl == data_members(l@),
                    dr == data_members(rm@),
                    dl.len() == l@.len(),
                    dr.len() == rm@.len(),
                    forall|m: int| 0 <= m < l@.len() ==> #[trigger] dl[m] == (l@[m].0@, data(l@[m].1)),
                    forall|m: int| 0 <= m < rm@.len() ==> #[trigger] dr[m] == (rm@[m].0@, data(rm@[m].1)),
                    same ==> l@.len() == rm@.len() && forall|m: int| 0 <= m < k ==> dl[m].0 == dr[m].0,
                    !same ==> member_keys(dl) != member_keys(dr),
                decreases l@.len() - k,
            {
                if !str_eq(l[k].0.as_str(), rm[k].0.as_str()) {
                    same = false;
                    proof {
                        assert(member_keys(dl)[k as int] != member_keys(dr)[k as int]);
                    }
                }
                k = k + 1;
            }
            if !same {
                return Some(owned(location));
            }
            assert(member_keys(dl) =~= member_keys(dr));
            let mut i: usize = 0;
            assert(dl.subrange(0, dl.len() as int) =~= dl);
            while i < l.len()
                invariant
                    i <= l@.len(),
                    *left == JsonValue::Object(*l),
                    *right == JsonValue::Object(*rm),
                    dl == data_members(l@),
                    dr == data_members(rm@),
                    dl.len() == l@.len(),
                    member_keys(dl) == member_keys(dr),
                    forall|m: int| 0 <= m < l@.len() ==> #[trigger] dl[m] == (l@[m].0@, data(l@[m].1)),
                    diff_members(dl, dr, location@) == diff_members(dl.subrange(i as int, dl.len() as int), dr, location@),
                decreases l@.len() - i,
            {
                proof {
                    assert(decreases_to!(*left => (*left)->Object_0));
                    vstd::std_specs::vec::axiom_vec_index_decreases(*l, i as int);
                    assert(decreases_to!(l@[i as int] => l@[i as int].1));
                    assert(member_keys(dl)[i as int] == l@[i as int].0@);
                    assert(member_keys(dr).contains(l@[i as int].0@));
                }
                let ghost rest = dl.subrange(i as int, dl.len() as int);
                assert(rest[0] == dl[i as int]);
                assert(rest.subrange(1, rest.len() as int) =~= dl.subrange(i + 1, dl.len() as int));
                let other = lookup_value(rm, l[i].0.as_str());
                let child_location = concat3(location, "/", l[i].0.as_str());
                match first_difference(&l[i].1, other, child_location.as_str()) {
                    Some(x) => return Some(x),
                    None => {},
                }
                i = i + 1;
            }
            None
        },
        (JsonValue::Array(l), JsonValue::Array(rv)) => {
            let ghost dl = data_items(l@);
            let ghost dr = data_items(rv@);
            proof {
                lemma_data_items(l@);
                lemma_data_items(rv@);
            }
            if l.len() != rv.len() {
                return Some(owned(location));
            }
            let mut i: usize = 0;
            assert(dl.subrange(0, dl.len() as int) =~= dl);
            assert(dr.subrange(0, dr.len() as int) =~= dr);
            while i < l.len()
                invariant
                    i <= l@.len(),
                    l@.len() == rv@.len(),
                    *left == JsonValue::Array(*l),
                    *right == JsonValue::Array(*rv),
                    dl == data_items(l@),
                    dr == data_items(rv@),
                    dl.len() == l@.len(),
                    dr.len() == rv@.len(),
                    forall|m: int| 0 <= m < l@.len() ==> #[trigger] dl[m] == data(l@[m]),
                    forall|m: int| 0 <= m < rv@.len() ==> #[trigger] dr[m] == data(rv@[m]),
                    diff_items(dl, dr, location@, 0) == diff_items(
                        dl.subrange(i as int, dl.len() as int),
                        dr.subrange(i as int, dr.len() as int),
                        location@,
                        i as nat,
                    ),
                decreases l@.len() - i,
            {
                proof {
                    assert(decreases_to!(*left => (*left)->Array_0));
                    vstd::std_specs::vec::axiom_vec_index_decreases(*l, i as int);
                }
                let ghost lrest = dl.subrange(i as int, dl.len() as int);
                let ghost rrest = dr.subrange(i as int, dr.len() as int);
                assert(lrest[0] == dl[i as int]);
                assert(rrest[0] == dr[i as int]);
                assert(lrest.subrange(1, lrest.len() as int) =~= dl.subrange(i + 1, dl.len() as int));
                assert(rrest.subrange(1, rrest.len() as int) =~= dr.subrange(i + 1, dr.len() as int));
                let index_text = decimal_string(i as u64);
                let child_location = concat3(location, "/", index_text.as_str());
                match first_difference(&l[i], &rv[i], child_location.as_str()) {
                    Some(x) => return Some(x),
                    None => {},
                }
                i = i + 1;
            }
            None
        },
        (JsonValue::Object(_), _) | (JsonValue::Array(_), _) => Some(owned(location)),
        (JsonValue::Null, JsonValue::Null) => None,
        (JsonValue::Bool(a), JsonValue::Bool(b)) => if *a == *b {
            None
        } else {
            Some(owned(location))
        },
        (JsonValue::Number(a), JsonValue::Number(b)) => if str_eq(a.as_str(), b.as_str()) {
            None
        } else {
            Some(owned(location))
        },
        (JsonValue::String(a), JsonValue::String(b)) => if str_eq(a.as_str(), b.as_str()) {
            None
        } else {
            Some(owned(location))
        },
        _ => Some(owned(location)),
    }
}

/// Where a dataset and its round-tripped form first differ once both are in
/// normal form, from the root `$`; `None` when they agree.
pub fn semantic_difference(source: &JsonValue, converted: &JsonValue) -> (r: Option<String>)
    requires
        ordered(data(*source)),
        ordered(data(*converted)),
    ensures
        opt_view(r) == first_diff(
            normalized(data(*source), None),
            normalized(data(*converted), None),
            "$"@,
        ),
{
    let a = normalize(source, None);
    let b = normalize(converted, None);
    first_difference(&a, &b, "$")
}

pub proof fn lemma_ordered_items_from(items: Seq<JsonData>)
    requires
        forall|i: int| 0 <= i < items.len() ==> ordered(#[trigger] items[i]),
    ensures
        ordered_items(items),
    decreases items.len(),
{
    if items.len() > 0 {
        let rest = items.subrange(1, items.len() as int);
        assert forall|i: int| 0 <= i < rest.len() implies ordered(#[trigger] rest[i]) by {
            assert(rest[i] == items[i + 1]);
        }
        lemma_ordered_items_from(rest);
    }
}

pub proof fn lemma_ordered_members_from(ms: Seq<(Seq<char>, JsonData)>)
    requires
        forall|i: int| 0 <= i < ms.len() ==> ordered(#[trigger] ms[i].1),
    ensures
        ordered_members(ms),
    decreases ms.len(),
{
    if ms.len() > 0 {
        let rest = ms.subrange(1, ms.len() as int);
        assert forall|i: int| 0 <= i < rest.len() implies ordered(#[trigger] rest[i].1) by {
            assert(rest[i] == ms[i + 1]);
        }
        lemma_ordered_members_from(rest);
    }
}

/// The normal form of a value whose objects have their keys in order has its
/// keys in order too.
pub proof fn lemma_normalized_ordered(d: JsonData, field: Option<Seq<char>>)
    requires
        ordered(d),
    ensures
        ordered(normalized(d, field)),
    decreases d,
{
    match d {
        JsonData::Object(ms) => {
            if ms.len() > 0 {
                let n = normalized_members(ms);
                lemma_normalized_members(ms);
                lemma_ordered_members(ms);
                assert forall|i: int| 0 <= i < n.len() implies ordered(#[trigger] n[i].1) by {
                    lemma_normalized_ordered(ms[i].1, Some(ms[i].0));
                }
                lemma_ordered_members_from(n);
                assert forall|i: int, j: int| 0 <= i < j < n.len() implies text_lt(#[trigger] n[i].0, #[trigger] n[j].0) by {
                    assert(n[i].0 == ms[i].0 && n[j].0 == ms[j].0);
                }
            }
        },
        JsonData::Array(items) => {
            let n = normalized_items(items, field);
            lemma_normalized_items(items, field);
            lemma_ordered_items(items);
            assert forall|i: int| 0 <= i < n.len() implies ordered(#[trigger] n[i]) by {
                lemma_normalized_ordered(items[i], field);
            }
            lemma_ordered_items_from(n);
        },
        _ => {},
    }
}

/// In an object with keys in order, a member's key looks up its own value.
pub proof fn lemma_lookup_at(ms: Seq<(Seq<char>, JsonData)>, i: int)
    requires
        keys_ascending(ms),
        0 <= i < ms.len(),
    ensures
        lookup(ms, ms[i].0) == ms[i].1,
    decreases i,
{
    if i > 0 {
        assert(text_lt(ms[0].0, ms[i].0));
        crate::text::lemma_text_lt_irreflexive(ms[i].0);
        let rest = ms.drop_first();
        assert forall|a: int, b: int| 0 <= a < b < rest.len() implies text_lt(#[trigger] rest[a].0, #[trigger] rest[b].0) by {
            assert(rest[a] == ms[a + 1] && rest[b] == ms[b + 1]);
        }
        assert(rest[i - 1] == ms[i]);
        lemma_lookup_at(rest, i - 1);
    }
}

/// A value whose objects have their keys in order does not differ from itself.
pub proof fn lemma_first_diff_self(d: JsonData, location: Seq<char>)
    requires
        ordered(d),
    ensures
        first_diff(d, d, location) is None,
    decreases d,
{
    match d {
        JsonData::Object(ms) => {
            lemma_ordered_members(ms);
            assert forall|j: int| 0 <= j < ms.len() implies lookup(ms, (#[trigger] ms[j]).0) == ms[j].1 by {
                lemma_lookup_at(ms, j);
            }
            lemma_diff_members_self(ms, ms, location);
        },
        JsonData::Array(items) => {
            lemma_ordered_items(items);
            lemma_diff_items_self(items, location, 0);
        },
        _ => {},
    }
}

pub proof fn lemma_diff_members_self(t: Seq<(Seq<char>, JsonData)>, l: Seq<(Seq<char>, JsonData)>, location: Seq<char>)
    requires
        forall|j: int| 0 <= j < t.len() ==> lookup(l, (#[trigger] t[j]).0) == t[j].1 && ordered(t[j].1),
    ensures
        diff_members(t, l, location) is None,
    decreases t,
{
    if t.len() > 0 {
        assert(lookup(l, t[0].0) == t[0].1 && ordered(t[0].1));
        lemma_first_diff_self(t[0].1, location + "/"@ + t[0].0);
        let rest = t.subrange(1, t.len() as int);
        assert forall|j: int| 0 <= j < rest.len() implies lookup(l, (#[trigger] rest[j]).0) == rest[j].1 && ordered(rest[j].1) by {
            assert(rest[j] == t[j + 1]);
        }
        lemma_diff_members_self(rest, l, location);
    }
}

pub proof fn lemma_diff_items_self(t: Seq<JsonData>, location: Seq<char>, first: nat)
    requires
        forall|j: int| 0 <= j < t.len() ==> ordered(#[trigger] t[j]),
    ensures
        diff_items(t, t, location, first) is None,
    decreases t,
{
    if t.len() > 0 {
        lemma_first_diff_self(t[0], location + "/"@ + decimal(first));
        let rest = t.subrange(1, t.len() as int);
        assert forall|j: int| 0 <= j < rest.len() implies ordered(#[trigger] rest[j]) by {
            assert(rest[j] == t[j + 1]);
        }
        lemma_diff_items_self(rest, location, first + 1);
    }
}

/// A dataset that comes back from its round trip unchanged shows no semantic
/// difference: the comparison of a value's normal form with itself finds
/// nothing.
pub proof fn law_no_difference_with_itself(d: JsonData)
    requires
        ordered(d),
    ensures
        first_diff(normalized(d, None), normalized(d, None), "$"@) is None,
{
    lemma_normalized_ordered(d, None);
    lemma_first_diff_self(normalized(d, None), "$"@);
}

} // verus!
