//! The ILCD rules: which dataset a converted ILCD document holds, its identity,
//! name and classification, and the source fields kept for contacts, sources,
//! unit groups, flow properties, flows and processes, with the exchanges of a
//! process read on their own.
use vstd::prelude::*;

use crate::flow_properties::{localized_of, localized_text, text_of};
use crate::json::{JsonData, JsonValue, data, data_items, data_members, deref_opt, members_view, push_member, put_member};
use crate::model::CanonicalEntity;
use crate::normalization::{opt_str, opt_view, texts};
use crate::openlca::{parses_as_uuid, uuid_text};
use crate::openlca_entities::{entity_facts, fields, objects_in};
use crate::openlca_exchange::digits_value;
use crate::process_writer::{all_digits, text_or};
use crate::table::TextMap;
use crate::text::{chars_of, concat, concat3, decimal, decimal_string, lower, owned, str_eq, str_starts_with, to_ascii_lowercase, upper};
use crate::units::{json_view, lemma_json_view_insert};
use crate::writers::{stable_id, uuid_v5_url};

verus! {

// ---------------------------------------------------------------------------
// Reading a document
// ---------------------------------------------------------------------------

/// The member of an optional value.
pub open spec fn at(v: Option<JsonValue>, key: Seq<char>) -> Option<JsonValue> {
    match v {
        Some(x) => x.member(key),
        None => None,
    }
}

fn at_of<'a>(v: Option<&'a JsonValue>, key: &str) -> (r: Option<&'a JsonValue>)
    ensures
        deref_opt(r) == at(deref_opt(v), key@),
{
    match v {
        Some(x) => x.get(key),
        None => None,
    }
}

/// The text of an optional string value.
pub open spec fn scalar(v: Option<JsonValue>) -> Option<Seq<char>> {
    match v {
        Some(x) => x.text(),
        None => None,
    }
}

/// The items of a value: those of a list, else the value alone.
pub open spec fn items_of(v: JsonValue) -> Seq<JsonValue> {
    match v {
        JsonValue::Array(items) => items@,
        _ => seq![v],
    }
}

// ---------------------------------------------------------------------------
// Contacts and sources
// ---------------------------------------------------------------------------

/// The fields a contact keeps from its dataset information, with the names
/// they are kept under.
pub open spec fn contact_pairs() -> Seq<(Seq<char>, Seq<char>)> {
    seq![
        ("common:shortName"@, "shortName"@),
        ("email"@, "email"@),
        ("telephone"@, "telephone"@),
        ("WWWAddress"@, "website"@),
        ("contactAddress"@, "address"@),
        ("contactDescriptionOrComment"@, "description"@),
    ]
}

/// Texts copied under other names, where the information has them.
pub open spec fn texts_copied(m: Map<Seq<char>, JsonData>, info: JsonValue, pairs: Seq<(Seq<char>, Seq<char>)>) -> Map<Seq<char>, JsonData>
    decreases pairs.len(),
{
    if pairs.len() == 0 {
        m
    } else {
        let prev = texts_copied(m, info, pairs.drop_last());
        match localized_text(info.member(pairs.last().0)) {
            Some(t) => prev.insert(pairs.last().1, JsonData::Text(t)),
            None => prev,
        }
    }
}

pub open spec fn contact_fields(info: JsonValue) -> Map<Seq<char>, JsonData> {
    texts_copied(Map::empty(), info, contact_pairs())
}

fn copy_texts(m: &mut Vec<(String, JsonValue)>, info: &JsonValue, pairs: &Vec<(&'static str, &'static str)>)
    ensures
        fields(*final(m)) == texts_copied(fields(*old(m)), *info, pairs@.map_values(|p: (&'static str, &'static str)| (p.0@, p.1@))),
{
    let ghost ps = pairs@.map_values(|p: (&'static str, &'static str)| (p.0@, p.1@));
    let ghost start = fields(*m);
    let mut i: usize = 0;
    assert(ps.subrange(0, 0) =~= Seq::<(Seq<char>, Seq<char>)>::empty());
    while i < pairs.len()
        invariant
            i <= pairs@.len(),
            ps == pairs@.map_values(|p: (&'static str, &'static str)| (p.0@, p.1@)),
            fields(*m) == texts_copied(start, *info, ps.subrange(0, i as int)),
        decreases pairs@.len() - i,
    {
        let ghost sub = ps.subrange(0, i + 1);
        assert(sub.drop_last() =~= ps.subrange(0, i as int));
        assert(sub.last() == (pairs@[i as int].0@, pairs@[i as int].1@));
        match localized_of(info.get(pairs[i].0)) {
            Some(t) => put_member(m, pairs[i].1, JsonValue::String(owned(t))),
            None => {},
        }
        i = i + 1;
    }
    assert(ps.subrange(0, ps.len() as int) =~= ps);
}

fn contact_into(info: &JsonValue) -> (r: Vec<(String, JsonValue)>)
    ensures
        fields(r) == contact_fields(*info),
{
    let mut pairs: Vec<(&'static str, &'static str)> = Vec::new();
    pairs.push(("common:shortName", "shortName"));
    pairs.push(("email", "email"));
    pairs.push(("telephone", "telephone"));
    pairs.push(("WWWAddress", "website"));
    pairs.push(("contactAddress", "address"));
    pairs.push(("contactDescriptionOrComment", "description"));
    assert(pairs@.map_values(|p: (&'static str, &'static str)| (p.0@, p.1@)) =~= contact_pairs());
    let mut m: Vec<(String, JsonValue)> = Vec::new();
    assert(fields(m) =~= Map::<Seq<char>, JsonData>::empty());
    copy_texts(&mut m, info, &pairs);
    m
}

/// A web address (`http://` or `https://`, any case).
pub open spec fn is_web(uri: Seq<char>) -> bool {
    crate::text::starts_with(lower(uri), "http://"@) || crate::text::starts_with(lower(uri), "https://"@)
}

/// The addresses of a source's digital files, in order.
pub open spec fn file_uris(refs: Seq<JsonValue>) -> Seq<Seq<char>>
    decreases refs.len(),
{
    if refs.len() == 0 {
        Seq::empty()
    } else {
        match refs.last().member_text("@uri"@) {
            Some(u) => file_uris(refs.drop_last()).push(u),
            None => file_uris(refs.drop_last()),
        }
    }
}

pub open spec fn first_web(uris: Seq<Seq<char>>) -> Option<Seq<char>>
    decreases uris.len(),
{
    if uris.len() == 0 {
        None
    } else if is_web(uris[0]) {
        Some(uris[0])
    } else {
        first_web(uris.drop_first())
    }
}

pub open spec fn local_files(uris: Seq<Seq<char>>) -> Seq<JsonData>
    decreases uris.len(),
{
    if uris.len() == 0 {
        Seq::empty()
    } else if is_web(uris.last()) {
        local_files(uris.drop_last())
    } else {
        local_files(uris.drop_last()).push(JsonData::Text(uris.last()))
    }
}

/// A source keeps its short name, citation, publication type, description,
/// its first web address as its URL and its other files.
pub open spec fn source_fields(info: JsonValue) -> Map<Seq<char>, JsonData> {
    let m0 = match localized_text(info.member("common:shortName"@)) {
        Some(t) => Map::<Seq<char>, JsonData>::empty().insert("shortName"@, JsonData::Text(t)),
        None => Map::empty(),
    };
    let m1 = match info.member_text("sourceCitation"@) {
        Some(t) => m0.insert("sourceCitation"@, JsonData::Text(t)),
        None => m0,
    };
    let m2 = texts_copied(m1, info, seq![("publicationType"@, "publicationType"@), ("sourceDescriptionOrComment"@, "description"@)]);
    let uris = match info.member("referenceToDigitalFile"@) {
        Some(r) => file_uris(items_of(r)),
        None => Seq::empty(),
    };
    let m3 = match first_web(uris) {
        Some(u) => m2.insert("url"@, JsonData::Text(u)),
        None => m2,
    };
    if local_files(uris).len() > 0 {
        m3.insert("referenceToDigitalFile"@, JsonData::Array(local_files(uris)))
    } else {
        m3
    }
}

fn is_web_of(uri: &str) -> (r: bool)
    ensures
        r == is_web(uri@),
{
    let l = to_ascii_lowercase(uri);
    str_starts_with(l.as_str(), "http://") || str_starts_with(l.as_str(), "https://")
}

/// The addresses of the digital files a source refers to (see `file_uris`).
fn uris_of(r: &JsonValue) -> (out: Vec<&str>)
    ensures
        out@.map_values(|u: &str| u@) == file_uris(items_of(*r)),
{
    let mut uris: Vec<&str> = Vec::new();
    match r {
        JsonValue::Array(items) => {
            let mut i: usize = 0;
            assert(items@.subrange(0, 0) =~= Seq::<JsonValue>::empty());
            while i < items.len()
                invariant
                    i <= items@.len(),
                    uris@.map_values(|u: &str| u@) == file_uris(items@.subrange(0, i as int)),
                decreases items@.len() - i,
            {
                let ghost sub = items@.subrange(0, i + 1);
                assert(sub.drop_last() =~= items@.subrange(0, i as int));
                assert(sub.last() == items@[i as int]);
                match items[i].get_str("@uri") {
                    Some(u) => {
                        let ghost before = uris@;
                        uris.push(u);
                        assert(uris@.map_values(|u: &str| u@) =~= before.map_values(|u: &str| u@).push(u@));
                    },
                    None => {},
                }
                i = i + 1;
            }
            assert(items@.subrange(0, items@.len() as int) =~= items@);
            assert(items_of(*r) == items@);
            assert(uris@.map_values(|u: &str| u@) == file_uris(items_of(*r)));
        },
        _ => {
            let ghost one = seq![*r];
            assert(items_of(*r) == one);
            assert(one.drop_last() =~= Seq::<JsonValue>::empty());
            assert(one.last() == *r);
            assert(file_uris(one.drop_last()) == Seq::<Seq<char>>::empty());
            match r.get_str("@uri") {
                Some(u) => {
                    uris.push(u);
                    assert(uris@.map_values(|u: &str| u@) =~= seq![u@]);
                },
                None => {
                    assert(uris@.map_values(|u: &str| u@) =~= Seq::<Seq<char>>::empty());
                },
            }
        },
    }
    uris
}

fn source_into(info: &JsonValue) -> (r: Vec<(String, JsonValue)>)
    ensures
        fields(r) == source_fields(*info),
{
    let mut m: Vec<(String, JsonValue)> = Vec::new();
    assert(fields(m) =~= Map::<Seq<char>, JsonData>::empty());
    match localized_of(info.get("common:shortName")) {
        Some(t) => put_member(&mut m, "shortName", JsonValue::String(owned(t))),
        None => {},
    }
    match info.get_str("sourceCitation") {
        Some(t) => put_member(&mut m, "sourceCitation", JsonValue::String(owned(t))),
        None => {},
    }
    let mut pairs: Vec<(&'static str, &'static str)> = Vec::new();
    pairs.push(("publicationType", "publicationType"));
    pairs.push(("sourceDescriptionOrComment", "description"));
    assert(pairs@.map_values(|p: (&'static str, &'static str)| (p.0@, p.1@)) =~= seq![
        ("publicationType"@, "publicationType"@),
        ("sourceDescriptionOrComment"@, "description"@),
    ]);
    copy_texts(&mut m, info, &pairs);
    let uris: Vec<&str> = match info.get("referenceToDigitalFile") {
        Some(r) => uris_of(r),
        None => {
            let v: Vec<&str> = Vec::new();
            assert(v@.map_values(|u: &str| u@) =~= file_uris(Seq::<JsonValue>::empty()));
            v
        },
    };
    let ghost us = uris@.map_values(|u: &str| u@);
    let mut url: Option<&str> = None;
    let mut files: Vec<JsonValue> = Vec::new();
    let mut k: usize = 0;
    assert(us.subrange(0, 0) =~= Seq::<Seq<char>>::empty());
    assert(us.subrange(0, us.len() as int) =~= us);
    while k < uris.len()
        invariant
            k <= uris@.len(),
            us == uris@.map_values(|u: &str| u@),
            data_items(files@) == local_files(us.subrange(0, k as int)),
            first_web(us) == match url {
                Some(u) => Some(u@),
                None => first_web(us.subrange(k as int, us.len() as int)),
            },
        decreases uris@.len() - k,
    {
        let ghost pre = us.subrange(0, k + 1);
        let ghost suf = us.subrange(k as int, us.len() as int);
        assert(pre.drop_last() =~= us.subrange(0, k as int));
        assert(pre.last() == uris@[k as int]@);
        assert(suf[0] == uris@[k as int]@);
        assert(suf.drop_first() =~= us.subrange(k + 1, us.len() as int));
        if is_web_of(uris[k]) {
            if url.is_none() {
                url = Some(uris[k]);
            }
        } else {
            let v = JsonValue::String(owned(uris[k]));
            proof {
                crate::openlca::lemma_data_items_push(files@, v);
            }
            files.push(v);
        }
        k = k + 1;
    }
    assert(us.subrange(0, us.len() as int) =~= us);
    proof {
        if url is None {
            assert(us.subrange(us.len() as int, us.len() as int) =~= Seq::<Seq<char>>::empty());
        }
    }
    match url {
        Some(u) => put_member(&mut m, "url", JsonValue::String(owned(u))),
        None => {},
    }
    if files.len() > 0 {
        proof {
            crate::json::lemma_data_items(files@);
        }
        put_member(&mut m, "referenceToDigitalFile", JsonValue::Array(files));
    } else {
        proof {
            crate::json::lemma_data_items(files@);
        }
    }
    m
}

// ---------------------------------------------------------------------------
// Unit groups and flow properties
// ---------------------------------------------------------------------------

/// The units of a unit group: each unit object with its name, factor and
/// whether it is the group's reference unit (by internal id, `1` where it has
/// none), in order.
pub open spec fn unit_items(items: Seq<JsonValue>, reference: Option<Seq<char>>) -> Seq<JsonData>
    decreases items.len(),
{
    if items.len() == 0 {
        Seq::empty()
    } else {
        let prev = unit_items(items.drop_last(), reference);
        let u = items.last();
        if u is Object {
            prev.push(
                JsonData::Object(seq![
                    ("conversionFactor"@, JsonData::Text(text_or(u.member_text("meanValue"@), "1"@))),
                    ("name"@, JsonData::Text(text_or(u.member_text("name"@), "unit"@))),
                    ("referenceUnit"@, JsonData::Bool(reference == Some(text_or(u.member_text("@dataSetInternalID"@), "1"@)))),
                ]),
            )
        } else {
            prev
        }
    }
}

/// A unit group keeps its units.
pub open spec fn unit_group_fields(dataset: JsonValue) -> Map<Seq<char>, JsonData> {
    let reference = scalar(at(at(dataset.member("unitGroupInformation"@), "quantitativeReference"@), "referenceToReferenceUnit"@));
    let units = match at(dataset.member("units"@), "unit"@) {
        Some(u) => unit_items(items_of(u), reference),
        None => Seq::empty(),
    };
    Map::empty().insert("units"@, JsonData::Array(units))
}

fn text_or_str<'a>(t: Option<&'a str>, default: &'a str) -> (r: &'a str)
    ensures
        r@ == text_or(opt_str(t), default@),
{
    match t {
        Some(s) => s,
        None => default,
    }
}

fn unit_item(u: &JsonValue, reference: Option<&str>) -> (r: JsonValue)
    requires
        u is Object,
    ensures
        data(r) == JsonData::Object(seq![
            ("conversionFactor"@, JsonData::Text(text_or(u.member_text("meanValue"@), "1"@))),
            ("name"@, JsonData::Text(text_or(u.member_text("name"@), "unit"@))),
            ("referenceUnit"@, JsonData::Bool(opt_str(reference) == Some(text_or(u.member_text("@dataSetInternalID"@), "1"@)))),
        ]),
{
    let internal = text_or_str(u.get_str("@dataSetInternalID"), "1");
    let is_reference = match reference {
        Some(r) => str_eq(r, internal),
        None => false,
    };
    let mut m: Vec<(String, JsonValue)> = Vec::new();
    push_member(&mut m, "conversionFactor", JsonValue::String(owned(text_or_str(u.get_str("meanValue"), "1"))));
    push_member(&mut m, "name", JsonValue::String(owned(text_or_str(u.get_str("name"), "unit"))));
    push_member(&mut m, "referenceUnit", JsonValue::Bool(is_reference));
    assert(data_members(m@) =~= seq![
        ("conversionFactor"@, JsonData::Text(text_or(u.member_text("meanValue"@), "1"@))),
        ("name"@, JsonData::Text(text_or(u.member_text("name"@), "unit"@))),
        ("referenceUnit"@, JsonData::Bool(opt_str(reference) == Some(text_or(u.member_text("@dataSetInternalID"@), "1"@)))),
    ]);
    JsonValue::Object(m)
}

fn unit_group_into(dataset: &JsonValue) -> (r: Vec<(String, JsonValue)>)
    ensures
        fields(r) == unit_group_fields(*dataset),
{
    let reference = text_of(at_of(at_of(dataset.get("unitGroupInformation"), "quantitativeReference"), "referenceToReferenceUnit"));
    let mut units: Vec<JsonValue> = Vec::new();
    assert(data_items(units@) =~= Seq::<JsonData>::empty());
    match at_of(dataset.get("units"), "unit") {
        Some(JsonValue::Array(items)) => {
            let mut i: usize = 0;
            assert(items@.subrange(0, 0) =~= Seq::<JsonValue>::empty());
            while i < items.len()
                invariant
                    i <= items@.len(),
                    data_items(units@) == unit_items(items@.subrange(0, i as int), opt_str(reference)),
                decreases items@.len() - i,
            {
                let ghost sub = items@.subrange(0, i + 1);
                assert(sub.drop_last() =~= items@.subrange(0, i as int));
                assert(sub.last() == items@[i as int]);
                if items[i].as_object().is_some() {
                    let v = unit_item(&items[i], reference);
                    proof {
                        crate::openlca::lemma_data_items_push(units@, v);
                    }
                    units.push(v);
                }
                i = i + 1;
            }
            assert(items@.subrange(0, items@.len() as int) =~= items@);
        },
        Some(other) => {
            let ghost one = seq![*other];
            assert(one.drop_last() =~= Seq::<JsonValue>::empty());
            assert(one.last() == *other);
            assert(items_of(*other) == one);
            assert(unit_items(one.drop_last(), opt_str(reference)) == Seq::<JsonData>::empty());
            if other.as_object().is_some() {
                let v = unit_item(other, reference);
                proof {
                    crate::openlca::lemma_data_items_push(units@, v);
                }
                units.push(v);
            }
        },
        None => {},
    }
    assert(data_items(units@) == match at(dataset.member("units"@), "unit"@) {
        Some(u) => unit_items(items_of(u), opt_str(reference)),
        None => Seq::<JsonData>::empty(),
    });
    let mut m: Vec<(String, JsonValue)> = Vec::new();
    assert(fields(m) =~= Map::<Seq<char>, JsonData>::empty());
    put_member(&mut m, "units", JsonValue::Array(units));
    m
}

/// A flow property keeps the id and the name of its unit group.
pub open spec fn flow_property_fields(dataset: JsonValue) -> Map<Seq<char>, JsonData> {
    match at(at(dataset.member("flowPropertiesInformation"@), "quantitativeReference"@), "referenceToReferenceUnitGroup"@) {
        Some(r) if r is Object => {
            let m0 = match r.member_text("@refObjectId"@) {
                Some(id) => Map::<Seq<char>, JsonData>::empty().insert("unitGroupRefId"@, JsonData::Text(id)),
                None => Map::empty(),
            };
            match localized_text(r.member("common:shortDescription"@)) {
                Some(n) => m0.insert("unitGroupName"@, JsonData::Text(n)),
                None => m0,
            }
        },
        _ => Map::empty(),
    }
}

fn flow_property_into(dataset: &JsonValue) -> (r: Vec<(String, JsonValue)>)
    ensures
        fields(r) == flow_property_fields(*dataset),
{
    let mut m: Vec<(String, JsonValue)> = Vec::new();
    assert(fields(m) =~= Map::<Seq<char>, JsonData>::empty());
    match at_of(at_of(dataset.get("flowPropertiesInformation"), "quantitativeReference"), "referenceToReferenceUnitGroup") {
        Some(r) => if r.as_object().is_some() {
            match r.get_str("@refObjectId") {
                Some(id) => put_member(&mut m, "unitGroupRefId", JsonValue::String(owned(id))),
                None => {},
            }
            match localized_of(r.get("common:shortDescription")) {
                Some(n) => put_member(&mut m, "unitGroupName", JsonValue::String(owned(n))),
                None => {},
            }
        },
        None => {},
    }
    m
}

// ---------------------------------------------------------------------------
// Flows
// ---------------------------------------------------------------------------

/// The objects among the items of an optional value.
pub open spec fn object_items(v: Option<JsonValue>) -> Seq<JsonValue> {
    match v {
        Some(x) => objects_in(items_of(x)),
        None => Seq::empty(),
    }
}

/// A flow property of an ILCD flow, at a position among the flow property
/// objects: its id, name, whether it is the reference (by internal id; every
/// property where the flow names no reference), and its source fields.
pub open spec fn assignment_of(item: JsonValue, order: nat, reference: Option<Seq<char>>) -> Option<(Seq<char>, Seq<char>, bool, JsonData)> {
    match item.member("referenceToFlowPropertyDataSet"@) {
        Some(r) if r is Object => match r.member_text("@refObjectId"@) {
            Some(id) => {
                let name = text_or(localized_text(r.member("common:shortDescription"@)), "Flow property"@);
                let internal = item.member_text("@dataSetInternalID"@);
                let is_reference = reference is None || internal == reference;
                let version = match r.member_text("@version"@) {
                    Some(v) => seq![("@version"@, JsonData::Text(v))],
                    None => Seq::empty(),
                };
                let property = JsonData::Object(seq![("@id"@, JsonData::Text(id))] + version + seq![("name"@, JsonData::Text(name))]);
                Some(
                    (
                        id,
                        name,
                        is_reference,
                        JsonData::Object(seq![
                            ("conversionFactor"@, JsonData::Text(text_or(item.member_text("meanValue"@), "1"@))),
                            ("flowProperty"@, property),
                            ("isRefFlowProperty"@, JsonData::Bool(is_reference)),
                            ("sourceEvidence"@, JsonData::Object(seq![
                                ("format"@, JsonData::Text("ilcd"@)),
                                ("sourceInternalId"@, match internal {
                                    Some(t) => JsonData::Text(t),
                                    None => JsonData::Null,
                                }),
                                ("sourcePath"@, JsonData::Text("flowProperties.flowProperty["@ + decimal(order) + "]"@)),
                            ])),
                        ]),
                    ),
                )
            },
            None => None,
        },
        _ => None,
    }
}

/// The flow properties of the flow property objects, in order.
pub open spec fn assignments(objs: Seq<JsonValue>, reference: Option<Seq<char>>) -> Seq<(Seq<char>, Seq<char>, bool, JsonData)>
    decreases objs.len(),
{
    if objs.len() == 0 {
        Seq::empty()
    } else {
        match assignment_of(objs.last(), (objs.len() - 1) as nat, reference) {
            Some(a) => assignments(objs.drop_last(), reference).push(a),
            None => assignments(objs.drop_last(), reference),
        }
    }
}

pub open spec fn first_reference(asg: Seq<(Seq<char>, Seq<char>, bool, JsonData)>) -> Option<(Seq<char>, Seq<char>)>
    decreases asg.len(),
{
    if asg.len() == 0 {
        None
    } else if asg[0].2 {
        Some((asg[0].0, asg[0].1))
    } else {
        first_reference(asg.drop_first())
    }
}

/// An elementary flow category: its level and text are required.
pub open spec fn category_items(items: Seq<JsonValue>) -> Seq<JsonData>
    decreases items.len(),
{
    if items.len() == 0 {
        Seq::empty()
    } else {
        let prev = category_items(items.drop_last());
        let c = items.last();
        match (c.member_text("@level"@), localized_text(Some(c))) {
            (Some(level), Some(text)) => prev.push(
                JsonData::Object(seq![
                    ("catId"@, match c.member_text("@catId"@) {
                        Some(t) => JsonData::Text(t),
                        None => JsonData::Null,
                    }),
                    ("level"@, JsonData::Text(level)),
                    ("text"@, JsonData::Text(text)),
                ]),
            ),
            _ => prev,
        }
    }
}

pub open spec fn name_item(dsi: Option<JsonValue>, field: Seq<char>) -> Seq<(Seq<char>, JsonData)> {
    match localized_text(at(at(dsi, "name"@), field)) {
        Some(t) => seq![(field, JsonData::Text(t))],
        None => Seq::empty(),
    }
}

/// The name parts of an ILCD flow, in key order.
pub open spec fn name_members(dsi: Option<JsonValue>) -> Seq<(Seq<char>, JsonData)> {
    name_item(dsi, "flowProperties"@) + name_item(dsi, "mixAndLocationTypes"@) + name_item(dsi, "treatmentStandardsRoutes"@)
}

/// Spaces made underscores.
pub open spec fn underscored(s: Seq<char>) -> Seq<char> {
    s.map_values(|c: char| if c == ' ' { '_' } else { c })
}

/// A flow keeps its name parts, its type (upper case, underscores for
/// spaces; a product flow where it names none), CAS number, formula, flow
/// properties with the reference among them, and elementary categories.
pub open spec fn flow_fields(dataset: JsonValue) -> Map<Seq<char>, JsonData> {
    let dsi = at(dataset.member("flowInformation"@), "dataSetInformation"@);
    let m0 = if name_members(dsi).len() > 0 {
        Map::<Seq<char>, JsonData>::empty().insert("flowName"@, JsonData::Object(name_members(dsi)))
    } else {
        Map::empty()
    };
    let m1 = m0.insert(
        "flowType"@,
        JsonData::Text(underscored(upper(text_or(scalar(at(at(dataset.member("modellingAndValidation"@), "LCIMethod"@),
            "typeOfDataSet"@)), "Product flow"@)))),
    );
    let m2 = match scalar(at(dsi, "CASNumber"@)) {
        Some(t) => m1.insert("CASNumber"@, JsonData::Text(t)),
        None => m1,
    };
    let m3 = match scalar(at(dsi, "sumFormula"@)) {
        Some(t) => m2.insert("sumFormula"@, JsonData::Text(t)),
        None => m2,
    };
    let reference = scalar(at(at(dataset.member("flowInformation"@), "quantitativeReference"@), "referenceToReferenceFlowProperty"@));
    let asg = assignments(object_items(at(dataset.member("flowProperties"@), "flowProperty"@)), reference);
    let m4 = if asg.len() > 0 {
        let with_reference = match first_reference(asg) {
            Some((id, name)) => m3.insert("flowPropertyRefId"@, JsonData::Text(id)).insert("flowPropertyName"@, JsonData::Text(name)),
            None => m3,
        };
        with_reference.insert("flowProperties"@, JsonData::Array(asg.map_values(|a: (Seq<char>, Seq<char>, bool, JsonData)| a.3)))
    } else {
        m3
    };
    let categories = match at(at(at(dsi, "classificationInformation"@), "common:elementaryFlowCategorization"@), "common:category"@) {
        Some(c) => category_items(items_of(c)),
        None => Seq::empty(),
    };
    if categories.len() > 0 {
        m4.insert("elementaryCategorization"@, JsonData::Array(categories))
    } else {
        m4
    }
}

/// The objects among the items of an optional value, in order.
fn object_items_of(v: Option<&JsonValue>) -> (r: Vec<&JsonValue>)
    ensures
        r@.map_values(|x: &JsonValue| *x) == object_items(deref_opt(v)),
{
    let mut out: Vec<&JsonValue> = Vec::new();
    match v {
        Some(JsonValue::Array(items)) => {
            let mut i: usize = 0;
            assert(items@.subrange(0, 0) =~= Seq::<JsonValue>::empty());
            while i < items.len()
                invariant
                    i <= items@.len(),
                    out@.map_values(|x: &JsonValue| *x) == objects_in(items@.subrange(0, i as int)),
                decreases items@.len() - i,
            {
                let ghost sub = items@.subrange(0, i + 1);
                assert(sub.drop_last() =~= items@.subrange(0, i as int));
                assert(sub.last() == items@[i as int]);
                if items[i].as_object().is_some() {
                    let ghost before = out@;
                    let r = &items[i];
                    out.push(r);
                    assert(out@.map_values(|x: &JsonValue| *x) =~= before.map_values(|x: &JsonValue| *x).push(*r));
                }
                i = i + 1;
            }
            assert(items@.subrange(0, items@.len() as int) =~= items@);
            assert(object_items(deref_opt(v)) == objects_in(items@));
        },
        Some(x) => {
            let ghost one = seq![*x];
            assert(one.drop_last() =~= Seq::<JsonValue>::empty());
            assert(one.last() == *x);
            assert(items_of(*x) == one);
            assert(objects_in(one.drop_last()) == Seq::<JsonValue>::empty());
            if x.as_object().is_some() {
                out.push(x);
                assert(out@.map_values(|x: &JsonValue| *x) =~= seq![*x]);
            } else {
                assert(out@.map_values(|x: &JsonValue| *x) =~= Seq::<JsonValue>::empty());
            }
        },
        None => {
            assert(out@.map_values(|x: &JsonValue| *x) =~= Seq::<JsonValue>::empty());
        },
    }
    out
}

fn assignment_value(item: &JsonValue, order: usize, reference: Option<&str>) -> (r: Option<(String, String, bool, JsonValue)>)
    ensures
        match assignment_of(*item, order as nat, opt_str(reference)) {
            Some(a) => r matches Some((id, name, is_ref, v)) && id@ == a.0 && name@ == a.1 && is_ref == a.2 && data(v) == a.3,
            None => r is None,
        },
{
    let r = match item.get("referenceToFlowPropertyDataSet") {
        Some(r) => r,
        None => {
            return None;
        },
    };
    if r.as_object().is_none() {
        return None;
    }
    let id = match r.get_str("@refObjectId") {
        Some(id) => id,
        None => {
            return None;
        },
    };
    let name = text_or_str(localized_of(r.get("common:shortDescription")), "Flow property");
    let internal = item.get_str("@dataSetInternalID");
    let is_reference = match reference {
        None => true,
        Some(rf) => match internal {
            Some(i) => str_eq(i, rf),
            None => false,
        },
    };
    let mut property: Vec<(String, JsonValue)> = Vec::new();
    push_member(&mut property, "@id", JsonValue::String(owned(id)));
    match r.get_str("@version") {
        Some(v) => push_member(&mut property, "@version", JsonValue::String(owned(v))),
        None => {
            assert(data_members(property@) + Seq::<(Seq<char>, JsonData)>::empty() =~= data_members(property@));
        },
    }
    push_member(&mut property, "name", JsonValue::String(owned(name)));
    let mut evidence: Vec<(String, JsonValue)> = Vec::new();
    push_member(&mut evidence, "format", JsonValue::String(owned("ilcd")));
    push_member(&mut evidence, "sourceInternalId", match internal {
        Some(t) => JsonValue::String(owned(t)),
        None => JsonValue::Null,
    });
    let path = concat3("flowProperties.flowProperty[", decimal_string(order as u64).as_str(), "]");
    push_member(&mut evidence, "sourcePath", JsonValue::String(path));
    let ghost version = match r.member_text("@version"@) {
        Some(v) => seq![("@version"@, JsonData::Text(v))],
        None => Seq::<(Seq<char>, JsonData)>::empty(),
    };
    assert(data_members(property@) =~= seq![("@id"@, JsonData::Text(id@))] + version + seq![("name"@, JsonData::Text(name@))]);
    assert(data_members(evidence@) =~= seq![
        ("format"@, JsonData::Text("ilcd"@)),
        ("sourceInternalId"@, match opt_str(internal) {
            Some(t) => JsonData::Text(t),
            None => JsonData::Null,
        }),
        ("sourcePath"@, JsonData::Text("flowProperties.flowProperty["@ + decimal(order as nat) + "]"@)),
    ]);
    let ghost found = assignment_of(*item, order as nat, opt_str(reference))->Some_0;
    let ghost want = found.3;
    let pv = JsonValue::Object(property);
    let ev = JsonValue::Object(evidence);
    let cf = JsonValue::String(owned(text_or_str(item.get_str("meanValue"), "1")));
    assert(data(pv) == want->Object_0[1].1);
    assert(want->Object_0[3].0 == "sourceEvidence"@);
    let ghost wev = want->Object_0[3].1->Object_0;
    assert(wev[0] == data_members(evidence@)[0]);
    assert(wev[1] == data_members(evidence@)[1]);
    assert(wev[2] == data_members(evidence@)[2]);
    assert(wev.len() == 3);
    assert(wev =~= data_members(evidence@));
    assert(want->Object_0[3].1 == JsonData::Object(wev));
    assert(data(ev) == want->Object_0[3].1);
    assert(data(cf) == want->Object_0[0].1);
    let mut m: Vec<(String, JsonValue)> = Vec::new();
    push_member(&mut m, "conversionFactor", cf);
    push_member(&mut m, "flowProperty", pv);
    push_member(&mut m, "isRefFlowProperty", JsonValue::Bool(is_reference));
    push_member(&mut m, "sourceEvidence", ev);
    assert(assignment_of(*item, order as nat, opt_str(reference)) is Some);
    assert(found.0 == id@);
    assert(found.1 == name@);
    assert(found.2 == is_reference);
    assert(data_members(m@) =~= want->Object_0);
    Some((owned(id), owned(name), is_reference, JsonValue::Object(m)))
}

fn name_item_into(m: &mut Vec<(String, JsonValue)>, dsi: Option<&JsonValue>, field: &str)
    ensures
        data_members(final(m)@) == data_members(old(m)@) + name_item(deref_opt(dsi), field@),
{
    match localized_of(at_of(at_of(dsi, "name"), field)) {
        Some(t) => push_member(m, field, JsonValue::String(owned(t))),
        None => {
            assert(data_members(m@) + Seq::<(Seq<char>, JsonData)>::empty() =~= data_members(m@));
        },
    }
}

fn underscored_of(s: &str) -> (r: String)
    ensures
        r@ == underscored(s@),
{
    let c = chars_of(s);
    let mut out: Vec<char> = Vec::new();
    let mut i: usize = 0;
    while i < c.len()
        invariant
            i <= c@.len(),
            out@ == underscored(c@.subrange(0, i as int)),
        decreases c@.len() - i,
    {
        out.push(if c[i] == ' ' { '_' } else { c[i] });
        assert(out@ =~= underscored(c@.subrange(0, i + 1)));
        i = i + 1;
    }
    assert(c@.subrange(0, c@.len() as int) =~= c@);
    crate::text::string_of(out.as_slice())
}

fn category_value(c: &JsonValue) -> (r: Option<JsonValue>)
    ensures
        match (c.member_text("@level"@), localized_text(Some(*c))) {
            (Some(level), Some(text)) => r matches Some(v) && data(v) == JsonData::Object(seq![
                ("catId"@, match c.member_text("@catId"@) {
                    Some(t) => JsonData::Text(t),
                    None => JsonData::Null,
                }),
                ("level"@, JsonData::Text(level)),
                ("text"@, JsonData::Text(text)),
            ]),
            _ => r is None,
        },
{
    let level = match c.get_str("@level") {
        Some(l) => l,
        None => {
            return None;
        },
    };
    let text = match localized_of(Some(c)) {
        Some(t) => t,
        None => {
            return None;
        },
    };
    let mut m: Vec<(String, JsonValue)> = Vec::new();
    push_member(&mut m, "catId", match c.get_str("@catId") {
        Some(t) => JsonValue::String(owned(t)),
        None => JsonValue::Null,
    });
    push_member(&mut m, "level", JsonValue::String(owned(level)));
    push_member(&mut m, "text", JsonValue::String(owned(text)));
    assert(data_members(m@) =~= seq![
        ("catId"@, match c.member_text("@catId"@) {
            Some(t) => JsonData::Text(t),
            None => JsonData::Null,
        }),
        ("level"@, JsonData::Text(level@)),
        ("text"@, JsonData::Text(text@)),
    ]);
    Some(JsonValue::Object(m))
}

fn categories_of(v: Option<&JsonValue>) -> (r: Vec<JsonValue>)
    ensures
        data_items(r@) == match deref_opt(v) {
            Some(c) => category_items(items_of(c)),
            None => Seq::<JsonData>::empty(),
        },
{
    let mut out: Vec<JsonValue> = Vec::new();
    assert(data_items(out@) =~= Seq::<JsonData>::empty());
    match v {
        Some(JsonValue::Array(items)) => {
            let mut i: usize = 0;
            assert(items@.subrange(0, 0) =~= Seq::<JsonValue>::empty());
            while i < items.len()
                invariant
                    i <= items@.len(),
                    data_items(out@) == category_items(items@.subrange(0, i as int)),
                decreases items@.len() - i,
            {
                let ghost sub = items@.subrange(0, i + 1);
                assert(sub.drop_last() =~= items@.subrange(0, i as int));
                assert(sub.last() == items@[i as int]);
                match category_value(&items[i]) {
                    Some(x) => {
                        proof {
                            crate::openlca::lemma_data_items_push(out@, x);
                        }
                        out.push(x);
                    },
                    None => {},
                }
                i = i + 1;
            }
            assert(items@.subrange(0, items@.len() as int) =~= items@);
        },
        Some(c) => {
            let ghost one = seq![*c];
            assert(one.drop_last() =~= Seq::<JsonValue>::empty());
            assert(one.last() == *c);
            assert(items_of(*c) == one);
            assert(category_items(one.drop_last()) == Seq::<JsonData>::empty());
            match category_value(c) {
                Some(x) => {
                    proof {
                        crate::openlca::lemma_data_items_push(out@, x);
                    }
                    out.push(x);
                },
                None => {},
            }
        },
        None => {},
    }
    out
}

fn flow_into(dataset: &JsonValue) -> (r: Vec<(String, JsonValue)>)
    ensures
        fields(r) == flow_fields(*dataset),
{
    let dsi = at_of(dataset.get("flowInformation"), "dataSetInformation");
    let mut m: Vec<(String, JsonValue)> = Vec::new();
    assert(fields(m) =~= Map::<Seq<char>, JsonData>::empty());
    let mut parts: Vec<(String, JsonValue)> = Vec::new();
    assert(data_members(parts@) =~= Seq::<(Seq<char>, JsonData)>::empty());
    name_item_into(&mut parts, dsi, "flowProperties");
    name_item_into(&mut parts, dsi, "mixAndLocationTypes");
    name_item_into(&mut parts, dsi, "treatmentStandardsRoutes");
    assert(Seq::<(Seq<char>, JsonData)>::empty() + name_item(deref_opt(dsi), "flowProperties"@) =~= name_item(
        deref_opt(dsi),
        "flowProperties"@,
    ));
    if parts.len() > 0 {
        put_member(&mut m, "flowName", JsonValue::Object(parts));
    } else {
        proof {
            crate::json::lemma_data_members(parts@);
        }
    }
    let kind = text_or_str(text_of(at_of(at_of(dataset.get("modellingAndValidation"), "LCIMethod"), "typeOfDataSet")), "Product flow");
    let upper_kind = crate::text::to_ascii_uppercase(kind);
    put_member(&mut m, "flowType", JsonValue::String(underscored_of(upper_kind.as_str())));
    match text_of(at_of(dsi, "CASNumber")) {
        Some(t) => put_member(&mut m, "CASNumber", JsonValue::String(owned(t))),
        None => {},
    }
    match text_of(at_of(dsi, "sumFormula")) {
        Some(t) => put_member(&mut m, "sumFormula", JsonValue::String(owned(t))),
        None => {},
    }
    let reference = text_of(at_of(at_of(dataset.get("flowInformation"), "quantitativeReference"), "referenceToReferenceFlowProperty"));
    let objs = object_items_of(at_of(dataset.get("flowProperties"), "flowProperty"));
    let ghost os = objs@.map_values(|x: &JsonValue| *x);
    let mut values: Vec<JsonValue> = Vec::new();
    let mut first: Option<(String, String)> = None;
    let ghost mut asg = Seq::<(Seq<char>, Seq<char>, bool, JsonData)>::empty();
    let mut i: usize = 0;
    assert(os.subrange(0, 0) =~= Seq::<JsonValue>::empty());
    while i < objs.len()
        invariant
            i <= objs@.len(),
            os == objs@.map_values(|x: &JsonValue| *x),
            asg == assignments(os.subrange(0, i as int), opt_str(reference)),
            data_items(values@) == asg.map_values(|a: (Seq<char>, Seq<char>, bool, JsonData)| a.3),
            match first {
                Some((id, name)) => first_reference(asg) == Some((id@, name@)),
                None => first_reference(asg) is None,
            },
        decreases objs@.len() - i,
    {
        let ghost sub = os.subrange(0, i + 1);
        assert(sub.drop_last() =~= os.subrange(0, i as int));
        assert(sub.last() == *objs@[i as int]);
        match assignment_value(objs[i], i, reference) {
            Some((id, name, is_ref, v)) => {
                let ghost a = (id@, name@, is_ref, data(v));
                proof {
                    lemma_first_reference_push(asg, a);
                    crate::openlca::lemma_data_items_push(values@, v);
                    assert(asg.push(a).map_values(|a: (Seq<char>, Seq<char>, bool, JsonData)| a.3) =~= asg.map_values(
                        |a: (Seq<char>, Seq<char>, bool, JsonData)| a.3,
                    ).push(a.3));
                    asg = asg.push(a);
                }
                if first.is_none() && is_ref {
                    first = Some((id, name));
                }
                values.push(v);
            },
            None => {},
        }
        i = i + 1;
    }
    assert(os.subrange(0, os.len() as int) =~= os);
    if values.len() > 0 {
        match first {
            Some((id, name)) => {
                put_member(&mut m, "flowPropertyRefId", JsonValue::String(id));
                put_member(&mut m, "flowPropertyName", JsonValue::String(name));
            },
            None => {},
        }
        put_member(&mut m, "flowProperties", JsonValue::Array(values));
    } else {
        proof {
            crate::json::lemma_data_items(values@);
        }
    }
    let categories = categories_of(at_of(at_of(at_of(dsi, "classificationInformation"), "common:elementaryFlowCategorization"), "common:category"));
    if categories.len() > 0 {
        put_member(&mut m, "elementaryCategorization", JsonValue::Array(categories));
    } else {
        proof {
            crate::json::lemma_data_items(categories@);
        }
    }
    m
}

proof fn lemma_first_reference_push(asg: Seq<(Seq<char>, Seq<char>, bool, JsonData)>, a: (Seq<char>, Seq<char>, bool, JsonData))
    ensures
        first_reference(asg.push(a)) == match first_reference(asg) {
            Some(r) => Some(r),
            None => if a.2 {
                Some((a.0, a.1))
            } else {
                None
            },
        },
    decreases asg.len(),
{
    if asg.len() == 0 {
        assert(asg.push(a)[0] == a);
        assert(asg.push(a).drop_first() =~= Seq::<(Seq<char>, Seq<char>, bool, JsonData)>::empty());
    } else {
        assert(asg.push(a)[0] == asg[0]);
        assert(asg.push(a).drop_first() =~= asg.drop_first().push(a));
        lemma_first_reference_push(asg.drop_first(), a);
    }
}

// ---------------------------------------------------------------------------
// Processes
// ---------------------------------------------------------------------------

/// `u32::from_str`: an optional `+`, then at least one digit, of value that fits.
pub open spec fn parse_u32(s: Seq<char>) -> Option<nat> {
    let d = if s.len() > 0 && s[0] == '+' {
        s.drop_first()
    } else {
        s
    };
    if d.len() > 0 && all_digits(d) && digits_value(d) <= u32::MAX {
        Some(digits_value(d))
    } else {
        None
    }
}

fn parse_u32_of(s: &str) -> (r: Option<u32>)
    ensures
        match r {
            Some(v) => parse_u32(s@) == Some(v as nat),
            None => parse_u32(s@) is None,
        },
{
    let c = chars_of(s);
    let signed = c.len() > 0 && c[0] == '+';
    let mut d: Vec<char> = Vec::new();
    let mut k: usize = if signed { 1 } else { 0 };
    let start = k;
    while k < c.len()
        invariant
            start <= k <= c@.len(),
            start == (if signed { 1usize } else { 0usize }),
            signed ==> c@.len() > 0,
            d@ == c@.subrange(start as int, k as int),
        decreases c@.len() - k,
    {
        d.push(c[k]);
        k = k + 1;
    }
    proof {
        if signed {
            assert(d@ =~= c@.drop_first());
        } else {
            assert(d@ =~= c@);
        }
    }
    if d.len() == 0 {
        return None;
    }
    match crate::openlca_exchange::capped_digits(d.as_slice(), 0x1_0000_0000) {
        Some(x) => if x <= 0xffff_ffff {
            Some(x as u32)
        } else {
            None
        },
        None => None,
    }
}

/// A process keeps its comment as description (a generic one where it has
/// none), its location and its reference year; its exchanges are read on
/// their own (see `process_exchanges`).
pub open spec fn process_fields(dataset: JsonValue) -> Map<Seq<char>, JsonData> {
    let pi = dataset.member("processInformation"@);
    let m0 = Map::<Seq<char>, JsonData>::empty().insert(
        "description"@,
        JsonData::Text(text_or(localized_text(at(at(pi, "dataSetInformation"@), "common:generalComment"@)), "Imported from ILCD."@)),
    );
    let m1 = match scalar(at(at(at(pi, "geography"@), "locationOfOperationSupplyOrProduction"@), "@location"@)) {
        Some(l) => m0.insert("location"@, JsonData::Text(l)),
        None => m0,
    };
    match scalar(at(at(pi, "time"@), "common:referenceYear"@)) {
        Some(t) => match parse_u32(t) {
            Some(y) => m1.insert("referenceYear"@, JsonData::Number(decimal(y))),
            None => m1,
        },
        None => m1,
    }
}

fn process_into(dataset: &JsonValue) -> (r: Vec<(String, JsonValue)>)
    ensures
        fields(r) == process_fields(*dataset),
{
    let pi = dataset.get("processInformation");
    let mut m: Vec<(String, JsonValue)> = Vec::new();
    assert(fields(m) =~= Map::<Seq<char>, JsonData>::empty());
    let description = text_or_str(localized_of(at_of(at_of(pi, "dataSetInformation"), "common:generalComment")), "Imported from ILCD.");
    put_member(&mut m, "description", JsonValue::String(owned(description)));
    match text_of(at_of(at_of(at_of(pi, "geography"), "locationOfOperationSupplyOrProduction"), "@location")) {
        Some(l) => put_member(&mut m, "location", JsonValue::String(owned(l))),
        None => {},
    }
    match text_of(at_of(at_of(pi, "time"), "common:referenceYear")) {
        Some(t) => match parse_u32_of(t) {
            Some(y) => put_member(&mut m, "referenceYear", JsonValue::Number(decimal_string(y as u64))),
            None => {},
        },
        None => {},
    }
    m
}

/// The fields an exchange keeps as they are, where it has them as text.
pub open spec fn exchange_text_fields() -> Seq<Seq<char>> {
    seq![
        "location"@,
        "minimumAmount"@,
        "maximumAmount"@,
        "uncertaintyDistributionType"@,
        "relativeStandardDeviation95In"@,
        "dataDerivationTypeStatus"@,
        "generalComment"@,
    ]
}

pub open spec fn texts_kept(m: Map<Seq<char>, JsonData>, x: JsonValue, names: Seq<Seq<char>>) -> Map<Seq<char>, JsonData>
    decreases names.len(),
{
    if names.len() == 0 {
        m
    } else {
        let prev = texts_kept(m, x, names.drop_last());
        match localized_text(x.member(names.last())) {
            Some(t) => prev.insert(names.last(), JsonData::Text(t)),
            None => prev,
        }
    }
}

/// The canonical exchange of an ILCD exchange at a position among the
/// exchange objects: its flow is required; its internal id is its own (else
/// its position from one); it is the quantitative reference where the process
/// names it so.
pub open spec fn exchange_of(x: JsonValue, index: nat, reference: Option<Seq<char>>) -> Option<Map<Seq<char>, JsonData>> {
    match x.member("referenceToFlowDataSet"@) {
        Some(r) if r is Object => match r.member_text("@refObjectId"@) {
            Some(flow_id) => {
                let flow_name = text_or(localized_text(r.member("common:shortDescription"@)), "Flow"@);
                let amount = match x.member_text("meanAmount"@) {
                    Some(a) => a,
                    None => text_or(x.member_text("resultingAmount"@), "0"@),
                };
                let direction = text_or(x.member_text("exchangeDirection"@), "Output"@);
                let internal = text_or(x.member_text("@dataSetInternalID"@), decimal(crate::openlca_exchange::position(index)));
                let m0 = Map::<Seq<char>, JsonData>::empty().insert("internalId"@, JsonData::Text(internal)).insert(
                    "flow"@,
                    JsonData::Object(seq![("@id"@, JsonData::Text(flow_id)), ("name"@, JsonData::Text(flow_name))]),
                ).insert("flowRefId"@, JsonData::Text(flow_id)).insert("flowName"@, JsonData::Text(flow_name)).insert(
                    "isInput"@,
                    JsonData::Bool(lower(direction) == lower("input"@)),
                ).insert("amount"@, JsonData::Text(amount)).insert(
                    "isQuantitativeReference"@,
                    JsonData::Bool(reference == Some(internal)),
                );
                Some(texts_kept(m0, x, exchange_text_fields()))
            },
            None => None,
        },
        _ => None,
    }
}

/// The canonical exchanges of the exchange objects, in order.
pub open spec fn exchanges_of(objs: Seq<JsonValue>, reference: Option<Seq<char>>) -> Seq<Map<Seq<char>, JsonData>>
    decreases objs.len(),
{
    if objs.len() == 0 {
        Seq::empty()
    } else {
        match exchange_of(objs.last(), (objs.len() - 1) as nat, reference) {
            Some(m) => exchanges_of(objs.drop_last(), reference).push(m),
            None => exchanges_of(objs.drop_last(), reference),
        }
    }
}

/// The canonical exchanges of an ILCD process dataset.
pub open spec fn process_exchanges_of(dataset: JsonValue) -> Seq<Map<Seq<char>, JsonData>> {
    let reference = scalar(at(at(dataset.member("processInformation"@), "quantitativeReference"@), "referenceToReferenceFlow"@));
    exchanges_of(object_items(at(dataset.member("exchanges"@), "exchange"@)), reference)
}

fn put(m: &mut TextMap<JsonValue>, key: &str, v: JsonValue)
    ensures
        json_view(final(m).view()) == json_view(old(m).view()).insert(key@, data(v)),
{
    let ghost before = m.view();
    let ghost vv = v;
    m.insert(owned(key), v);
    proof {
        lemma_json_view_insert(before, key@, vv);
    }
}

fn exchange_value(x: &JsonValue, index: usize, reference: Option<&str>) -> (r: Option<TextMap<JsonValue>>)
    ensures
        match exchange_of(*x, index as nat, opt_str(reference)) {
            Some(m) => r matches Some(t) && json_view(t.view()) == m,
            None => r is None,
        },
{
    let r = match x.get("referenceToFlowDataSet") {
        Some(r) => r,
        None => {
            return None;
        },
    };
    if r.as_object().is_none() {
        return None;
    }
    let flow_id = match r.get_str("@refObjectId") {
        Some(f) => f,
        None => {
            return None;
        },
    };
    let flow_name = text_or_str(localized_of(r.get("common:shortDescription")), "Flow");
    let amount = match x.get_str("meanAmount") {
        Some(a) => a,
        None => text_or_str(x.get_str("resultingAmount"), "0"),
    };
    let direction = text_or_str(x.get_str("exchangeDirection"), "Output");
    let internal = match x.get_str("@dataSetInternalID") {
        Some(i) => owned(i),
        None => decimal_string(index.saturating_add(1) as u64),
    };
    let is_reference = match reference {
        Some(rf) => str_eq(rf, internal.as_str()),
        None => false,
    };
    let mut t: TextMap<JsonValue> = TextMap::new();
    assert(json_view(t.view()) =~= Map::<Seq<char>, JsonData>::empty());
    put(&mut t, "internalId", JsonValue::String(internal));
    let mut f: Vec<(String, JsonValue)> = Vec::new();
    push_member(&mut f, "@id", JsonValue::String(owned(flow_id)));
    push_member(&mut f, "name", JsonValue::String(owned(flow_name)));
    assert(data_members(f@) =~= seq![("@id"@, JsonData::Text(flow_id@)), ("name"@, JsonData::Text(flow_name@))]);
    put(&mut t, "flow", JsonValue::Object(f));
    put(&mut t, "flowRefId", JsonValue::String(owned(flow_id)));
    put(&mut t, "flowName", JsonValue::String(owned(flow_name)));
    put(&mut t, "isInput", JsonValue::Bool(crate::text::eq_ignore_ascii_case(direction, "input")));
    put(&mut t, "amount", JsonValue::String(owned(amount)));
    put(&mut t, "isQuantitativeReference", JsonValue::Bool(is_reference));
    let mut names: Vec<&'static str> = Vec::new();
    names.push("location");
    names.push("minimumAmount");
    names.push("maximumAmount");
    names.push("uncertaintyDistributionType");
    names.push("relativeStandardDeviation95In");
    names.push("dataDerivationTypeStatus");
    names.push("generalComment");
    let ghost ns = names@.map_values(|n: &'static str| n@);
    assert(ns =~= exchange_text_fields());
    let ghost start = json_view(t.view());
    let mut i: usize = 0;
    assert(ns.subrange(0, 0) =~= Seq::<Seq<char>>::empty());
    while i < names.len()
        invariant
            i <= names@.len(),
            ns == names@.map_values(|n: &'static str| n@),
            json_view(t.view()) == texts_kept(start, *x, ns.subrange(0, i as int)),
        decreases names@.len() - i,
    {
        let ghost sub = ns.subrange(0, i + 1);
        assert(sub.drop_last() =~= ns.subrange(0, i as int));
        assert(sub.last() == names@[i as int]@);
        match localized_of(x.get(names[i])) {
            Some(v) => put(&mut t, names[i], JsonValue::String(owned(v))),
            None => {},
        }
        i = i + 1;
    }
    assert(ns.subrange(0, ns.len() as int) =~= ns);
    Some(t)
}

/// The canonical exchanges of an ILCD process dataset (see `process_exchanges_of`).
pub fn process_exchanges(dataset: &JsonValue) -> (r: Vec<TextMap<JsonValue>>)
    ensures
        r@.map_values(|t: TextMap<JsonValue>| json_view(t.view())) == process_exchanges_of(*dataset),
{
    let reference = text_of(at_of(at_of(dataset.get("processInformation"), "quantitativeReference"), "referenceToReferenceFlow"));
    let objs = object_items_of(at_of(dataset.get("exchanges"), "exchange"));
    let ghost os = objs@.map_values(|x: &JsonValue| *x);
    let mut out: Vec<TextMap<JsonValue>> = Vec::new();
    let mut i: usize = 0;
    assert(os.subrange(0, 0) =~= Seq::<JsonValue>::empty());
    assert(out@.map_values(|t: TextMap<JsonValue>| json_view(t.view())) =~= Seq::<Map<Seq<char>, JsonData>>::empty());
    while i < objs.len()
        invariant
            i <= objs@.len(),
            os == objs@.map_values(|x: &JsonValue| *x),
            out@.map_values(|t: TextMap<JsonValue>| json_view(t.view())) == exchanges_of(os.subrange(0, i as int), opt_str(reference)),
        decreases objs@.len() - i,
    {
        let ghost sub = os.subrange(0, i + 1);
        assert(sub.drop_last() =~= os.subrange(0, i as int));
        assert(sub.last() == *objs@[i as int]);
        match exchange_value(objs[i], i, reference) {
            Some(t) => {
                let ghost before = out@;
                let ghost tv = json_view(t.view());
                out.push(t);
                assert(out@.map_values(|t: TextMap<JsonValue>| json_view(t.view())) =~= before.map_values(
                    |t: TextMap<JsonValue>| json_view(t.view()),
                ).push(tv));
            },
            None => {},
        }
        i = i + 1;
    }
    assert(os.subrange(0, os.len() as int) =~= os);
    out
}

// ---------------------------------------------------------------------------
// Entities
// ---------------------------------------------------------------------------

/// The entity type of an ILCD root element, with the path to its dataset
/// information.
pub open spec fn root_kind(root: Seq<char>) -> Option<(Seq<char>, Seq<char>)> {
    if root == "contactDataSet"@ {
        Some(("contacts"@, "contactInformation"@))
    } else if root == "sourceDataSet"@ {
        Some(("sources"@, "sourceInformation"@))
    } else if root == "unitGroupDataSet"@ {
        Some(("unitgroups"@, "unitGroupInformation"@))
    } else if root == "flowPropertyDataSet"@ {
        Some(("flowproperties"@, "flowPropertiesInformation"@))
    } else if root == "flowDataSet"@ {
        Some(("flows"@, "flowInformation"@))
    } else if root == "processDataSet"@ {
        Some(("processes"@, "processInformation"@))
    } else {
        None
    }
}

/// The name of a dataset: the base name of a flow or process, the name of
/// anything else, else its short name.
pub open spec fn dataset_name_of(info: JsonValue, entity_type: Seq<char>) -> Option<Seq<char>> {
    let name = if entity_type == "flows"@ || entity_type == "processes"@ {
        localized_text(at(at(Some(info), "name"@), "baseName"@))
    } else {
        localized_text(info.member("common:name"@))
    };
    match name {
        Some(n) => Some(n),
        None => localized_text(info.member("common:shortName"@)),
    }
}

/// The texts of the classes of a dataset's classification, in order.
pub open spec fn class_texts(items: Seq<JsonValue>) -> Seq<Seq<char>>
    decreases items.len(),
{
    if items.len() == 0 {
        Seq::empty()
    } else {
        match localized_text(Some(items.last())) {
            Some(t) => class_texts(items.drop_last()).push(t),
            None => class_texts(items.drop_last()),
        }
    }
}

pub open spec fn classification_of(info: JsonValue) -> Seq<Seq<char>> {
    match at(at(at(Some(info), "classificationInformation"@), "common:classification"@), "common:class"@) {
        Some(c) => class_texts(items_of(c)),
        None => Seq::empty(),
    }
}

pub open spec fn kind_fields(entity_type: Seq<char>, dataset: JsonValue, info: JsonValue) -> Map<Seq<char>, JsonData> {
    if entity_type == "unitgroups"@ {
        unit_group_fields(dataset)
    } else if entity_type == "flowproperties"@ {
        flow_property_fields(dataset)
    } else if entity_type == "flows"@ {
        flow_fields(dataset)
    } else if entity_type == "processes"@ {
        process_fields(dataset)
    } else if entity_type == "sources"@ {
        source_fields(info)
    } else {
        contact_fields(info)
    }
}

/// The entity of a converted ILCD document: its first member names the
/// dataset kind; its id is the dataset's UUID (else derived from the kind and
/// the label), also its external id; it keeps its name, classification, the
/// fields of its kind, its version, and where it came from.
pub open spec fn ilcd_entity_of(document: JsonValue, label: Seq<char>) -> Option<(Seq<char>, Seq<char>, Option<Seq<char>>, Option<Seq<char>>, Seq<Seq<char>>, Map<Seq<char>, JsonData>)> {
    match document {
        JsonValue::Object(members) => if members@.len() == 0 {
            None
        } else {
            let root = members@[0].0@;
            let dataset = members@[0].1;
            if !(dataset is Object) {
                None
            } else {
                match root_kind(root) {
                    None => None,
                    Some((entity_type, info_key)) => match at(dataset.member(info_key), "dataSetInformation"@) {
                        None => None,
                        Some(info) => {
                            let id = match info.member_text("common:UUID"@) {
                                Some(u) => if uuid_text(u) {
                                    u
                                } else {
                                    uuid_v5_url(vstd::utf8::encode_utf8("ilcd/"@ + entity_type + "/"@ + label))
                                },
                                None => uuid_v5_url(vstd::utf8::encode_utf8("ilcd/"@ + entity_type + "/"@ + label)),
                            };
                            let raw0 = kind_fields(entity_type, dataset, info);
                            let raw1 = match scalar(at(at(dataset.member("administrativeInformation"@), "publicationAndOwnership"@),
                                "common:dataSetVersion"@)) {
                                Some(v) => raw0.insert("version"@, JsonData::Text(v)),
                                None => raw0,
                            };
                            let raw2 = raw1.insert(
                                "sourceTrace"@,
                                JsonData::Object(seq![
                                    ("file"@, JsonData::Text(label)),
                                    ("format"@, JsonData::Text("ilcd"@)),
                                    ("sourceObject"@, JsonData::Text(root)),
                                ]),
                            );
                            Some((entity_type, id, Some(id), dataset_name_of(info, entity_type), classification_of(info), raw2))
                        },
                    },
                }
            }
        },
        _ => None,
    }
}

fn root_kind_of(root: &str) -> (r: Option<(&'static str, &'static str)>)
    ensures
        match r {
            Some((t, k)) => root_kind(root@) == Some((t@, k@)),
            None => root_kind(root@) is None,
        },
{
    if str_eq(root, "contactDataSet") {
        Some(("contacts", "contactInformation"))
    } else if str_eq(root, "sourceDataSet") {
        Some(("sources", "sourceInformation"))
    } else if str_eq(root, "unitGroupDataSet") {
        Some(("unitgroups", "unitGroupInformation"))
    } else if str_eq(root, "flowPropertyDataSet") {
        Some(("flowproperties", "flowPropertiesInformation"))
    } else if str_eq(root, "flowDataSet") {
        Some(("flows", "flowInformation"))
    } else if str_eq(root, "processDataSet") {
        Some(("processes", "processInformation"))
    } else {
        None
    }
}

fn kind_fields_of(entity_type: &str, dataset: &JsonValue, info: &JsonValue) -> (r: Vec<(String, JsonValue)>)
    ensures
        fields(r) == kind_fields(entity_type@, *dataset, *info),
{
    if str_eq(entity_type, "unitgroups") {
        unit_group_into(dataset)
    } else if str_eq(entity_type, "flowproperties") {
        flow_property_into(dataset)
    } else if str_eq(entity_type, "flows") {
        flow_into(dataset)
    } else if str_eq(entity_type, "processes") {
        process_into(dataset)
    } else if str_eq(entity_type, "sources") {
        source_into(info)
    } else {
        contact_into(info)
    }
}

fn dataset_name(info: &JsonValue, entity_type: &str) -> (r: Option<String>)
    ensures
        opt_view(r) == dataset_name_of(*info, entity_type@),
{
    let name = if str_eq(entity_type, "flows") || str_eq(entity_type, "processes") {
        localized_of(at_of(at_of(Some(info), "name"), "baseName"))
    } else {
        localized_of(info.get("common:name"))
    };
    match name {
        Some(n) => Some(owned(n)),
        None => match localized_of(info.get("common:shortName")) {
            Some(n) => Some(owned(n)),
            None => None,
        },
    }
}

fn classification_path(info: &JsonValue) -> (r: Vec<String>)
    ensures
        texts(r@) == classification_of(*info),
{
    let mut out: Vec<String> = Vec::new();
    assert(texts(out@) =~= Seq::<Seq<char>>::empty());
    match at_of(at_of(at_of(Some(info), "classificationInformation"), "common:classification"), "common:class") {
        Some(JsonValue::Array(items)) => {
            let mut i: usize = 0;
            assert(items@.subrange(0, 0) =~= Seq::<JsonValue>::empty());
            while i < items.len()
                invariant
                    i <= items@.len(),
                    texts(out@) == class_texts(items@.subrange(0, i as int)),
                decreases items@.len() - i,
            {
                let ghost sub = items@.subrange(0, i + 1);
                assert(sub.drop_last() =~= items@.subrange(0, i as int));
                assert(sub.last() == items@[i as int]);
                match localized_of(Some(&items[i])) {
                    Some(t) => {
                        let ghost before = out@;
                        out.push(owned(t));
                        assert(texts(out@) =~= texts(before).push(t@));
                    },
                    None => {},
                }
                i = i + 1;
            }
            assert(items@.subrange(0, items@.len() as int) =~= items@);
        },
        Some(c) => {
            let ghost one = seq![*c];
            assert(one.drop_last() =~= Seq::<JsonValue>::empty());
            assert(one.last() == *c);
            assert(items_of(*c) == one);
            assert(class_texts(one.drop_last()) == Seq::<Seq<char>>::empty());
            match localized_of(Some(c)) {
                Some(t) => {
                    out.push(owned(t));
                    assert(texts(out@) =~= seq![t@]);
                },
                None => {},
            }
        },
        None => {},
    }
    out
}

/// The entity of a converted ILCD document (see `ilcd_entity_of`).
pub fn ilcd_entity(document: &JsonValue, label: &str) -> (r: Option<CanonicalEntity>)
    ensures
        match ilcd_entity_of(*document, label@) {
            Some(f) => r matches Some(e) && entity_facts(e) == f && e.raw is Object,
            None => r is None,
        },
{
    let members = match document {
        JsonValue::Object(m) => m,
        _ => {
            return None;
        },
    };
    if members.len() == 0 {
        return None;
    }
    let root = members[0].0.as_str();
    let dataset = &members[0].1;
    if dataset.as_object().is_none() {
        return None;
    }
    let (entity_type, info_key) = match root_kind_of(root) {
        Some(k) => k,
        None => {
            return None;
        },
    };
    let info = match at_of(dataset.get(info_key), "dataSetInformation") {
        Some(i) => i,
        None => {
            return None;
        },
    };
    let declared = match info.get_str("common:UUID") {
        Some(u) => if parses_as_uuid(u) {
            Some(owned(u))
        } else {
            None
        },
        None => None,
    };
    let id = match declared {
        Some(u) => u,
        None => {
            let seed = concat(concat3("ilcd/", entity_type, "/").as_str(), label);
            assert(seed@ =~= "ilcd/"@ + entity_type@ + "/"@ + label@);
            stable_id(seed.as_str())
        },
    };
    let mut raw = kind_fields_of(entity_type, dataset, info);
    match text_of(at_of(at_of(dataset.get("administrativeInformation"), "publicationAndOwnership"), "common:dataSetVersion")) {
        Some(v) => put_member(&mut raw, "version", JsonValue::String(owned(v))),
        None => {},
    }
    let mut trace: Vec<(String, JsonValue)> = Vec::new();
    push_member(&mut trace, "file", JsonValue::String(owned(label)));
    push_member(&mut trace, "format", JsonValue::String(owned("ilcd")));
    push_member(&mut trace, "sourceObject", JsonValue::String(owned(root)));
    assert(data_members(trace@) =~= seq![
        ("file"@, JsonData::Text(label@)),
        ("format"@, JsonData::Text("ilcd"@)),
        ("sourceObject"@, JsonData::Text(root@)),
    ]);
    put_member(&mut raw, "sourceTrace", JsonValue::Object(trace));
    Some(
        CanonicalEntity {
            entity_type: owned(entity_type),
            internal_id: id.clone(),
            external_id: Some(id),
            name: dataset_name(info, entity_type),
            category_path: classification_path(info),
            raw: JsonValue::Object(raw),
        },
    )
}

} // verus!
