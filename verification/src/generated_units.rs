//! The unit group and flow property made for a flow that names only a unit:
//! one unit of factor 1.0, and a property measured in that group, both with
//! identities derived from the unit's name.
use vstd::prelude::*;

use crate::flow_properties::nonblank;
use crate::json::{JsonData, JsonValue, data, data_items, data_members, lemma_data_items, lemma_data_members};
use crate::model::CanonicalEntity;
use crate::normalization::{opt_view, texts};
use crate::text::{concat, owned, trim_str};
use crate::writers::{stable_id, uuid_v5_url};

verus! {

/// The unit a flow needs generated entities for: its trimmed, non-empty
/// `unitName`, where it names no flow property.
pub open spec fn generated_unit_of(raw: JsonValue) -> Option<Seq<char>> {
    if raw.member("flowPropertyRefId"@) is Some {
        None
    } else {
        nonblank(raw.member_text("unitName"@))
    }
}

pub open spec fn unit_group_id(unit: Seq<char>) -> Seq<char> {
    uuid_v5_url(vstd::utf8::encode_utf8("tidas-tools/import/unitgroup/"@ + unit))
}

pub open spec fn flow_property_id(unit: Seq<char>) -> Seq<char> {
    uuid_v5_url(vstd::utf8::encode_utf8("tidas-tools/import/flowproperty/"@ + unit))
}

/// The source fields of the generated unit group.
pub open spec fn unit_group_raw(unit: Seq<char>) -> JsonData {
    JsonData::Object(seq![
        ("units"@, JsonData::Array(seq![JsonData::Object(seq![
            ("name"@, JsonData::Text(unit)),
            ("conversionFactor"@, JsonData::Number("1.0"@)),
        ])])),
    ])
}

/// The source fields of the generated flow property.
pub open spec fn flow_property_raw(unit: Seq<char>) -> JsonData {
    JsonData::Object(seq![
        ("unitGroupRefId"@, JsonData::Text(unit_group_id(unit))),
        ("unitGroupName"@, JsonData::Text("Units of "@ + unit)),
    ])
}

/// The entity as a mathematical value: type, id, external id, name, category
/// path and source fields.
pub open spec fn entity_view(e: CanonicalEntity) -> (Seq<char>, Seq<char>, Option<Seq<char>>, Option<Seq<char>>, Seq<Seq<char>>, JsonData) {
    (e.entity_type@, e.internal_id@, opt_view(e.external_id), opt_view(e.name), texts(e.category_path@), data(e.raw))
}

/// The entities to add for a flow: none, or its unit group and its flow
/// property, in that order.
pub open spec fn generated_entities(raw: JsonValue) -> Seq<(Seq<char>, Seq<char>, Option<Seq<char>>, Option<Seq<char>>, Seq<Seq<char>>, JsonData)> {
    match generated_unit_of(raw) {
        None => Seq::empty(),
        Some(u) => seq![
            ("unitgroups"@, unit_group_id(u), None, Some("Units of "@ + u), Seq::empty(), unit_group_raw(u)),
            ("flowproperties"@, flow_property_id(u), None, Some("Amount in "@ + u), Seq::empty(), flow_property_raw(u)),
        ],
    }
}

/// The unit group and flow property to add for a flow (see `generated_entities`).
pub fn generated_unit_entities(flow: &CanonicalEntity) -> (r: Vec<CanonicalEntity>)
    ensures
        r@.map_values(|e: CanonicalEntity| entity_view(e)) == generated_entities(flow.raw),
{
    let mut out: Vec<CanonicalEntity> = Vec::new();
    if flow.raw.get("flowPropertyRefId").is_some() {
        assert(out@.map_values(|e: CanonicalEntity| entity_view(e)) =~= generated_entities(flow.raw));
        return out;
    }
    let unit = match flow.raw.get_str("unitName") {
        Some(t) => {
            let v = trim_str(t);
            if v.as_str().is_empty() {
                None
            } else {
                Some(v)
            }
        },
        None => None,
    };
    let unit = match unit {
        Some(u) => u,
        None => {
            assert(out@.map_values(|e: CanonicalEntity| entity_view(e)) =~= generated_entities(flow.raw));
            return out;
        },
    };
    let group_seed = concat("tidas-tools/import/unitgroup/", unit.as_str());
    let group_id = stable_id(group_seed.as_str());
    let property_seed = concat("tidas-tools/import/flowproperty/", unit.as_str());
    let property_id = stable_id(property_seed.as_str());
    let group_name = concat("Units of ", unit.as_str());

    let mut item: Vec<(String, JsonValue)> = Vec::new();
    item.push((owned("name"), JsonValue::String(unit.clone())));
    item.push((owned("conversionFactor"), JsonValue::Number(owned("1.0"))));
    let mut items: Vec<JsonValue> = Vec::new();
    items.push(JsonValue::Object(item));
    let mut group_raw: Vec<(String, JsonValue)> = Vec::new();
    group_raw.push((owned("units"), JsonValue::Array(items)));
    proof {
        lemma_data_members(item@);
        lemma_data_items(items@);
        lemma_data_members(group_raw@);
        assert(data_members(item@) =~= unit_group_raw(unit@)->Object_0[0].1->Array_0[0]->Object_0);
        assert(data_items(items@) =~= unit_group_raw(unit@)->Object_0[0].1->Array_0);
        assert(data_members(group_raw@) =~= unit_group_raw(unit@)->Object_0);
    }
    let group = CanonicalEntity {
        entity_type: owned("unitgroups"),
        internal_id: group_id.clone(),
        external_id: None,
        name: Some(group_name.clone()),
        category_path: Vec::new(),
        raw: JsonValue::Object(group_raw),
    };

    let mut property_raw: Vec<(String, JsonValue)> = Vec::new();
    property_raw.push((owned("unitGroupRefId"), JsonValue::String(group_id)));
    property_raw.push((owned("unitGroupName"), JsonValue::String(group_name)));
    proof {
        lemma_data_members(property_raw@);
        assert(data_members(property_raw@) =~= flow_property_raw(unit@)->Object_0);
    }
    let property = CanonicalEntity {
        entity_type: owned("flowproperties"),
        internal_id: property_id,
        external_id: None,
        name: Some(concat("Amount in ", unit.as_str())),
        category_path: Vec::new(),
        raw: JsonValue::Object(property_raw),
    };
    out.push(group);
    out.push(property);
    proof {
        assert(texts(Seq::<String>::empty()) =~= Seq::<Seq<char>>::empty());
        assert(out@.map_values(|e: CanonicalEntity| entity_view(e)) =~= generated_entities(flow.raw));
    }
    out
}

} // verus!
