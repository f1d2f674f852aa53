//! The canonical entities that every import adapter produces.
use vstd::prelude::*;

use crate::json::JsonValue;

verus! {

/// A reference from one canonical entity to another.
#[derive(Debug)]
pub struct EntityRef {
    pub target_type: String,
    pub target_id: Option<String>,
    pub source_label: Option<String>,
    pub resolved: bool,
}

/// A source entity in canonical form; `raw` is the object of source fields.
#[derive(Debug)]
pub struct CanonicalEntity {
    pub entity_type: String,
    pub internal_id: String,
    pub external_id: Option<String>,
    pub name: Option<String>,
    pub category_path: Vec<String>,
    pub raw: JsonValue,
}

/// One exchange of a canonical process.
#[derive(Debug)]
pub struct CanonicalExchange {
    pub internal_id: String,
    pub flow_ref: EntityRef,
    pub direction: String,
    pub amount: Option<String>,
    pub formula: Option<String>,
    pub unit_ref: Option<EntityRef>,
    pub flow_property_ref: Option<EntityRef>,
    pub provider_ref: Option<EntityRef>,
    pub location: Option<String>,
    pub uncertainty: Option<JsonValue>,
    pub dq_entry: Option<String>,
    pub raw: JsonValue,
}

} // verus!
