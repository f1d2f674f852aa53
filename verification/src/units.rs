//! The openLCA rule that restates exchange amounts in the reference unit of
//! the reference flow property of their flow, and the indexes of units, flow
//! properties and flows it reads.
use vstd::prelude::*;
use vstd::string::StrSliceExecFns;

use crate::json::{JsonData, JsonValue, data, data_items, data_members, lemma_data_items, lemma_data_members};
use crate::report::{ImportIssue, IssueSeverity};
use crate::text::{decimal, decimal_string};
use crate::model::CanonicalEntity;
use crate::table::TextMap;
use crate::text::{owned, str_eq, trim, trim_str};

verus! {

// ---------------------------------------------------------------------------
// Decimal arithmetic (bigdecimal), over decimal texts
// ---------------------------------------------------------------------------

/// `BigDecimal::from_str` accepts the text.
pub uninterp spec fn decimal_valid(t: Seq<char>) -> bool;

/// The decimal that the text denotes is zero.
pub uninterp spec fn decimal_is_zero(t: Seq<char>) -> bool;

/// The decimal that the text denotes is one.
pub uninterp spec fn decimal_is_one(t: Seq<char>) -> bool;

/// The text of the product of two decimals.
pub uninterp spec fn decimal_product(a: Seq<char>, b: Seq<char>) -> Seq<char>;

/// The text of the quotient of two decimals (to the crate's default precision).
pub uninterp spec fn decimal_quotient(a: Seq<char>, b: Seq<char>) -> Seq<char>;

/// The text of a decimal without trailing zeros (`normalized`).
pub uninterp spec fn decimal_normalized(t: Seq<char>) -> Seq<char>;

/// The scale of the decimal a text denotes (`fractional_digit_count`: the
/// number of digits after the point, negative where the exponent moves it
/// right).
pub uninterp spec fn decimal_scale(t: Seq<char>) -> int;

/// The largest text length and scale magnitude that the decimal operations
/// below take. Within it their scale arithmetic cannot overflow and no
/// intermediate number needs more than about a million digits.
pub const DECIMAL_LIMIT: i64 = 1000000;

/// A decimal text that the operations take: it parses, and its length and
/// the magnitude of its scale are within the limit.
pub open spec fn decimal_fits(t: Seq<char>) -> bool {
    &&& decimal_valid(t)
    &&& t.len() <= DECIMAL_LIMIT
    &&& -DECIMAL_LIMIT <= decimal_scale(t) <= DECIMAL_LIMIT
}

/// `BigDecimal::from_str(t).is_ok()`.
#[verifier::external_body]
pub(crate) fn decimal_parses(t: &str) -> (r: bool)
    ensures
        r == decimal_valid(t@),
{
    t.parse::<bigdecimal::BigDecimal>().is_ok()
}

/// `fractional_digit_count` of the decimal a text denotes.
#[verifier::external_body]
fn decimal_scale_of(t: &str) -> (r: i64)
    requires
        decimal_valid(t@),
    ensures
        r == decimal_scale(t@),
{
    t.parse::<bigdecimal::BigDecimal>().unwrap().fractional_digit_count()
}

/// Whether the operations take a text (see `decimal_fits`).
pub fn decimal_in_limits(t: &str) -> (r: bool)
    ensures
        r == decimal_fits(t@),
{
    if !decimal_parses(t) {
        return false;
    }
    if t.unicode_len() > 1000000 {
        return false;
    }
    let scale = decimal_scale_of(t);
    -1000000 <= scale && scale <= 1000000
}

/// Whether a decimal text denotes zero (`== BigDecimal::from(0)`).
#[verifier::external_body]
fn decimal_zero(t: &str) -> (r: bool)
    requires
        decimal_valid(t@),
    ensures
        r == decimal_is_zero(t@),
{
    t.parse::<bigdecimal::BigDecimal>().unwrap() == bigdecimal::BigDecimal::from(0)
}

/// Whether a decimal text denotes one (`== BigDecimal::from(1)`).
#[verifier::external_body]
fn decimal_one(t: &str) -> (r: bool)
    requires
        decimal_valid(t@),
    ensures
        r == decimal_is_one(t@),
{
    t.parse::<bigdecimal::BigDecimal>().unwrap() == bigdecimal::BigDecimal::from(1)
}

/// The product of two decimals (`*`, which adds the scales unchecked), as
/// text; the text parses again, as the crate's own round-trip tests of its
/// text form check.
#[verifier::external_body]
pub(crate) fn decimal_mul(a: &str, b: &str) -> (r: String)
    requires
        decimal_fits(a@),
        decimal_fits(b@),
    ensures
        r@ == decimal_product(a@, b@),
        decimal_valid(r@),
{
    (a.parse::<bigdecimal::BigDecimal>().unwrap() * b.parse::<bigdecimal::BigDecimal>().unwrap()).to_string()
}

/// The quotient of two decimals (`/`, which panics on a zero divisor and
/// subtracts the scales unchecked), as text that parses again.
#[verifier::external_body]
fn decimal_div(a: &str, b: &str) -> (r: String)
    requires
        decimal_fits(a@),
        decimal_fits(b@),
        !decimal_is_zero(b@),
    ensures
        r@ == decimal_quotient(a@, b@),
        decimal_valid(r@),
{
    (a.parse::<bigdecimal::BigDecimal>().unwrap() / b.parse::<bigdecimal::BigDecimal>().unwrap()).to_string()
}

/// `BigDecimal::normalized` rendered as text (it lowers the scale by the
/// trailing zeros, unchecked).
#[verifier::external_body]
pub(crate) fn decimal_text(t: &str) -> (r: String)
    requires
        decimal_fits(t@),
    ensures
        r@ == decimal_normalized(t@),
{
    t.parse::<bigdecimal::BigDecimal>().unwrap().normalized().to_string()
}

/// The text of a decimal rounded to a scale, halves to even
/// (`with_scale_round(scale, RoundingMode::HalfEven)`).
pub uninterp spec fn decimal_rounded(t: Seq<char>, scale: int) -> Seq<char>;

/// The first decimal is at most the second (`<=`).
pub uninterp spec fn decimal_at_most(a: Seq<char>, b: Seq<char>) -> bool;

/// A decimal rounded to `scale` places, halves to even, as text that parses
/// again. Rounding to a larger scale multiplies by a power of ten of the
/// difference, so the scale is bounded like the text's.
#[verifier::external_body]
pub(crate) fn decimal_round_half_even(t: &str, scale: i64) -> (r: String)
    requires
        decimal_fits(t@),
        -DECIMAL_LIMIT <= scale <= DECIMAL_LIMIT,
    ensures
        r@ == decimal_rounded(t@, scale as int),
        decimal_valid(r@),
{
    t.parse::<bigdecimal::BigDecimal>().unwrap().with_scale_round(scale, bigdecimal::RoundingMode::HalfEven).to_string()
}

/// Whether one decimal is at most another (`<=`, which compares scales with
/// checked differences).
#[verifier::external_body]
pub(crate) fn decimal_le(a: &str, b: &str) -> (r: bool)
    requires
        decimal_valid(a@),
        decimal_valid(b@),
    ensures
        r == decimal_at_most(a@, b@),
{
    a.parse::<bigdecimal::BigDecimal>().unwrap() <= b.parse::<bigdecimal::BigDecimal>().unwrap()
}

/// The decimal lies between two decimals, both included.
pub open spec fn decimal_between(t: Seq<char>, low: Seq<char>, high: Seq<char>) -> bool {
    decimal_valid(low) && decimal_valid(high) && decimal_at_most(low, t) && decimal_at_most(t, high)
}

/// Whether a decimal lies between `low` and `high`, both included (false
/// where a bound is no decimal).
pub fn decimal_within(t: &str, low: &str, high: &str) -> (r: bool)
    requires
        decimal_valid(t@),
    ensures
        r == decimal_between(t@, low@, high@),
{
    decimal_parses(low) && decimal_parses(high) && decimal_le(low, t) && decimal_le(t, high)
}

// ---------------------------------------------------------------------------
// Reading values
// ---------------------------------------------------------------------------

/// The value of a key of a map, if any.
pub open spec fn lookup<V>(m: Map<Seq<char>, V>, k: Seq<char>) -> Option<V> {
    if m.dom().contains(k) {
        Some(m[k])
    } else {
        None
    }
}

/// A non-empty string value.
pub open spec fn nonempty_text(v: Option<JsonValue>) -> Option<Seq<char>> {
    match v {
        Some(JsonValue::String(s)) => if s@.len() > 0 {
            Some(s@)
        } else {
            None
        },
        _ => None,
    }
}

/// The decimal text of a value: a string (trimmed) or a number that parses
/// as a decimal.
pub open spec fn decimal_of(v: Option<JsonValue>) -> Option<Seq<char>> {
    let t = match v {
        Some(JsonValue::String(s)) => Some(trim(s@)),
        Some(JsonValue::Number(n)) => Some(n@),
        _ => None,
    };
    match t {
        Some(x) => if decimal_valid(x) {
            Some(x)
        } else {
            None
        },
        None => None,
    }
}

pub(crate) fn nonempty_text_of(v: Option<&JsonValue>) -> (r: Option<&str>)
    ensures
        match r {
            Some(s) => nonempty_text(crate::json::deref_opt(v)) == Some(s@),
            None => nonempty_text(crate::json::deref_opt(v)) is None,
        },
{
    match v {
        Some(JsonValue::String(s)) => if s.as_str().is_empty() {
            None
        } else {
            Some(s.as_str())
        },
        _ => None,
    }
}

pub(crate) fn decimal_of_value(v: Option<&JsonValue>) -> (r: Option<String>)
    ensures
        match r {
            Some(s) => decimal_of(crate::json::deref_opt(v)) == Some(s@),
            None => decimal_of(crate::json::deref_opt(v)) is None,
        },
{
    let t = match v {
        Some(JsonValue::String(s)) => trim_str(s.as_str()),
        Some(JsonValue::Number(n)) => n.clone(),
        _ => {
            return None;
        },
    };
    if decimal_parses(t.as_str()) {
        Some(t)
    } else {
        None
    }
}

// ---------------------------------------------------------------------------
// The indexes
// ---------------------------------------------------------------------------

/// A unit: its conversion factor (decimal text), its group and its name.
#[derive(Debug)]
pub struct UnitRecord {
    pub factor: String,
    pub group_id: String,
    pub name: Option<String>,
}

/// The reference unit of a unit group.
#[derive(Debug)]
pub struct GroupReference {
    pub unit_id: Option<String>,
    pub unit_name: String,
}

/// A flow's conversion factor to each of its flow properties, and its
/// reference flow property.
#[derive(Debug)]
pub struct FlowRecord {
    pub factors: TextMap<String>,
    pub reference_property_id: String,
    pub reference_property_name: Option<String>,
}

/// The units, reference units, flow property groups and flows of an import.
#[derive(Debug)]
pub struct UnitIndexes {
    units: TextMap<UnitRecord>,
    group_references: TextMap<GroupReference>,
    property_groups: TextMap<String>,
    /// Each flow property with a unit group, in order, as (group, property).
    group_properties: Vec<(String, String)>,
    flows: TextMap<FlowRecord>,
}

/// The flow properties of a unit group, in the order they were added.
pub open spec fn candidates(pairs: Seq<(String, String)>, group: Seq<char>) -> Seq<Seq<char>>
    decreases pairs.len(),
{
    if pairs.len() == 0 {
        Seq::empty()
    } else {
        let rest = candidates(pairs.drop_last(), group);
        if pairs.last().0@ == group {
            rest.push(pairs.last().1@)
        } else {
            rest
        }
    }
}

pub open spec fn opt_text(o: Option<String>) -> Option<Seq<char>> {
    match o {
        Some(s) => Some(s@),
        None => None,
    }
}

pub open spec fn unit_view(u: UnitRecord) -> (Seq<char>, Seq<char>, Option<Seq<char>>) {
    (u.factor@, u.group_id@, opt_text(u.name))
}

pub open spec fn reference_view(g: GroupReference) -> (Option<Seq<char>>, Seq<char>) {
    (opt_text(g.unit_id), g.unit_name@)
}

/// The items of an array member of an entity's source fields.
pub open spec fn raw_items(e: CanonicalEntity, key: Seq<char>) -> Seq<JsonValue> {
    match e.raw.member(key) {
        Some(JsonValue::Array(items)) => items@,
        _ => Seq::empty(),
    }
}

/// The units of a group that have an id and a decimal factor: id to
/// (factor, group, name), later units replacing earlier ones.
pub open spec fn group_units(items: Seq<JsonValue>, group: Seq<char>) -> Map<Seq<char>, (Seq<char>, Seq<char>, Option<Seq<char>>)>
    decreases items.len(),
{
    if items.len() == 0 {
        Map::empty()
    } else {
        let rest = group_units(items.drop_last(), group);
        let u = items.last();
        match (nonempty_text(u.member("@id"@)), decimal_of(u.member("conversionFactor"@))) {
            (Some(id), Some(f)) => rest.insert(id, (f, group, nonempty_text(u.member("name"@)))),
            _ => rest,
        }
    }
}

/// The first unit marked as the reference unit.
pub open spec fn first_marked(items: Seq<JsonValue>) -> Option<JsonValue>
    decreases items.len(),
{
    if items.len() == 0 {
        None
    } else if items[0].member("referenceUnit"@) == Some(JsonValue::Bool(true)) {
        Some(items[0])
    } else {
        first_marked(items.drop_first())
    }
}

/// The first unit whose conversion factor is one.
pub open spec fn first_unit_factor(items: Seq<JsonValue>) -> Option<JsonValue>
    decreases items.len(),
{
    if items.len() == 0 {
        None
    } else if (decimal_of(items[0].member("conversionFactor"@)) matches Some(f) && decimal_is_one(f)) {
        Some(items[0])
    } else {
        first_unit_factor(items.drop_first())
    }
}

/// The reference unit of a group: the first marked one, else the first with
/// factor one.
pub open spec fn reference_unit(items: Seq<JsonValue>) -> Option<JsonValue> {
    match first_marked(items) {
        Some(u) => Some(u),
        None => first_unit_factor(items),
    }
}

impl UnitIndexes {
    pub open spec fn units_map(self) -> Map<Seq<char>, (Seq<char>, Seq<char>, Option<Seq<char>>)> {
        self.units_view().map_values(|u: UnitRecord| unit_view(u))
    }

    pub open spec fn references_map(self) -> Map<Seq<char>, (Option<Seq<char>>, Seq<char>)> {
        self.references_view().map_values(|g: GroupReference| reference_view(g))
    }

    /// Each flow property's unit group.
    pub open spec fn groups_map(self) -> Map<Seq<char>, Seq<char>> {
        self.property_groups_view().map_values(|s: String| s@)
    }

    /// Each flow's factors and reference property.
    pub open spec fn flows_map(self) -> Map<Seq<char>, (Map<Seq<char>, Seq<char>>, Seq<char>, Option<Seq<char>>)> {
        self.flows_view().map_values(|r: FlowRecord| flow_view(r))
    }

    pub closed spec fn units_view(self) -> Map<Seq<char>, UnitRecord> {
        self.units.view()
    }

    pub closed spec fn references_view(self) -> Map<Seq<char>, GroupReference> {
        self.group_references.view()
    }

    pub closed spec fn property_groups_view(self) -> Map<Seq<char>, String> {
        self.property_groups.view()
    }

    /// The flow properties of a unit group, in order.
    pub closed spec fn group_properties_view(self, group: Seq<char>) -> Seq<Seq<char>> {
        candidates(self.group_properties@, group)
    }

    pub closed spec fn flows_view(self) -> Map<Seq<char>, FlowRecord> {
        self.flows.view()
    }

    /// Every factor of the indexes is a decimal text.
    pub open spec fn wf(self) -> bool {
        &&& forall|u: Seq<char>| #[trigger] self.units_view().dom().contains(u) ==> decimal_valid(self.units_view()[u].factor@)
        &&& forall|f: Seq<char>, p: Seq<char>|
            #[trigger] self.flows_view().dom().contains(f) && #[trigger] self.flows_view()[f].factors.view().dom().contains(p)
                ==> decimal_valid(self.flows_view()[f].factors.view()[p]@)
    }

    /// Empty indexes.
    pub fn new() -> (r: Self)
        ensures
            r.wf(),
            r.units_view() == Map::<Seq<char>, UnitRecord>::empty(),
            r.references_view() == Map::<Seq<char>, GroupReference>::empty(),
            r.property_groups_view() == Map::<Seq<char>, String>::empty(),
            forall|g: Seq<char>| #[trigger] r.group_properties_view(g) == Seq::<Seq<char>>::empty(),
            r.flows_view() == Map::<Seq<char>, FlowRecord>::empty(),
    {
        UnitIndexes {
            units: TextMap::new(),
            group_references: TextMap::new(),
            property_groups: TextMap::new(),
            group_properties: Vec::new(),
            flows: TextMap::new(),
        }
    }

    /// Indexes the units of a unit group (see `group_units`) and its
    /// reference unit (see `reference_unit`) where that has a name.
    pub fn add_unit_group(&mut self, group: &CanonicalEntity)
        requires
            old(self).wf(),
        ensures
            final(self).wf(),
            final(self).units_map() == old(self).units_map().union_prefer_right(
                group_units(raw_items(*group, "units"@), group.internal_id@),
            ),
            final(self).references_map() == match reference_unit(raw_items(*group, "units"@)) {
                Some(u) => match nonempty_text(u.member("name"@)) {
                    Some(n) => old(self).references_map().insert(group.internal_id@, (nonempty_text(u.member("@id"@)), n)),
                    None => old(self).references_map(),
                },
                None => old(self).references_map(),
            },
            final(self).property_groups_view() == old(self).property_groups_view(),
            forall|g: Seq<char>| #[trigger] final(self).group_properties_view(g) == old(self).group_properties_view(g),
            final(self).flows_view() == old(self).flows_view(),
    {
        let none: Vec<JsonValue> = Vec::new();
        let items: &Vec<JsonValue> = match group.raw.get("units") {
            Some(JsonValue::Array(a)) => a,
            _ => &none,
        };
        let ghost its = items@;
        assert(its == raw_items(*group, "units"@)) by {
            if !(group.raw.member("units"@) matches Some(JsonValue::Array(_))) {
                assert(none@ =~= Seq::<JsonValue>::empty());
            }
        }
        let ghost start = self.units_map();
        let mut i: usize = 0;
        assert(start.union_prefer_right(group_units(its.subrange(0, 0), group.internal_id@)) =~= start);
        while i < items.len()
            invariant
                i <= its.len(),
                its == items@,
                self.wf(),
                self.units_map() == start.union_prefer_right(group_units(its.subrange(0, i as int), group.internal_id@)),
                self.references_map() == old(self).references_map(),
                self.property_groups_view() == old(self).property_groups_view(),
                self.group_properties@ == old(self).group_properties@,
                self.flows_view() == old(self).flows_view(),
            decreases its.len() - i,
        {
            let u = &items[i];
            let ghost before = self.units_map();
            let id = nonempty_text_of(u.get("@id"));
            let factor = decimal_of_value(u.get("conversionFactor"));
            let ghost sub = its.subrange(0, i + 1);
            assert(sub.drop_last() =~= its.subrange(0, i as int));
            assert(sub.last() == its[i as int]);
            match (id, factor) {
                (Some(id), Some(factor)) => {
                    let name = match nonempty_text_of(u.get("name")) {
                        Some(n) => Some(owned(n)),
                        None => None,
                    };
                    let record = UnitRecord { factor, group_id: group.internal_id.clone(), name };
                    let ghost rv = unit_view(record);
                    self.units.insert(owned(id), record);
                    proof {
                        assert(self.units_map() =~= before.insert(id@, rv));
                        assert(self.units_map() =~= start.union_prefer_right(group_units(sub, group.internal_id@)));
                    }
                },
                _ => {
                    assert(self.units_map() =~= start.union_prefer_right(group_units(sub, group.internal_id@)));
                },
            }
            i = i + 1;
        }
        assert(its.subrange(0, its.len() as int) =~= its);
        let reference = reference_unit_of(items);
        match reference {
            Some(u) => {
                match nonempty_text_of(u.get("name")) {
                    Some(n) => {
                        let unit_id = match nonempty_text_of(u.get("@id")) {
                            Some(x) => Some(owned(x)),
                            None => None,
                        };
                        let g = GroupReference { unit_id, unit_name: owned(n) };
                        let ghost gv = reference_view(g);
                        let ghost before = self.references_map();
                        self.group_references.insert(group.internal_id.clone(), g);
                        assert(self.references_map() =~= before.insert(group.internal_id@, gv));
                    },
                    None => {},
                }
            },
            None => {},
        }
    }

    /// Indexes a flow property under its unit group, where it names one.
    pub fn add_property(&mut self, property: &CanonicalEntity)
        requires
            old(self).wf(),
        ensures
            final(self).wf(),
            final(self).units_view() == old(self).units_view(),
            final(self).references_view() == old(self).references_view(),
            final(self).flows_view() == old(self).flows_view(),
            match nonempty_text(property.raw.member("unitGroupRefId"@)) {
                Some(g) => {
                    &&& final(self).groups_map() == old(self).groups_map().insert(property.internal_id@, g)
                    &&& final(self).group_properties_view(g) == old(self).group_properties_view(g).push(property.internal_id@)
                    &&& forall|h: Seq<char>| h != g ==> #[trigger] final(self).group_properties_view(h) == old(self).group_properties_view(h)
                },
                None => {
                    &&& final(self).groups_map() == old(self).groups_map()
                    &&& forall|h: Seq<char>| #[trigger] final(self).group_properties_view(h) == old(self).group_properties_view(h)
                },
            },
    {
        match nonempty_text_of(property.raw.get("unitGroupRefId")) {
            Some(g) => {
                let ghost before = self.groups_map();
                let ghost pairs = self.group_properties@;
                self.property_groups.insert(property.internal_id.clone(), owned(g));
                self.group_properties.push((owned(g), property.internal_id.clone()));
                proof {
                    assert(self.groups_map() =~= before.insert(property.internal_id@, g@));
                    assert(self.group_properties@.drop_last() =~= pairs);
                }
            },
            None => {},
        }
    }

    /// Indexes a flow's conversion factors (see `flow_factors`) and its
    /// reference flow property (see `reference_pair`), where it has one.
    pub fn add_flow(&mut self, flow: &CanonicalEntity)
        requires
            old(self).wf(),
        ensures
            final(self).wf(),
            final(self).units_view() == old(self).units_view(),
            final(self).references_view() == old(self).references_view(),
            final(self).property_groups_view() == old(self).property_groups_view(),
            forall|h: Seq<char>| #[trigger] final(self).group_properties_view(h) == old(self).group_properties_view(h),
            final(self).flows_map() == match reference_pair(raw_items(*flow, "flowProperties"@)) {
                Some((pid, pname)) => old(self).flows_map().insert(
                    flow.internal_id@,
                    (flow_factors(raw_items(*flow, "flowProperties"@)), pid, pname),
                ),
                None => old(self).flows_map(),
            },
    {
        let none: Vec<JsonValue> = Vec::new();
        let items: &Vec<JsonValue> = match flow.raw.get("flowProperties") {
            Some(JsonValue::Array(a)) => a,
            _ => &none,
        };
        let ghost its = items@;
        assert(its == raw_items(*flow, "flowProperties"@)) by {
            if !(flow.raw.member("flowProperties"@) matches Some(JsonValue::Array(_))) {
                assert(none@ =~= Seq::<JsonValue>::empty());
            }
        }
        let mut factors: TextMap<String> = TextMap::new();
        let mut first: Option<(String, Option<String>)> = None;
        let mut reference: Option<(String, Option<String>)> = None;
        let mut i: usize = 0;
        proof {
            assert(its.subrange(0, 0) =~= Seq::<JsonValue>::empty());
            assert(factors.view().map_values(|s: String| s@) =~= flow_factors(its.subrange(0, 0)));
            assert(its.subrange(0, its.len() as int) =~= its);
        }
        while i < items.len()
            invariant
                i <= its.len(),
                its == items@,
                factors.view().map_values(|s: String| s@) == flow_factors(its.subrange(0, i as int)),
                forall|p: Seq<char>| #[trigger] factors.view().dom().contains(p) ==> decimal_valid(factors.view()[p]@),
                first_pair(its, false) == match first {
                    Some((a, b)) => Some((a@, opt_text(b))),
                    None => first_pair(its.subrange(i as int, its.len() as int), false),
                },
                first_pair(its, true) == match reference {
                    Some((a, b)) => Some((a@, opt_text(b))),
                    None => first_pair(its.subrange(i as int, its.len() as int), true),
                },
            decreases its.len() - i,
        {
            let e = &items[i];
            let ghost pre = its.subrange(0, i + 1);
            let ghost suf = its.subrange(i as int, its.len() as int);
            assert(pre.drop_last() =~= its.subrange(0, i as int));
            assert(pre.last() == its[i as int]);
            assert(suf[0] == its[i as int]);
            assert(suf.drop_first() =~= its.subrange(i + 1, its.len() as int));
            let marked = match e.get("isRefFlowProperty") {
                Some(JsonValue::Bool(b)) => *b,
                _ => false,
            };
            match entry_pair_of(e) {
                Some((id, name, factor)) => {
                    if first.is_none() {
                        first = Some((id.clone(), clone_opt(&name)));
                    }
                    if marked && reference.is_none() {
                        reference = Some((id.clone(), clone_opt(&name)));
                    }
                    let ghost before = factors.view();
                    let ghost fv = factor@;
                    factors.insert(id, factor);
                    proof {
                        assert(factors.view().map_values(|s: String| s@) =~= before.map_values(|s: String| s@).insert(
                            its[i as int].member("flowProperty"@)->0.member("@id"@)->0->String_0@,
                            fv,
                        ));
                    }
                },
                None => {},
            }
            i = i + 1;
        }
        let chosen = match reference {
            Some(r) => Some(r),
            None => first,
        };
        match chosen {
            Some((pid, pname)) => {
                let record = FlowRecord { factors, reference_property_id: pid, reference_property_name: pname };
                let ghost before = self.flows_map();
                let ghost rv = flow_view(record);
                self.flows.insert(flow.internal_id.clone(), record);
                assert(self.flows_map() =~= before.insert(flow.internal_id@, rv));
            },
            None => {},
        }
    }
}

/// An optional text, copied.
fn clone_opt(o: &Option<String>) -> (r: Option<String>)
    ensures
        opt_text(r) == opt_text(*o),
{
    match o {
        Some(s) => Some(s.clone()),
        None => None,
    }
}

/// The indexable part of a flow property entry (see `entry_pair`).
fn entry_pair_of(e: &JsonValue) -> (r: Option<(String, Option<String>, String)>)
    ensures
        match r {
            Some((id, name, f)) => entry_pair(*e) == Some((id@, opt_text(name), f@)),
            None => entry_pair(*e) is None,
        },
{
    let prop = match e.get("flowProperty") {
        Some(p) => p,
        None => {
            return None;
        },
    };
    let id = match nonempty_text_of(prop.get("@id")) {
        Some(x) => x,
        None => {
            return None;
        },
    };
    let factor = match e.get("conversionFactor") {
        None => {
            let one = owned("1");
            if decimal_parses(one.as_str()) {
                Some(one)
            } else {
                None
            }
        },
        Some(v) => decimal_of_value(Some(v)),
    };
    match factor {
        Some(f) => {
            let name = match nonempty_text_of(prop.get("name")) {
                Some(n) => Some(owned(n)),
                None => None,
            };
            Some((owned(id), name, f))
        },
        None => None,
    }
}

/// A flow record as a mathematical value: its factors, its reference property
/// and that property's name.
pub open spec fn flow_view(r: FlowRecord) -> (Map<Seq<char>, Seq<char>>, Seq<char>, Option<Seq<char>>) {
    (r.factors.view().map_values(|s: String| s@), r.reference_property_id@, opt_text(r.reference_property_name))
}

/// A flow property entry of a flow that can be indexed: the property's id,
/// its name and the conversion factor (one where the entry gives none).
pub open spec fn entry_pair(e: JsonValue) -> Option<(Seq<char>, Option<Seq<char>>, Seq<char>)> {
    match e.member("flowProperty"@) {
        Some(prop) => match nonempty_text(prop.member("@id"@)) {
            Some(id) => {
                let factor = match e.member("conversionFactor"@) {
                    None => if decimal_valid("1"@) {
                        Some("1"@)
                    } else {
                        None
                    },
                    Some(v) => decimal_of(Some(v)),
                };
                match factor {
                    Some(f) => Some((id, nonempty_text(prop.member("name"@)), f)),
                    None => None,
                }
            },
            None => None,
        },
        None => None,
    }
}

/// The conversion factors of a flow's entries, later entries replacing earlier ones.
pub open spec fn flow_factors(entries: Seq<JsonValue>) -> Map<Seq<char>, Seq<char>>
    decreases entries.len(),
{
    if entries.len() == 0 {
        Map::empty()
    } else {
        let rest = flow_factors(entries.drop_last());
        match entry_pair(entries.last()) {
            Some(t) => rest.insert(t.0, t.2),
            None => rest,
        }
    }
}

/// The property id and name of an indexable entry.
pub open spec fn id_and_name(t: Option<(Seq<char>, Option<Seq<char>>, Seq<char>)>) -> Option<(Seq<char>, Option<Seq<char>>)> {
    match t {
        Some((id, name, _f)) => Some((id, name)),
        None => None,
    }
}

pub open spec fn id_of_pair(t: Option<(Seq<char>, Option<Seq<char>>, Seq<char>)>) -> Seq<char> {
    match t {
        Some((id, _name, _f)) => id,
        None => Seq::empty(),
    }
}

/// The first indexable entry (marked as the reference where `marked`).
pub open spec fn first_pair(entries: Seq<JsonValue>, marked: bool) -> Option<(Seq<char>, Option<Seq<char>>)>
    decreases entries.len(),
{
    if entries.len() == 0 {
        None
    } else {
        let e = entries[0];
        if entry_pair(e) is Some && (!marked || e.member("isRefFlowProperty"@) == Some(JsonValue::Bool(true))) {
            id_and_name(entry_pair(e))
        } else {
            first_pair(entries.drop_first(), marked)
        }
    }
}

/// The reference flow property of a flow: the first marked entry, else the first entry.
pub open spec fn reference_pair(entries: Seq<JsonValue>) -> Option<(Seq<char>, Option<Seq<char>>)> {
    match first_pair(entries, true) {
        Some(p) => Some(p),
        None => first_pair(entries, false),
    }
}

/// An entry of a flow's property list that is marked as its reference.
pub open spec fn marked_reference(e: JsonValue) -> bool {
    e.member("isRefFlowProperty"@) == Some(JsonValue::Bool(true))
}

/// An entry that can be indexed, and is marked where `marked`.
pub open spec fn eligible(e: JsonValue, marked: bool) -> bool {
    entry_pair(e) is Some && (!marked || marked_reference(e))
}

proof fn lemma_first_pair(entries: Seq<JsonValue>, marked: bool)
    ensures
        first_pair(entries, marked) is None <==> forall|i: int| 0 <= i < entries.len() ==> !eligible(#[trigger] entries[i], marked),
        first_pair(entries, marked) is Some ==> exists|j: int|
            0 <= j < entries.len() && eligible(#[trigger] entries[j], marked) && first_pair(entries, marked) == id_and_name(entry_pair(entries[j]))
                && forall|k: int| 0 <= k < j ==> !eligible(#[trigger] entries[k], marked),
    decreases entries.len(),
{
    if entries.len() > 0 {
        let rest = entries.drop_first();
        lemma_first_pair(rest, marked);
        assert forall|i: int| 0 <= i < rest.len() implies #[trigger] rest[i] == entries[i + 1] by {}
        if eligible(entries[0], marked) {
            assert(first_pair(entries, marked) == id_and_name(entry_pair(entries[0])));
        } else {
            assert(first_pair(entries, marked) == first_pair(rest, marked));
            if first_pair(rest, marked) is Some {
                let j = choose|j: int|
                    0 <= j < rest.len() && eligible(#[trigger] rest[j], marked) && first_pair(rest, marked) == id_and_name(entry_pair(rest[j]))
                        && forall|k: int| 0 <= k < j ==> !eligible(#[trigger] rest[k], marked);
                assert(entries[j + 1] == rest[j]);
                assert forall|k: int| 0 <= k < j + 1 implies !eligible(#[trigger] entries[k], marked) by {
                    if k > 0 {
                        assert(entries[k] == rest[k - 1]);
                    }
                }
            } else {
                assert forall|i: int| 0 <= i < entries.len() implies !eligible(#[trigger] entries[i], marked) by {
                    if i > 0 {
                        assert(entries[i] == rest[i - 1]);
                    }
                }
            }
        }
    }
}

/// Law: a flow's reference property is the first indexable entry marked
/// `isRefFlowProperty: true` whenever it has one, wherever that entry stands in
/// the list; only where no indexable entry is marked does the first indexable
/// entry serve, and a flow without indexable entries has none.
pub proof fn law_marked_reference_property_wins(entries: Seq<JsonValue>)
    ensures
        (exists|i: int| 0 <= i < entries.len() && eligible(#[trigger] entries[i], true)) ==> exists|j: int|
            0 <= j < entries.len() && eligible(#[trigger] entries[j], true) && reference_pair(entries) == id_and_name(
                entry_pair(entries[j]),
            ) && forall|k: int| 0 <= k < j ==> !eligible(#[trigger] entries[k], true),
        (forall|i: int| 0 <= i < entries.len() ==> !eligible(#[trigger] entries[i], true)) ==> (reference_pair(entries)
            == first_pair(entries, false)),
        reference_pair(entries) is None <==> forall|i: int| 0 <= i < entries.len() ==> entry_pair(#[trigger] entries[i]) is None,
        reference_pair(entries) is Some ==> exists|j: int|
            0 <= j < entries.len() && entry_pair(#[trigger] entries[j]) is Some && reference_pair(entries) == id_and_name(
                entry_pair(entries[j]),
            ),
{
    lemma_first_pair(entries, true);
    lemma_first_pair(entries, false);
    if reference_pair(entries) is None {
        assert forall|i: int| 0 <= i < entries.len() implies entry_pair(#[trigger] entries[i]) is None by {
            assert(!eligible(entries[i], false));
        }
    }
    if forall|i: int| 0 <= i < entries.len() ==> entry_pair(#[trigger] entries[i]) is None {
        assert forall|i: int| 0 <= i < entries.len() implies !eligible(#[trigger] entries[i], false) by {}
        assert forall|i: int| 0 <= i < entries.len() implies !eligible(#[trigger] entries[i], true) by {}
    }
    if first_pair(entries, true) is Some {
        let j = choose|j: int|
            0 <= j < entries.len() && eligible(#[trigger] entries[j], true) && first_pair(entries, true) == id_and_name(entry_pair(entries[j]))
                && forall|k: int| 0 <= k < j ==> !eligible(#[trigger] entries[k], true);
        assert(entry_pair(entries[j]) is Some);
    } else if first_pair(entries, false) is Some {
        let j = choose|j: int|
            0 <= j < entries.len() && eligible(#[trigger] entries[j], false) && first_pair(entries, false) == id_and_name(entry_pair(entries[j]))
                && forall|k: int| 0 <= k < j ==> !eligible(#[trigger] entries[k], false);
        assert(entry_pair(entries[j]) is Some);
    }
}

/// The reference unit of a group (see `reference_unit`).
fn reference_unit_of(items: &Vec<JsonValue>) -> (r: Option<&JsonValue>)
    ensures
        crate::json::deref_opt(r) == reference_unit(items@),
{
    let mut i: usize = 0;
    assert(items@.subrange(0, items@.len() as int) =~= items@);
    while i < items.len()
        invariant
            i <= items@.len(),
            first_marked(items@) == first_marked(items@.subrange(i as int, items@.len() as int)),
        decreases items@.len() - i,
    {
        let ghost sub = items@.subrange(i as int, items@.len() as int);
        assert(sub[0] == items@[i as int]);
        assert(sub.drop_first() =~= items@.subrange(i + 1, items@.len() as int));
        let marked = match items[i].get("referenceUnit") {
            Some(JsonValue::Bool(b)) => *b,
            _ => false,
        };
        if marked {
            return Some(&items[i]);
        }
        i = i + 1;
    }
    assert(items@.subrange(items@.len() as int, items@.len() as int) =~= Seq::<JsonValue>::empty());
    let mut i: usize = 0;
    while i < items.len()
        invariant
            i <= items@.len(),
            first_marked(items@) is None,
            first_unit_factor(items@) == first_unit_factor(items@.subrange(i as int, items@.len() as int)),
        decreases items@.len() - i,
    {
        let ghost sub = items@.subrange(i as int, items@.len() as int);
        assert(sub[0] == items@[i as int]);
        assert(sub.drop_first() =~= items@.subrange(i + 1, items@.len() as int));
        let one = match decimal_of_value(items[i].get("conversionFactor")) {
            Some(f) => decimal_one(f.as_str()),
            None => false,
        };
        if one {
            return Some(&items[i]);
        }
        i = i + 1;
    }
    assert(items@.subrange(items@.len() as int, items@.len() as int) =~= Seq::<JsonValue>::empty());
    None
}

// ---------------------------------------------------------------------------
// Restating one exchange
// ---------------------------------------------------------------------------

/// What the rule did with an exchange.
#[derive(Debug, Clone, Copy)]
pub enum NormalizationOutcome {
    NoUnitInfo,
    AlreadyReference,
    Normalized { cross_property: bool },
    /// The exchange was left as it was; the reason.
    Unresolved(&'static str),
}

/// What the rule did, as a mathematical value.
pub enum Normalization {
    NoUnitInfo,
    AlreadyReference,
    Normalized(bool),
    Unresolved(Seq<char>),
}

pub open spec fn outcome_of(o: NormalizationOutcome) -> Normalization {
    match o {
        NormalizationOutcome::NoUnitInfo => Normalization::NoUnitInfo,
        NormalizationOutcome::AlreadyReference => Normalization::AlreadyReference,
        NormalizationOutcome::Normalized { cross_property } => Normalization::Normalized(cross_property),
        NormalizationOutcome::Unresolved(r) => Normalization::Unresolved(r@),
    }
}

/// The JSON values of an exchange's members.
pub open spec fn json_view(m: Map<Seq<char>, JsonValue>) -> Map<Seq<char>, JsonData> {
    m.map_values(|v: JsonValue| data(v))
}

pub proof fn lemma_json_view_insert(m: Map<Seq<char>, JsonValue>, k: Seq<char>, v: JsonValue)
    ensures
        json_view(m.insert(k, v)) == json_view(m).insert(k, data(v)),
{
    assert(json_view(m.insert(k, v)) =~= json_view(m).insert(k, data(v)));
}

pub proof fn lemma_json_view_remove(m: Map<Seq<char>, JsonValue>, k: Seq<char>)
    ensures
        json_view(m.remove(k)) == json_view(m).remove(k),
{
    assert(json_view(m.remove(k)) =~= json_view(m).remove(k));
}

/// The candidate properties that the flow (if any) has a factor for.
pub open spec fn matching(cands: Seq<Seq<char>>, flow: Option<FlowRecord>) -> Seq<Seq<char>>
    decreases cands.len(),
{
    if cands.len() == 0 {
        Seq::empty()
    } else {
        let rest = matching(cands.drop_last(), flow);
        if flow is None || flow->0.factors.view().dom().contains(cands.last()) {
            rest.push(cands.last())
        } else {
            rest
        }
    }
}

/// The flow property of an exchange and its unit group: the one it names, or
/// else the only property of the unit's group that the flow has a factor for.
pub open spec fn exchange_property(x: Map<Seq<char>, JsonValue>, unit: UnitRecord, idx: UnitIndexes) -> Option<(Seq<char>, Seq<char>)> {
    match nonempty_text(lookup(x, "flowPropertyRefId"@)) {
        Some(p) => match lookup(idx.property_groups_view(), p) {
            Some(g) => Some((p, g@)),
            None => None,
        },
        None => {
            let flow = match nonempty_text(lookup(x, "flowRefId"@)) {
                Some(f) => lookup(idx.flows_view(), f),
                None => None,
            };
            let m = matching(idx.group_properties_view(unit.group_id@), flow);
            if m.len() == 1 {
                Some((m[0], unit.group_id@))
            } else {
                None
            }
        },
    }
}

/// A member copied to another name, where it is there.
pub open spec fn preserve(m: Map<Seq<char>, JsonData>, source: Seq<char>, target: Seq<char>) -> Map<Seq<char>, JsonData> {
    if m.dom().contains(source) {
        m.insert(target, m[source])
    } else {
        m
    }
}

/// A member set to a text, or removed where there is none.
pub open spec fn set_or_remove(m: Map<Seq<char>, JsonData>, key: Seq<char>, v: Option<Seq<char>>) -> Map<Seq<char>, JsonData> {
    match v {
        Some(t) => m.insert(key, JsonData::Text(t)),
        None => m.remove(key),
    }
}

/// A bound of the exchange, where it is a decimal, and its product with the
/// factor are within the decimal limits.
pub open spec fn bound_fits(x: Map<Seq<char>, JsonValue>, key: Seq<char>, factor: Seq<char>) -> bool {
    match decimal_of(lookup(x, key)) {
        Some(b) => decimal_fits(b) && decimal_fits(decimal_product(b, factor)),
        None => true,
    }
}

/// The factor, the amount, their product and the rescaled bounds are within
/// the decimal limits, so that the exchange can be restated.
pub open spec fn restatable(x: Map<Seq<char>, JsonValue>, factor: Seq<char>, amount: Seq<char>) -> bool {
    &&& decimal_fits(factor)
    &&& decimal_fits(amount)
    &&& decimal_fits(decimal_product(amount, factor))
    &&& bound_fits(x, "minimumAmount"@, factor)
    &&& bound_fits(x, "maximumAmount"@, factor)
}

/// A bound of the exchange rescaled by the factor, where it is a decimal.
pub open spec fn rescale_bound(m: Map<Seq<char>, JsonData>, x: Map<Seq<char>, JsonValue>, key: Seq<char>, factor: Seq<char>) -> Map<Seq<char>, JsonData> {
    match decimal_of(lookup(x, key)) {
        Some(b) => m.insert(key, JsonData::Text(decimal_normalized(decimal_product(b, factor)))),
        None => m,
    }
}

/// The restated exchange: the source amount, unit and property kept under
/// `source…` names, the amount and bounds multiplied by the factor, the
/// target unit (and, across properties, the reference property) in place,
/// and a note of what was done.
pub open spec fn restated(
    x: Map<Seq<char>, JsonValue>,
    unit: UnitRecord,
    flow: FlowRecord,
    target: GroupReference,
    cross: bool,
    factor: Seq<char>,
    amount: Seq<char>,
) -> Map<Seq<char>, JsonData> {
    let d1 = preserve(
        preserve(
            preserve(preserve(preserve(json_view(x), "amount"@, "sourceAmount"@), "unitId"@, "sourceUnitId"@), "unitName"@,
                "sourceUnitName"@),
            "flowPropertyRefId"@,
            "sourceFlowPropertyRefId"@,
        ),
        "flowPropertyName"@,
        "sourceFlowPropertyName"@,
    );
    let d2 = d1.insert("amount"@, JsonData::Text(decimal_normalized(decimal_product(amount, factor))));
    let d3 = set_or_remove(d2, "unitId"@, opt_text(target.unit_id));
    let d4 = d3.insert("unitName"@, JsonData::Text(target.unit_name@));
    let d5 = if cross {
        set_or_remove(d4.insert("flowPropertyRefId"@, JsonData::Text(flow.reference_property_id@)), "flowPropertyName"@,
            opt_text(flow.reference_property_name))
    } else {
        d4
    };
    let d6 = rescale_bound(rescale_bound(d5, x, "minimumAmount"@, factor), x, "maximumAmount"@, factor);
    let source_unit = if d6.dom().contains("sourceUnitName"@) {
        d6["sourceUnitName"@]
    } else {
        match unit.name {
            Some(n) => JsonData::Text(n@),
            None => JsonData::Null,
        }
    };
    d6.insert("amountNormalization"@, JsonData::Object(seq![
        ("amountFormulaNotRescaled"@, JsonData::Bool(x.dom().contains("amountFormula"@))),
        ("crossProperty"@, JsonData::Bool(cross)),
        ("factor"@, JsonData::Text(decimal_normalized(factor))),
        ("sourceUnit"@, source_unit),
        ("targetUnit"@, JsonData::Text(target.unit_name@)),
    ]))
}

/// What the rule does with an exchange, and the exchange it leaves. The checks
/// go in order: a unit id, a known unit, the exchange's flow property, that
/// property in the unit's group, the flow's factors for the property and the
/// reference property, both non-zero, the reference unit of the target group,
/// the factor (unit factor times reference factor over property factor) not
/// one, and a decimal amount. Decimals beyond the limits the arithmetic takes
/// (see `decimal_fits`) leave the exchange unresolved as out of range.
pub open spec fn normalization(x: Map<Seq<char>, JsonValue>, idx: UnitIndexes) -> (Normalization, Map<Seq<char>, JsonData>) {
    let same = json_view(x);
    match nonempty_text(lookup(x, "unitId"@)) {
        None => (Normalization::NoUnitInfo, same),
        Some(uid) => match lookup(idx.units_view(), uid) {
            None => (Normalization::Unresolved("unknown_unit"@), same),
            Some(unit) => match exchange_property(x, unit, idx) {
                None => (Normalization::Unresolved("unknown_flow_property"@), same),
                Some((pid, pgroup)) => if pgroup != unit.group_id@ {
                    (Normalization::Unresolved("unit_not_in_property_group"@), same)
                } else {
                    let flow = match nonempty_text(lookup(x, "flowRefId"@)) {
                        Some(fid) => lookup(idx.flows_view(), fid),
                        None => None,
                    };
                    match flow {
                        None => (Normalization::Unresolved("missing_flow_factors"@), same),
                        Some(flow) => {
                            let fm = flow.factors.view();
                            match (lookup(fm, pid), lookup(fm, flow.reference_property_id@)) {
                                (Some(pf), Some(rf)) => if decimal_is_zero(pf@) || decimal_is_zero(rf@) {
                                    (Normalization::Unresolved("zero_factor"@), same)
                                } else {
                                    let cross = pid != flow.reference_property_id@;
                                    let group = if cross {
                                        match lookup(idx.property_groups_view(), flow.reference_property_id@) {
                                            Some(g) => Some(g@),
                                            None => None,
                                        }
                                    } else {
                                        Some(unit.group_id@)
                                    };
                                    match group {
                                        None => (Normalization::Unresolved("unknown_flow_property"@), same),
                                        Some(g) => match lookup(idx.references_view(), g) {
                                            None => (Normalization::Unresolved("missing_reference_unit"@), same),
                                            Some(target) => {
                                                let product = decimal_product(unit.factor@, rf@);
                                                if !(decimal_fits(unit.factor@) && decimal_fits(rf@) && decimal_fits(pf@)
                                                    && decimal_fits(product)) {
                                                    (Normalization::Unresolved("decimal_out_of_range"@), same)
                                                } else {
                                                    let factor = decimal_quotient(product, pf@);
                                                    if decimal_is_one(factor) {
                                                        (Normalization::AlreadyReference, same)
                                                    } else {
                                                        match decimal_of(lookup(x, "amount"@)) {
                                                            None => (Normalization::Unresolved("non_numeric_amount"@), same),
                                                            Some(amount) => if restatable(x, factor, amount) {
                                                                (Normalization::Normalized(cross), restated(
                                                                    x,
                                                                    unit,
                                                                    flow,
                                                                    target,
                                                                    cross,
                                                                    factor,
                                                                    amount,
                                                                ))
                                                            } else {
                                                                (Normalization::Unresolved("decimal_out_of_range"@), same)
                                                            },
                                                        }
                                                    }
                                                }
                                            },
                                        },
                                    }
                                },
                                _ => (Normalization::Unresolved("missing_flow_factors"@), same),
                            }
                        },
                    }
                },
            },
        },
    }
}

/// The flow property of an exchange and its group (see `exchange_property`).
fn exchange_property_of(exchange: &TextMap<JsonValue>, unit: &UnitRecord, idx: &UnitIndexes) -> (r: Option<(String, String)>)
    ensures
        match r {
            Some((p, g)) => exchange_property(exchange.view(), *unit, *idx) == Some((p@, g@)),
            None => exchange_property(exchange.view(), *unit, *idx) is None,
        },
{
    let ghost x = exchange.view();
    match nonempty_text_of(exchange.get("flowPropertyRefId")) {
        Some(p) => {
            match idx.property_groups.get(p) {
                Some(g) => Some((owned(p), g.clone())),
                None => None,
            }
        },
        None => {
            let flow: Option<&FlowRecord> = match nonempty_text_of(exchange.get("flowRefId")) {
                Some(f) => idx.flows.get(f),
                None => None,
            };
            let ghost fl = match flow {
                Some(r) => Some(*r),
                None => None,
            };
            assert(fl == match nonempty_text(lookup(x, "flowRefId"@)) {
                Some(f) => lookup(idx.flows_view(), f),
                None => None,
            });
            let pairs = &idx.group_properties;
            let ghost gid = unit.group_id@;
            let mut first: Option<String> = None;
            let mut many = false;
            let mut i: usize = 0;
            while i < pairs.len()
                invariant
                    i <= pairs@.len(),
                    *pairs == idx.group_properties,
                    gid == unit.group_id@,
                    fl == match flow {
                        Some(r) => Some(*r),
                        None => None,
                    },
                    match first {
                        Some(f) => matching(candidates(pairs@.subrange(0, i as int), gid), fl).len() >= 1
                            && matching(candidates(pairs@.subrange(0, i as int), gid), fl)[0] == f@,
                        None => matching(candidates(pairs@.subrange(0, i as int), gid), fl).len() == 0,
                    },
                    many == (matching(candidates(pairs@.subrange(0, i as int), gid), fl).len() >= 2),
                decreases pairs@.len() - i,
            {
                let ghost before = matching(candidates(pairs@.subrange(0, i as int), gid), fl);
                let ghost sub = pairs@.subrange(0, i + 1);
                assert(sub.drop_last() =~= pairs@.subrange(0, i as int));
                assert(sub.last() == pairs@[i as int]);
                if str_eq(pairs[i].0.as_str(), unit.group_id.as_str()) {
                    let has = match flow {
                        Some(r) => r.factors.get(pairs[i].1.as_str()).is_some(),
                        None => true,
                    };
                    if has {
                        if first.is_none() {
                            first = Some(pairs[i].1.clone());
                        } else {
                            many = true;
                        }
                    }
                    proof {
                        let c0 = candidates(pairs@.subrange(0, i as int), gid);
                        assert(candidates(sub, gid) == c0.push(pairs@[i as int].1@));
                        assert(c0.push(pairs@[i as int].1@).drop_last() =~= c0);
                        if has {
                            assert(matching(candidates(sub, gid), fl) == before.push(pairs@[i as int].1@));
                        } else {
                            assert(matching(candidates(sub, gid), fl) == before);
                        }
                    }
                } else {
                    assert(candidates(sub, gid) == candidates(pairs@.subrange(0, i as int), gid));
                }
                i = i + 1;
            }
            assert(pairs@.subrange(0, pairs@.len() as int) =~= pairs@);
            match first {
                Some(f) => if many {
                    None
                } else {
                    Some((f, unit.group_id.clone()))
                },
                None => None,
            }
        },
    }
}

/// The bounds and the formula of an exchange are as they were.
pub open spec fn keeps_bounds(a: Map<Seq<char>, JsonValue>, b: Map<Seq<char>, JsonValue>) -> bool {
    &&& lookup(a, "minimumAmount"@) == lookup(b, "minimumAmount"@)
    &&& lookup(a, "maximumAmount"@) == lookup(b, "maximumAmount"@)
    &&& lookup(a, "amountFormula"@) == lookup(b, "amountFormula"@)
}

/// Copies a member to another name, where it is there (see `preserve`).
fn preserve_member(exchange: &mut TextMap<JsonValue>, source: &str, target: &str)
    ensures
        json_view(final(exchange).view()) == preserve(json_view(old(exchange).view()), source@, target@),
        forall|k: Seq<char>| k != target@ ==> #[trigger] lookup(final(exchange).view(), k) == lookup(old(exchange).view(), k),
{
    let ghost before = exchange.view();
    let copy = match exchange.get(source) {
        Some(v) => Some(v.duplicate()),
        None => None,
    };
    match copy {
        Some(c) => {
            let ghost cv = c;
            exchange.insert(owned(target), c);
            proof {
                lemma_json_view_insert(before, target@, cv);
            }
        },
        None => {},
    }
}

/// Sets a member to a text, or removes it where there is none (see `set_or_remove`).
fn set_or_remove_member(exchange: &mut TextMap<JsonValue>, key: &str, v: Option<&String>)
    ensures
        json_view(final(exchange).view()) == set_or_remove(json_view(old(exchange).view()), key@, opt_text(
            match v {
                Some(s) => Some(*s),
                None => None,
            },
        )),
        forall|k: Seq<char>| k != key@ ==> #[trigger] lookup(final(exchange).view(), k) == lookup(old(exchange).view(), k),
{
    let ghost before = exchange.view();
    match v {
        Some(t) => {
            let value = JsonValue::String(t.clone());
            let ghost vv = value;
            exchange.insert(owned(key), value);
            proof {
                lemma_json_view_insert(before, key@, vv);
            }
        },
        None => {
            exchange.remove(key);
            proof {
                lemma_json_view_remove(before, key@);
            }
        },
    }
}

/// Whether a bound of the exchange can be rescaled (see `bound_fits`).
fn bound_in_limits(exchange: &TextMap<JsonValue>, key: &str, factor: &str) -> (r: bool)
    requires
        decimal_fits(factor@),
    ensures
        r == bound_fits(exchange.view(), key@, factor@),
{
    match decimal_of_value(exchange.get(key)) {
        Some(b) => {
            if !decimal_in_limits(b.as_str()) {
                return false;
            }
            let p = decimal_mul(b.as_str(), factor);
            decimal_in_limits(p.as_str())
        },
        None => true,
    }
}

/// Rescales a bound of the exchange where it is a decimal (see `rescale_bound`).
fn rescale_bound_member(exchange: &mut TextMap<JsonValue>, key: &str, factor: &str)
    requires
        decimal_fits(factor@),
        bound_fits(old(exchange).view(), key@, factor@),
    ensures
        json_view(final(exchange).view()) == rescale_bound(json_view(old(exchange).view()), old(exchange).view(), key@, factor@),
        forall|k: Seq<char>| k != key@ ==> #[trigger] lookup(final(exchange).view(), k) == lookup(old(exchange).view(), k),
{
    let ghost before = exchange.view();
    match decimal_of_value(exchange.get(key)) {
        Some(b) => {
            let scaled = decimal_mul(b.as_str(), factor);
            assert(decimal_fits(scaled@));
            let value = JsonValue::String(decimal_text(scaled.as_str()));
            let ghost vv = value;
            exchange.insert(owned(key), value);
            proof {
                lemma_json_view_insert(before, key@, vv);
            }
        },
        None => {},
    }
}

/// Restates an exchange's amount in the reference unit of its flow's
/// reference flow property (see `normalization`): the outcome, and the
/// exchange changed only where the amount was restated.
#[verifier::rlimit(60)]
pub fn normalize_exchange(exchange: &mut TextMap<JsonValue>, idx: &UnitIndexes) -> (r: NormalizationOutcome)
    requires
        idx.wf(),
    ensures
        (outcome_of(r), json_view(final(exchange).view())) == normalization(old(exchange).view(), *idx),
{
    let ghost x = exchange.view();
    let unit_id = match nonempty_text_of(exchange.get("unitId")) {
        Some(u) => owned(u),
        None => {
            return NormalizationOutcome::NoUnitInfo;
        },
    };
    let unit = match idx.units.get(unit_id.as_str()) {
        Some(u) => u,
        None => {
            return NormalizationOutcome::Unresolved("unknown_unit");
        },
    };
    assert(lookup(idx.units_view(), unit_id@) == Some(*unit));
    let (property_id, property_group) = match exchange_property_of(exchange, unit, idx) {
        Some(p) => p,
        None => {
            return NormalizationOutcome::Unresolved("unknown_flow_property");
        },
    };
    if !str_eq(property_group.as_str(), unit.group_id.as_str()) {
        return NormalizationOutcome::Unresolved("unit_not_in_property_group");
    }
    let flow_id = match nonempty_text_of(exchange.get("flowRefId")) {
        Some(f) => owned(f),
        None => {
            return NormalizationOutcome::Unresolved("missing_flow_factors");
        },
    };
    let flow = match idx.flows.get(flow_id.as_str()) {
        Some(f) => f,
        None => {
            return NormalizationOutcome::Unresolved("missing_flow_factors");
        },
    };
    let property_factor = match flow.factors.get(property_id.as_str()) {
        Some(f) => f,
        None => {
            return NormalizationOutcome::Unresolved("missing_flow_factors");
        },
    };
    let reference_factor = match flow.factors.get(flow.reference_property_id.as_str()) {
        Some(f) => f,
        None => {
            return NormalizationOutcome::Unresolved("missing_flow_factors");
        },
    };
    assert(idx.flows_view().dom().contains(flow_id@) && idx.flows_view()[flow_id@] == *flow);
    assert(decimal_valid(property_factor@) && decimal_valid(reference_factor@));
    if decimal_zero(property_factor.as_str()) || decimal_zero(reference_factor.as_str()) {
        return NormalizationOutcome::Unresolved("zero_factor");
    }
    let cross = !str_eq(property_id.as_str(), flow.reference_property_id.as_str());
    let target_group: &String = if cross {
        match idx.property_groups.get(flow.reference_property_id.as_str()) {
            Some(g) => g,
            None => {
                return NormalizationOutcome::Unresolved("unknown_flow_property");
            },
        }
    } else {
        &unit.group_id
    };
    let target = match idx.group_references.get(target_group.as_str()) {
        Some(t) => t,
        None => {
            return NormalizationOutcome::Unresolved("missing_reference_unit");
        },
    };
    assert(decimal_valid(unit.factor@));
    if !(decimal_in_limits(unit.factor.as_str()) && decimal_in_limits(reference_factor.as_str())
        && decimal_in_limits(property_factor.as_str())) {
        return NormalizationOutcome::Unresolved("decimal_out_of_range");
    }
    let product = decimal_mul(unit.factor.as_str(), reference_factor.as_str());
    if !decimal_in_limits(product.as_str()) {
        return NormalizationOutcome::Unresolved("decimal_out_of_range");
    }
    let factor = decimal_div(product.as_str(), property_factor.as_str());
    if decimal_one(factor.as_str()) {
        return NormalizationOutcome::AlreadyReference;
    }
    let amount = match decimal_of_value(exchange.get("amount")) {
        Some(a) => a,
        None => {
            return NormalizationOutcome::Unresolved("non_numeric_amount");
        },
    };
    if !decimal_in_limits(factor.as_str()) || !decimal_in_limits(amount.as_str()) {
        return NormalizationOutcome::Unresolved("decimal_out_of_range");
    }
    let scaled = decimal_mul(amount.as_str(), factor.as_str());
    if !decimal_in_limits(scaled.as_str()) || !bound_in_limits(exchange, "minimumAmount", factor.as_str())
        || !bound_in_limits(exchange, "maximumAmount", factor.as_str()) {
        return NormalizationOutcome::Unresolved("decimal_out_of_range");
    }
    let ghost want = restated(x, *unit, *flow, *target, cross, factor@, amount@);
    proof {
        reveal_strlit("minimumAmount");
        reveal_strlit("maximumAmount");
        reveal_strlit("amountFormula");
        reveal_strlit("sourceAmount");
        reveal_strlit("sourceUnitId");
        reveal_strlit("sourceUnitName");
        reveal_strlit("sourceFlowPropertyRefId");
        reveal_strlit("sourceFlowPropertyName");
        reveal_strlit("amount");
        reveal_strlit("unitId");
        reveal_strlit("unitName");
        reveal_strlit("flowPropertyRefId");
        reveal_strlit("flowPropertyName");
        reveal_strlit("amountNormalization");
        assert("minimumAmount"@.len() == 13 && "maximumAmount"@.len() == 13 && "amountFormula"@.len() == 13);
        assert("minimumAmount"@[1] == 'i' && "maximumAmount"@[1] == 'a' && "amountFormula"@[0] == 'a');
        assert("minimumAmount"@[0] == 'm' && "maximumAmount"@[0] == 'm');
        assert("sourceAmount"@.len() == 12 && "sourceUnitId"@.len() == 12 && "sourceUnitName"@.len() == 14);
        assert("sourceFlowPropertyRefId"@.len() == 23 && "sourceFlowPropertyName"@.len() == 22);
        assert("amount"@.len() == 6 && "unitId"@.len() == 6 && "unitName"@.len() == 8);
        assert("flowPropertyRefId"@.len() == 17 && "flowPropertyName"@.len() == 16);
        assert("amountNormalization"@.len() == 19);
    }
    preserve_member(exchange, "amount", "sourceAmount");
    assert(keeps_bounds(x, exchange.view()));
    preserve_member(exchange, "unitId", "sourceUnitId");
    assert(keeps_bounds(x, exchange.view()));
    preserve_member(exchange, "unitName", "sourceUnitName");
    assert(keeps_bounds(x, exchange.view()));
    preserve_member(exchange, "flowPropertyRefId", "sourceFlowPropertyRefId");
    assert(keeps_bounds(x, exchange.view()));
    preserve_member(exchange, "flowPropertyName", "sourceFlowPropertyName");
    assert(keeps_bounds(x, exchange.view()));
    let ghost v1 = exchange.view();
    let ghost d1 = preserve(
        preserve(
            preserve(preserve(preserve(json_view(x), "amount"@, "sourceAmount"@), "unitId"@, "sourceUnitId"@), "unitName"@,
                "sourceUnitName"@),
            "flowPropertyRefId"@,
            "sourceFlowPropertyRefId"@,
        ),
        "flowPropertyName"@,
        "sourceFlowPropertyName"@,
    );
    assert(json_view(v1) == d1);
    let amount_value = JsonValue::String(decimal_text(scaled.as_str()));
    let ghost av = amount_value;
    exchange.insert(owned("amount"), amount_value);
    proof {
        lemma_json_view_insert(v1, "amount"@, av);
    }
    assert(keeps_bounds(x, exchange.view()));
    let ghost d2 = d1.insert("amount"@, JsonData::Text(decimal_normalized(decimal_product(amount@, factor@))));
    assert(json_view(exchange.view()) == d2);
    set_or_remove_member(exchange, "unitId", target.unit_id.as_ref());
    assert(keeps_bounds(x, exchange.view()));
    let ghost d3 = set_or_remove(d2, "unitId"@, opt_text(target.unit_id));
    assert(json_view(exchange.view()) == d3);
    let ghost v3 = exchange.view();
    let unit_name = JsonValue::String(target.unit_name.clone());
    let ghost uv = unit_name;
    exchange.insert(owned("unitName"), unit_name);
    proof {
        lemma_json_view_insert(v3, "unitName"@, uv);
    }
    assert(keeps_bounds(x, exchange.view()));
    if cross {
        let ghost v4 = exchange.view();
        let reference_id = JsonValue::String(flow.reference_property_id.clone());
        let ghost rv = reference_id;
        exchange.insert(owned("flowPropertyRefId"), reference_id);
        proof {
            lemma_json_view_insert(v4, "flowPropertyRefId"@, rv);
        }
        assert(keeps_bounds(x, exchange.view()));
        set_or_remove_member(exchange, "flowPropertyName", flow.reference_property_name.as_ref());
        assert(keeps_bounds(x, exchange.view()));
    }
    let ghost v5 = exchange.view();
    let ghost d4 = d3.insert("unitName"@, JsonData::Text(target.unit_name@));
    let ghost d5 = if cross {
        set_or_remove(d4.insert("flowPropertyRefId"@, JsonData::Text(flow.reference_property_id@)), "flowPropertyName"@,
            opt_text(flow.reference_property_name))
    } else {
        d4
    };
    assert(json_view(v5) == d5);
    assert(lookup(v5, "minimumAmount"@) == lookup(x, "minimumAmount"@));
    assert(lookup(v5, "maximumAmount"@) == lookup(x, "maximumAmount"@));
    assert(lookup(v5, "amountFormula"@) == lookup(x, "amountFormula"@));
    rescale_bound_member(exchange, "minimumAmount", factor.as_str());
    assert(lookup(exchange.view(), "maximumAmount"@) == lookup(x, "maximumAmount"@));
    rescale_bound_member(exchange, "maximumAmount", factor.as_str());
    let ghost v6 = exchange.view();
    let ghost d6 = rescale_bound(rescale_bound(d5, x, "minimumAmount"@, factor@), x, "maximumAmount"@, factor@);
    assert(json_view(v6) == d6);
    assert(lookup(v6, "amountFormula"@) == lookup(x, "amountFormula"@));
    let source_unit = match exchange.get("sourceUnitName") {
        Some(v) => v.duplicate(),
        None => match &unit.name {
            Some(n) => JsonValue::String(n.clone()),
            None => JsonValue::Null,
        },
    };
    let mut note: Vec<(String, JsonValue)> = Vec::new();
    note.push((owned("amountFormulaNotRescaled"), JsonValue::Bool(exchange.get("amountFormula").is_some())));
    note.push((owned("crossProperty"), JsonValue::Bool(cross)));
    note.push((owned("factor"), JsonValue::String(decimal_text(factor.as_str()))));
    note.push((owned("sourceUnit"), source_unit));
    note.push((owned("targetUnit"), JsonValue::String(target.unit_name.clone())));
    proof {
        lemma_data_members(note@);
        let source_unit_data = if d6.dom().contains("sourceUnitName"@) {
            d6["sourceUnitName"@]
        } else {
            match opt_text(unit.name) {
                Some(n) => JsonData::Text(n),
                None => JsonData::Null,
            }
        };
        assert(data_members(note@) =~= seq![
            ("amountFormulaNotRescaled"@, JsonData::Bool(x.dom().contains("amountFormula"@))),
            ("crossProperty"@, JsonData::Bool(cross)),
            ("factor"@, JsonData::Text(decimal_normalized(factor@))),
            ("sourceUnit"@, source_unit_data),
            ("targetUnit"@, JsonData::Text(target.unit_name@)),
        ]);
    }
    let note_value = JsonValue::Object(note);
    let ghost nv = note_value;
    exchange.insert(owned("amountNormalization"), note_value);
    proof {
        lemma_json_view_insert(v6, "amountNormalization"@, nv);
        assert(json_view(exchange.view()) =~= want);
    }
    NormalizationOutcome::Normalized { cross_property: cross }
}

// ---------------------------------------------------------------------------
// Counting outcomes and reporting them
// ---------------------------------------------------------------------------

/// How many samples of unresolved exchanges a report keeps.
pub const UNRESOLVED_SAMPLE_LIMIT: usize = 20;

/// The reasons an exchange can be left unresolved, in text order.
pub open spec fn reasons() -> Seq<Seq<char>> {
    seq![
        "decimal_out_of_range"@, "missing_flow_factors"@, "missing_reference_unit"@, "non_numeric_amount"@, "unit_not_in_property_group"@,
        "unknown_flow_property"@, "unknown_unit"@, "zero_factor"@,
    ]
}

fn reason_names() -> (r: Vec<&'static str>)
    ensures
        r@.map_values(|s: &str| s@) == reasons(),
{
    let mut r: Vec<&'static str> = Vec::new();
    r.push("decimal_out_of_range");
    r.push("missing_flow_factors");
    r.push("missing_reference_unit");
    r.push("non_numeric_amount");
    r.push("unit_not_in_property_group");
    r.push("unknown_flow_property");
    r.push("unknown_unit");
    r.push("zero_factor");
    assert(r@.map_values(|s: &str| s@) =~= reasons());
    r
}

/// The counts of what the rule did with the exchanges of an import.
#[derive(Debug)]
pub struct NormalizationStats {
    pub scanned: u64,
    pub normalized_same_property: u64,
    pub normalized_cross_property: u64,
    pub already_reference: u64,
    pub no_unit_info: u64,
    /// The number of unresolved exchanges by reason.
    pub unresolved: TextMap<u64>,
    /// The first unresolved exchanges, up to the sample limit.
    pub unresolved_samples: Vec<JsonValue>,
}

/// A count that stops at the largest `u64`.
pub open spec fn plus_one(n: u64) -> u64 {
    if n == u64::MAX {
        n
    } else {
        (n + 1) as u64
    }
}

/// The sample that an unresolved exchange leaves: its process, its id, unit
/// and unit name (`null` where missing) and the reason.
pub open spec fn sample_json(process_id: Seq<char>, x: Map<Seq<char>, JsonValue>, reason: Seq<char>) -> JsonData {
    let or_null = |k: Seq<char>| match lookup(x, k) {
        Some(v) => data(v),
        None => JsonData::Null,
    };
    JsonData::Object(seq![
        ("internalId"@, or_null("internalId"@)),
        ("process_id"@, JsonData::Text(process_id)),
        ("reason"@, JsonData::Text(reason)),
        ("unitId"@, or_null("unitId"@)),
        ("unitName"@, or_null("unitName"@)),
    ])
}

fn member_or_null(exchange: &TextMap<JsonValue>, key: &str) -> (r: JsonValue)
    ensures
        data(r) == match lookup(exchange.view(), key@) {
            Some(v) => data(v),
            None => JsonData::Null,
        },
{
    match exchange.get(key) {
        Some(v) => v.duplicate(),
        None => JsonValue::Null,
    }
}

impl NormalizationStats {
    /// No exchange counted yet.
    pub fn new() -> (r: Self)
        ensures
            r.scanned == 0 && r.normalized_same_property == 0 && r.normalized_cross_property == 0,
            r.already_reference == 0 && r.no_unit_info == 0,
            r.unresolved.view() == Map::<Seq<char>, u64>::empty(),
            r.unresolved_samples@.len() == 0,
    {
        NormalizationStats {
            scanned: 0,
            normalized_same_property: 0,
            normalized_cross_property: 0,
            already_reference: 0,
            no_unit_info: 0,
            unresolved: TextMap::new(),
            unresolved_samples: Vec::new(),
        }
    }

    /// Counts the outcome for an exchange of a process (the exchange as it
    /// was before the rule); an unresolved one is counted by its reason and
    /// kept as a sample while there are fewer than the limit. Counts stop at
    /// the largest `u64`.
    pub fn record(&mut self, outcome: NormalizationOutcome, process_id: &str, exchange: &TextMap<JsonValue>)
        ensures
            final(self).scanned == plus_one(old(self).scanned),
            final(self).no_unit_info == if outcome is NoUnitInfo {
                plus_one(old(self).no_unit_info)
            } else {
                old(self).no_unit_info
            },
            final(self).already_reference == if outcome is AlreadyReference {
                plus_one(old(self).already_reference)
            } else {
                old(self).already_reference
            },
            final(self).normalized_cross_property == if outcome matches NormalizationOutcome::Normalized { cross_property: true } {
                plus_one(old(self).normalized_cross_property)
            } else {
                old(self).normalized_cross_property
            },
            final(self).normalized_same_property == if outcome matches NormalizationOutcome::Normalized { cross_property: false } {
                plus_one(old(self).normalized_same_property)
            } else {
                old(self).normalized_same_property
            },
            match outcome {
                NormalizationOutcome::Unresolved(reason) => {
                    &&& final(self).unresolved.view() == old(self).unresolved.view().insert(reason@,
                        plus_one(match lookup(old(self).unresolved.view(), reason@) {
                            Some(n) => n,
                            None => 0,
                        }))
                    &&& data_items(final(self).unresolved_samples@) == if old(self).unresolved_samples@.len() < UNRESOLVED_SAMPLE_LIMIT {
                        data_items(old(self).unresolved_samples@).push(sample_json(process_id@, exchange.view(), reason@))
                    } else {
                        data_items(old(self).unresolved_samples@)
                    }
                },
                _ => final(self).unresolved.view() == old(self).unresolved.view()
                    && final(self).unresolved_samples@ == old(self).unresolved_samples@,
            },
    {
        self.scanned = self.scanned.saturating_add(1);
        match outcome {
            NormalizationOutcome::NoUnitInfo => {
                self.no_unit_info = self.no_unit_info.saturating_add(1);
            },
            NormalizationOutcome::AlreadyReference => {
                self.already_reference = self.already_reference.saturating_add(1);
            },
            NormalizationOutcome::Normalized { cross_property } => {
                if cross_property {
                    self.normalized_cross_property = self.normalized_cross_property.saturating_add(1);
                } else {
                    self.normalized_same_property = self.normalized_same_property.saturating_add(1);
                }
            },
            NormalizationOutcome::Unresolved(reason) => {
                let count = match self.unresolved.get(reason) {
                    Some(n) => *n,
                    None => 0,
                };
                self.unresolved.insert(owned(reason), count.saturating_add(1));
                if self.unresolved_samples.len() < UNRESOLVED_SAMPLE_LIMIT {
                    let mut m: Vec<(String, JsonValue)> = Vec::new();
                    m.push((owned("internalId"), member_or_null(exchange, "internalId")));
                    m.push((owned("process_id"), JsonValue::String(owned(process_id))));
                    m.push((owned("reason"), JsonValue::String(owned(reason))));
                    m.push((owned("unitId"), member_or_null(exchange, "unitId")));
                    m.push((owned("unitName"), member_or_null(exchange, "unitName")));
                    proof {
                        lemma_data_members(m@);
                        assert(data_members(m@) =~= sample_json(process_id@, exchange.view(), reason@)->Object_0);
                    }
                    let sample = JsonValue::Object(m);
                    let ghost before = self.unresolved_samples@;
                    self.unresolved_samples.push(sample);
                    proof {
                        crate::openlca::lemma_data_items_push(before, sample);
                    }
                }
            },
        }
    }
}

/// A deep copy of a list of values.
fn copy_items(items: &Vec<JsonValue>) -> (r: Vec<JsonValue>)
    ensures
        data_items(r@) == data_items(items@),
{
    let mut out: Vec<JsonValue> = Vec::new();
    let mut i: usize = 0;
    assert(items@.subrange(0, 0) =~= Seq::<JsonValue>::empty());
    while i < items.len()
        invariant
            i <= items@.len(),
            data_items(out@) == data_items(items@.subrange(0, i as int)),
        decreases items@.len() - i,
    {
        let ghost before = out@;
        let copy = items[i].duplicate();
        out.push(copy);
        proof {
            crate::openlca::lemma_data_items_push(before, copy);
            crate::openlca::lemma_data_items_push(items@.subrange(0, i as int), items@[i as int]);
            assert(items@.subrange(0, i + 1) =~= items@.subrange(0, i as int).push(items@[i as int]));
            lemma_data_items(out@);
            lemma_data_items(items@.subrange(0, i + 1));
            assert(data_items(out@) =~= data_items(items@.subrange(0, i + 1)));
        }
        i = i + 1;
    }
    assert(items@.subrange(0, items@.len() as int) =~= items@);
    out
}

/// The counts of the given reasons that have one, as object members.
pub open spec fn unresolved_members(m: Map<Seq<char>, u64>, rs: Seq<Seq<char>>) -> Seq<(Seq<char>, JsonData)>
    decreases rs.len(),
{
    if rs.len() == 0 {
        Seq::empty()
    } else {
        let rest = unresolved_members(m, rs.drop_last());
        match lookup(m, rs.last()) {
            Some(n) => rest.push((rs.last(), JsonData::Number(decimal(n as nat)))),
            None => rest,
        }
    }
}

/// The sum of the counts of the given reasons.
pub open spec fn unresolved_sum(m: Map<Seq<char>, u64>, rs: Seq<Seq<char>>) -> int
    decreases rs.len(),
{
    if rs.len() == 0 {
        0
    } else {
        unresolved_sum(m, rs.drop_last()) + match lookup(m, rs.last()) {
            Some(n) => n as int,
            None => 0int,
        }
    }
}

pub open spec fn capped(n: int) -> u64 {
    if n > u64::MAX {
        u64::MAX
    } else {
        n as u64
    }
}

pub open spec fn count_json(n: u64) -> JsonData {
    JsonData::Number(decimal(n as nat))
}

pub proof fn lemma_unresolved_sum_nonneg(m: Map<Seq<char>, u64>, rs: Seq<Seq<char>>)
    ensures
        unresolved_sum(m, rs) >= 0,
    decreases rs.len(),
{
    if rs.len() > 0 {
        lemma_unresolved_sum_nonneg(m, rs.drop_last());
    }
}

fn count_value(n: u64) -> (r: JsonValue)
    ensures
        data(r) == count_json(n),
{
    JsonValue::Number(decimal_string(n))
}

impl NormalizationStats {
    /// The number of unresolved exchanges (stopping at the largest `u64`).
    pub open spec fn unresolved_total(self) -> u64 {
        capped(unresolved_sum(self.unresolved.view(), reasons()))
    }

    /// The number of restated exchanges (stopping at the largest `u64`).
    pub open spec fn normalized_total(self) -> u64 {
        capped(self.normalized_same_property + self.normalized_cross_property)
    }

    /// The context of the first issue.
    pub open spec fn summary_context(self) -> Seq<(Seq<char>, JsonData)> {
        seq![
            ("already_reference"@, count_json(self.already_reference)),
            ("no_unit_info"@, count_json(self.no_unit_info)),
            ("normalized_cross_property"@, count_json(self.normalized_cross_property)),
            ("normalized_same_property"@, count_json(self.normalized_same_property)),
            ("scanned"@, count_json(self.scanned)),
            ("unresolved"@, JsonData::Object(unresolved_members(self.unresolved.view(), reasons()))),
            ("unresolved_samples"@, JsonData::Array(data_items(self.unresolved_samples@))),
        ]
    }

    /// The context of the second issue.
    pub open spec fn unresolved_context(self) -> Seq<(Seq<char>, JsonData)> {
        seq![
            ("scanned"@, count_json(self.scanned)),
            ("unresolved"@, JsonData::Object(unresolved_members(self.unresolved.view(), reasons()))),
            ("unresolved_samples"@, JsonData::Array(data_items(self.unresolved_samples@))),
            ("unresolved_total"@, count_json(self.unresolved_total())),
        ]
    }

    /// The unresolved counts as an object, and their total.
    fn unresolved_object(&self) -> (r: (JsonValue, u64))
        ensures
            data(r.0) == JsonData::Object(unresolved_members(self.unresolved.view(), reasons())),
            r.1 == self.unresolved_total(),
    {
        let names = reason_names();
        let ghost rs = reasons();
        let mut members: Vec<(String, JsonValue)> = Vec::new();
        let mut total: u64 = 0;
        let mut capped_total = false;
        let mut i: usize = 0;
        assert(rs.subrange(0, 0) =~= Seq::<Seq<char>>::empty());
        while i < names.len()
            invariant
                i <= names@.len(),
                names@.map_values(|s: &str| s@) == rs,
                data_members(members@) == unresolved_members(self.unresolved.view(), rs.subrange(0, i as int)),
                !capped_total ==> total == unresolved_sum(self.unresolved.view(), rs.subrange(0, i as int)),
                capped_total ==> total == u64::MAX && unresolved_sum(self.unresolved.view(), rs.subrange(0, i as int)) >= u64::MAX,
            decreases names@.len() - i,
        {
            let name = names[i];
            let ghost sub = rs.subrange(0, i + 1);
            assert(sub.drop_last() =~= rs.subrange(0, i as int));
            assert(sub.last() == name@);
            proof {
                lemma_unresolved_sum_nonneg(self.unresolved.view(), rs.subrange(0, i as int));
            }
            match self.unresolved.get(name) {
                Some(n) => {
                    let ghost before = members@;
                    let entry = (owned(name), count_value(*n));
                    members.push(entry);
                    proof {
                        lemma_data_members(before);
                        lemma_data_members(members@);
                        assert(data_members(members@) =~= data_members(before).push((name@, count_json(*n))));
                    }
                    if capped_total || total > u64::MAX - *n {
                        capped_total = true;
                        total = u64::MAX;
                    } else {
                        total = total + *n;
                    }
                },
                None => {},
            }
            i = i + 1;
        }
        assert(rs.subrange(0, rs.len() as int) =~= rs);
        (JsonValue::Object(members), total)
    }

    /// The issues that report the rule's work, where it restated or left
    /// unresolved any exchange: a warning with all counts and samples, and a
    /// second warning where some exchange was left unresolved.
    pub fn issues(&self) -> (r: Vec<ImportIssue>)
        ensures
            (self.scanned == 0 || (self.normalized_total() == 0 && self.unresolved_total() == 0)) ==> r@.len() == 0,
            !(self.scanned == 0 || (self.normalized_total() == 0 && self.unresolved_total() == 0)) ==> {
                &&& r@.len() == if self.unresolved_total() > 0 { 2int } else { 1int }
                &&& r@[0].severity == IssueSeverity::Warning
                &&& r@[0].code@ == "exchange_amounts_normalized_to_reference_units"@
                &&& r@[0].message@ == "Normalized exchange amounts to each flow's reference flow-property unit."@
                &&& r@[0].source_object is None
                &&& data_members(r@[0].context@) == self.summary_context()
                &&& self.unresolved_total() > 0 ==> {
                    &&& r@[1].severity == IssueSeverity::Warning
                    &&& r@[1].code@ == "exchange_unit_normalization_unresolved"@
                    &&& r@[1].message@ == "Some exchange amounts could not be normalized and were left unchanged."@
                    &&& r@[1].source_object is None
                    &&& data_members(r@[1].context@) == self.unresolved_context()
                }
            },
    {
        let mut out: Vec<ImportIssue> = Vec::new();
        let normalized = self.normalized_same_property.saturating_add(self.normalized_cross_property);
        let (unresolved, total) = self.unresolved_object();
        if self.scanned == 0 || (normalized == 0 && total == 0) {
            return out;
        }
        let mut context: Vec<(String, JsonValue)> = Vec::new();
        context.push((owned("already_reference"), count_value(self.already_reference)));
        context.push((owned("no_unit_info"), count_value(self.no_unit_info)));
        context.push((owned("normalized_cross_property"), count_value(self.normalized_cross_property)));
        context.push((owned("normalized_same_property"), count_value(self.normalized_same_property)));
        context.push((owned("scanned"), count_value(self.scanned)));
        context.push((owned("unresolved"), unresolved.duplicate()));
        context.push((owned("unresolved_samples"), JsonValue::Array(copy_items(&self.unresolved_samples))));
        proof {
            lemma_data_members(context@);
            assert(data_members(context@) =~= self.summary_context());
        }
        out.push(ImportIssue {
            severity: IssueSeverity::Warning,
            code: owned("exchange_amounts_normalized_to_reference_units"),
            message: owned("Normalized exchange amounts to each flow's reference flow-property unit."),
            source_object: None,
            context,
        });
        if total > 0 {
            let mut second: Vec<(String, JsonValue)> = Vec::new();
            second.push((owned("scanned"), count_value(self.scanned)));
            second.push((owned("unresolved"), unresolved));
            second.push((owned("unresolved_samples"), JsonValue::Array(copy_items(&self.unresolved_samples))));
            second.push((owned("unresolved_total"), count_value(total)));
            proof {
                lemma_data_members(second@);
                assert(data_members(second@) =~= self.unresolved_context());
            }
            out.push(ImportIssue {
                severity: IssueSeverity::Warning,
                code: owned("exchange_unit_normalization_unresolved"),
                message: owned("Some exchange amounts could not be normalized and were left unchanged."),
                source_object: None,
                context: second,
            });
        }
        out
    }
}

} // verus!
