//! EcoSpold documents: their datasets and exchange elements, and the flow
//! entity and the exchange that an EcoSpold 1 or 2 exchange element describes.
use vstd::prelude::*;
use vstd::string::StringSliceAdditionalSpecFns;

use crate::json::{JsonData, JsonValue, data, data_items, data_members, lemma_data_items, members_view, push_member, put_member};
use crate::model::CanonicalEntity;
use crate::normalization::{opt_view, texts};
use crate::openlca::{parses_as_uuid, uuid_text};
use crate::openlca_entities::{entity_facts, fields};
use crate::text::{concat, contains, decimal, decimal_string, lower, owned, str_contains, str_eq, to_ascii_lowercase};
use crate::table::TextMap;
use crate::units::{json_view, lemma_json_view_insert};
use crate::writers::{stable_id, uuid_v5_url};
use crate::xml::{XmlNode, attr_value, derefs, first_named, named, preorder, trimmed};

verus! {

/// The EcoSpold version a dataset is written in.
#[derive(Clone, Copy, Debug, PartialEq, Eq, Structural)]
pub enum EcoSpoldVersion {
    One,
    Two,
}

impl EcoSpoldVersion {
    pub open spec fn spec_format(self) -> Seq<char> {
        match self {
            EcoSpoldVersion::One => "ecospold1"@,
            EcoSpoldVersion::Two => "ecospold2"@,
        }
    }

    /// The format name of the version.
    pub fn format(self) -> (r: &'static str)
        ensures
            r@ == self.spec_format(),
    {
        match self {
            EcoSpoldVersion::One => "ecospold1",
            EcoSpoldVersion::Two => "ecospold2",
        }
    }
}

/// The trimmed text of the first child named `name`, where it has any.
pub open spec fn child_text_of(n: XmlNode, name: Seq<char>) -> Option<Seq<char>> {
    match first_named(n.children@, name) {
        Some(c) => trimmed(c.text@),
        None => None,
    }
}

fn child_text(n: &XmlNode, name: &str) -> (r: Option<String>)
    ensures
        opt_view(r) == child_text_of(*n, name@),
{
    n.child_text(name)
}

pub open spec fn attr_of(n: XmlNode, name: Seq<char>) -> Option<Seq<char>> {
    attr_value(n.attributes@, name)
}

pub open spec fn or_else(a: Option<Seq<char>>, b: Option<Seq<char>>) -> Option<Seq<char>> {
    match a {
        Some(x) => Some(x),
        None => b,
    }
}

pub open spec fn or_empty(a: Option<Seq<char>>) -> Seq<char> {
    match a {
        Some(x) => x,
        None => Seq::empty(),
    }
}

/// A text, or null.
pub open spec fn text_or_null(a: Option<Seq<char>>) -> JsonData {
    match a {
        Some(t) => JsonData::Text(t),
        None => JsonData::Null,
    }
}

/// The identifiers of an exchange element.
pub open spec fn exchange_identifiers_json(e: XmlNode) -> JsonData {
    JsonData::Object(seq![
        ("activityLinkId"@, text_or_null(attr_of(e, "activityLinkId"@))),
        ("elementaryExchangeId"@, text_or_null(attr_of(e, "elementaryExchangeId"@))),
        ("id"@, text_or_null(attr_of(e, "id"@))),
        ("intermediateExchangeId"@, text_or_null(attr_of(e, "intermediateExchangeId"@))),
        ("unitId"@, text_or_null(attr_of(e, "unitId"@))),
    ])
}

/// The trimmed texts of a list of elements, those that have any.
pub open spec fn trimmed_texts(nodes: Seq<XmlNode>) -> Seq<JsonData>
    decreases nodes.len(),
{
    if nodes.len() == 0 {
        Seq::empty()
    } else {
        let rest = trimmed_texts(nodes.drop_last());
        match trimmed(nodes.last().text@) {
            Some(t) => rest.push(JsonData::Text(t)),
            None => rest,
        }
    }
}

/// A classification of an exchange: its id and the texts of its systems and
/// values.
pub open spec fn classification_json(c: XmlNode) -> JsonData {
    JsonData::Object(seq![
        ("classificationId"@, text_or_null(attr_of(c, "classificationId"@))),
        ("classificationSystem"@, JsonData::Array(trimmed_texts(named(preorder(c), "classificationSystem"@)))),
        ("classificationValue"@, JsonData::Array(trimmed_texts(named(preorder(c), "classificationValue"@)))),
    ])
}

/// The classification of an exchange element: its category attributes and
/// its classification elements.
pub open spec fn exchange_classification_json(e: XmlNode) -> JsonData {
    JsonData::Object(seq![
        ("category"@, text_or_null(attr_of(e, "category"@))),
        ("classifications"@, JsonData::Array(
            named(preorder(e), "classification"@).map_values(|c: XmlNode| classification_json(c)),
        )),
        ("localCategory"@, text_or_null(attr_of(e, "localCategory"@))),
        ("localSubCategory"@, text_or_null(attr_of(e, "localSubCategory"@))),
        ("subCategory"@, text_or_null(attr_of(e, "subCategory"@))),
    ])
}

/// A declared value: trimmed, and neither empty nor a null marker (`<null>`,
/// `null`, `na`, `n/a`, in any ASCII case).
pub open spec fn declared(v: Option<Seq<char>>) -> Option<Seq<char>> {
    match v {
        Some(x) => {
            let t = crate::text::trim(x);
            let l = lower(t);
            if t.len() == 0 || l == "<null>"@ || l == "null"@ || l == "na"@ || l == "n/a"@ {
                None
            } else {
                Some(t)
            }
        },
        None => None,
    }
}

/// Whether an exchange element is an elementary flow: an `elementaryExchange`,
/// output group 4, or a category that names air, water, soil or a resource.
pub open spec fn elementary(e: XmlNode) -> bool {
    ||| e.name@ == "elementaryExchange"@
    ||| attr_of(e, "outputGroup"@) == Some("4"@)
    ||| child_text_of(e, "outputGroup"@) == Some("4"@)
    ||| match attr_of(e, "category"@) {
        Some(c) => {
            let l = lower(c);
            contains(l, "air"@) || contains(l, "water"@) || contains(l, "soil"@) || contains(l, "resource"@)
        },
        None => false,
    }
}

pub open spec fn flow_type_text(e: XmlNode) -> Seq<char> {
    if elementary(e) {
        "ELEMENTARY_FLOW"@
    } else {
        "PRODUCT_FLOW"@
    }
}

/// The name of an exchange's flow: its `name` attribute or child, else a name
/// made from the format and its position from one (saturating).
pub open spec fn flow_name(e: XmlNode, index: nat, version: EcoSpoldVersion) -> Seq<char> {
    match or_else(attr_of(e, "name"@), child_text_of(e, "name"@)) {
        Some(n) => n,
        None => version.spec_format() + " exchange "@ + decimal(if index + 1 > usize::MAX { usize::MAX as nat } else { index + 1 }),
    }
}

pub open spec fn unit_of(e: XmlNode) -> Option<Seq<char>> {
    or_else(attr_of(e, "unit"@), child_text_of(e, "unitName"@))
}

pub open spec fn formula_of(e: XmlNode) -> Option<Seq<char>> {
    or_else(attr_of(e, "formula"@), child_text_of(e, "sumFormula"@))
}

/// The text a flow without a declared id takes its id from.
pub open spec fn flow_seed(e: XmlNode, index: nat, version: EcoSpoldVersion) -> Seq<char> {
    version.spec_format() + "/flow/"@ + flow_type_text(e) + "/"@ + flow_name(e, index, version) + "/"@ + or_empty(
        attr_of(e, "CASNumber"@),
    ) + "/"@ + or_empty(formula_of(e)) + "/"@ + or_empty(attr_of(e, "category"@)) + "/"@ + or_empty(unit_of(e))
}

pub open spec fn put_opt(m: Map<Seq<char>, JsonData>, key: Seq<char>, v: Option<Seq<char>>) -> Map<Seq<char>, JsonData> {
    match v {
        Some(t) => m.insert(key, JsonData::Text(t)),
        None => m,
    }
}

/// The source fields of an exchange's flow: its type, unit, CAS number, sum
/// formula and synonyms where given, its classification and its source trace
/// (with the element's trace record `trace`).
pub open spec fn flow_fields(e: XmlNode, version: EcoSpoldVersion, trace: JsonData) -> Map<Seq<char>, JsonData> {
    let m0 = Map::<Seq<char>, JsonData>::empty().insert("flowType"@, JsonData::Text(flow_type_text(e)));
    let m1 = put_opt(m0, "unitName"@, unit_of(e));
    let m2 = put_opt(m1, "CASNumber"@, or_else(attr_of(e, "CASNumber"@), child_text_of(e, "CASNumber"@)));
    let m3 = put_opt(m2, "sumFormula"@, formula_of(e));
    let m4 = put_opt(m3, "synonyms"@, declared(attr_of(e, "localName"@)));
    let m5 = m4.insert("sourceClassification"@, exchange_classification_json(e));
    m5.insert("sourceTrace"@, JsonData::Object(seq![
        ("exchange"@, trace),
        ("format"@, JsonData::Text(version.spec_format())),
        ("sourceClassification"@, exchange_classification_json(e)),
        ("sourceIdentifiers"@, exchange_identifiers_json(e)),
        ("sourceObject"@, JsonData::Text("exchange"@)),
    ]))
}

pub open spec fn declared_flow_id(e: XmlNode) -> Option<Seq<char>> {
    match attr_of(e, "id"@) {
        Some(i) => if uuid_text(i) {
            Some(i)
        } else {
            None
        },
        None => None,
    }
}

pub open spec fn category_pieces(e: XmlNode) -> Seq<Seq<char>> {
    (match attr_of(e, "category"@) {
        Some(c) => seq![c],
        None => Seq::empty(),
    }) + (match attr_of(e, "subCategory"@) {
        Some(c) => seq![c],
        None => Seq::empty(),
    })
}

/// The flow an exchange element describes, at position `index` of its
/// dataset: its declared UUID (or one derived from `flow_seed`), that UUID as
/// the external id where declared, its name, its category and subcategory,
/// and its source fields.
pub open spec fn ecospold_flow(e: XmlNode, index: nat, version: EcoSpoldVersion, trace: JsonData) -> (Seq<char>, Seq<char>, Option<Seq<char>>, Option<Seq<char>>, Seq<Seq<char>>, Map<Seq<char>, JsonData>) {
    (
        "flows"@,
        match declared_flow_id(e) {
            Some(i) => i,
            None => uuid_v5_url(vstd::utf8::encode_utf8(flow_seed(e, index, version))),
        },
        declared_flow_id(e),
        Some(flow_name(e, index, version)),
        category_pieces(e),
        flow_fields(e, version, trace),
    )
}

fn attr_json(e: &XmlNode, name: &str) -> (r: JsonValue)
    ensures
        data(r) == text_or_null(attr_of(*e, name@)),
{
    match e.attr(name) {
        Some(v) => JsonValue::String(owned(v)),
        None => JsonValue::Null,
    }
}

fn exchange_identifiers(e: &XmlNode) -> (r: JsonValue)
    ensures
        data(r) == exchange_identifiers_json(*e),
{
    let mut m: Vec<(String, JsonValue)> = Vec::new();
    push_member(&mut m, "activityLinkId", attr_json(e, "activityLinkId"));
    push_member(&mut m, "elementaryExchangeId", attr_json(e, "elementaryExchangeId"));
    push_member(&mut m, "id", attr_json(e, "id"));
    push_member(&mut m, "intermediateExchangeId", attr_json(e, "intermediateExchangeId"));
    push_member(&mut m, "unitId", attr_json(e, "unitId"));
    assert(data_members(m@) =~= exchange_identifiers_json(*e)->Object_0);
    JsonValue::Object(m)
}

fn texts_of(n: &XmlNode, name: &str) -> (r: JsonValue)
    ensures
        data(r) == JsonData::Array(trimmed_texts(named(preorder(*n), name@))),
{
    let items = n.descendants_named(name).remaining();
    let ghost iv = derefs(items@);
    let mut out: Vec<JsonValue> = Vec::new();
    let mut i: usize = 0;
    assert(iv.subrange(0, 0) =~= Seq::<XmlNode>::empty());
    proof {
        lemma_data_items(out@);
    }
    assert(data_items(out@) =~= Seq::<JsonData>::empty());
    while i < items.len()
        invariant
            i <= items@.len(),
            iv == derefs(items@),
            data_items(out@) == trimmed_texts(iv.subrange(0, i as int)),
        decreases items@.len() - i,
    {
        let ghost sub = iv.subrange(0, i + 1);
        assert(sub.drop_last() =~= iv.subrange(0, i as int));
        assert(sub.last() == *items@[i as int]);
        match items[i].trimmed_text() {
            Some(t) => {
                let ghost before = out@;
                let ghost tv = t@;
                out.push(JsonValue::String(t));
                proof {
                    lemma_data_items(before);
                    lemma_data_items(out@);
                    assert(data_items(out@) =~= data_items(before).push(JsonData::Text(tv)));
                }
            },
            None => {},
        }
        i = i + 1;
    }
    assert(iv.subrange(0, items@.len() as int) =~= iv);
    JsonValue::Array(out)
}

fn classification_trace(c: &XmlNode) -> (r: JsonValue)
    ensures
        data(r) == classification_json(*c),
{
    let mut m: Vec<(String, JsonValue)> = Vec::new();
    push_member(&mut m, "classificationId", attr_json(c, "classificationId"));
    push_member(&mut m, "classificationSystem", texts_of(c, "classificationSystem"));
    push_member(&mut m, "classificationValue", texts_of(c, "classificationValue"));
    assert(data_members(m@) =~= classification_json(*c)->Object_0);
    JsonValue::Object(m)
}

fn exchange_classification(e: &XmlNode) -> (r: JsonValue)
    ensures
        data(r) == exchange_classification_json(*e),
{
    let items = e.descendants_named("classification").remaining();
    let ghost iv = derefs(items@);
    let mut out: Vec<JsonValue> = Vec::new();
    let mut i: usize = 0;
    proof {
        lemma_data_items(out@);
    }
    assert(data_items(out@) =~= Seq::<JsonData>::empty());
    while i < items.len()
        invariant
            i <= items@.len(),
            iv == derefs(items@),
            data_items(out@) == iv.subrange(0, i as int).map_values(|c: XmlNode| classification_json(c)),
        decreases items@.len() - i,
    {
        let ghost before = out@;
        let x = classification_trace(items[i]);
        let ghost xv = data(x);
        out.push(x);
        proof {
            lemma_data_items(before);
            lemma_data_items(out@);
            assert(data_items(out@) =~= data_items(before).push(xv));
            assert(iv.subrange(0, i + 1).map_values(|c: XmlNode| classification_json(c)) =~= iv.subrange(
                0,
                i as int,
            ).map_values(|c: XmlNode| classification_json(c)).push(xv));
        }
        i = i + 1;
    }
    assert(iv.subrange(0, items@.len() as int) =~= iv);
    let mut m: Vec<(String, JsonValue)> = Vec::new();
    push_member(&mut m, "category", attr_json(e, "category"));
    push_member(&mut m, "classifications", JsonValue::Array(out));
    push_member(&mut m, "localCategory", attr_json(e, "localCategory"));
    push_member(&mut m, "localSubCategory", attr_json(e, "localSubCategory"));
    push_member(&mut m, "subCategory", attr_json(e, "subCategory"));
    assert(data_members(m@) =~= exchange_classification_json(*e)->Object_0);
    JsonValue::Object(m)
}

fn declared_of(v: Option<&str>) -> (r: Option<String>)
    ensures
        opt_view(r) == declared(crate::normalization::opt_str(v)),
{
    match v {
        Some(x) => {
            let t = crate::text::trim_str(x);
            let l = to_ascii_lowercase(t.as_str());
            if t.as_str().is_empty() || str_eq(l.as_str(), "<null>") || str_eq(l.as_str(), "null") || str_eq(
                l.as_str(),
                "na",
            ) || str_eq(l.as_str(), "n/a") {
                None
            } else {
                Some(t)
            }
        },
        None => None,
    }
}

fn first_of(a: Option<&str>, b: Option<String>) -> (r: Option<String>)
    ensures
        opt_view(r) == or_else(crate::normalization::opt_str(a), opt_view(b)),
{
    match a {
        Some(x) => Some(owned(x)),
        None => b,
    }
}

fn is_elementary(e: &XmlNode) -> (r: bool)
    ensures
        r == elementary(*e),
{
    proof {
        reveal_strlit("4");
    }
    if str_eq(e.name.as_str(), "elementaryExchange") {
        return true;
    }
    match e.attr("outputGroup") {
        Some(g) => if str_eq(g, "4") {
            return true;
        },
        None => {},
    }
    match child_text(e, "outputGroup") {
        Some(g) => if str_eq(g.as_str(), "4") {
            return true;
        },
        None => {},
    }
    match e.attr("category") {
        Some(c) => {
            let l = to_ascii_lowercase(c);
            str_contains(l.as_str(), "air") || str_contains(l.as_str(), "water") || str_contains(l.as_str(), "soil")
                || str_contains(l.as_str(), "resource")
        },
        None => false,
    }
}

fn text_or_empty(a: Option<String>) -> (r: String)
    ensures
        r@ == or_empty(opt_view(a)),
{
    match a {
        Some(x) => x,
        None => {
            let e = String::new();
            assert(e@ =~= Seq::<char>::empty());
            e
        },
    }
}

fn put_text(m: &mut Vec<(String, JsonValue)>, key: &str, v: Option<String>)
    ensures
        fields(*final(m)) == put_opt(fields(*old(m)), key@, opt_view(v)),
{
    match v {
        Some(t) => put_member(m, key, JsonValue::String(t)),
        None => {},
    }
}

/// The flow an exchange element describes (see `ecospold_flow`); `trace` is
/// the element's trace record for its source trace.
pub fn ecospold_flow_entity(element: &XmlNode, index: usize, version: EcoSpoldVersion, trace: JsonValue) -> (r: CanonicalEntity)
    ensures
        entity_facts(r) == ecospold_flow(*element, index as nat, version, data(trace)),
{
    let fmt = version.format();
    let name = match first_of(element.attr("name"), child_text(element, "name")) {
        Some(n) => n,
        None => {
            let position = decimal_string(index.saturating_add(1) as u64);
            let head = concat(fmt, " exchange ");
            concat(head.as_str(), position.as_str())
        },
    };
    let elementary_flow = is_elementary(element);
    let flow_type = if elementary_flow {
        "ELEMENTARY_FLOW"
    } else {
        "PRODUCT_FLOW"
    };
    let unit = first_of(element.attr("unit"), child_text(element, "unitName"));
    let formula = first_of(element.attr("formula"), child_text(element, "sumFormula"));
    let classification = exchange_classification(element);
    let mut raw: Vec<(String, JsonValue)> = Vec::new();
    proof {
        assert(fields(raw) =~= Map::<Seq<char>, JsonData>::empty());
    }
    put_member(&mut raw, "flowType", JsonValue::String(owned(flow_type)));
    put_text(&mut raw, "unitName", first_of(element.attr("unit"), child_text(element, "unitName")));
    put_text(&mut raw, "CASNumber", first_of(element.attr("CASNumber"), child_text(element, "CASNumber")));
    put_text(&mut raw, "sumFormula", first_of(element.attr("formula"), child_text(element, "sumFormula")));
    put_text(&mut raw, "synonyms", declared_of(element.attr("localName")));
    put_member(&mut raw, "sourceClassification", classification.duplicate());
    let mut source_trace: Vec<(String, JsonValue)> = Vec::new();
    push_member(&mut source_trace, "exchange", trace);
    push_member(&mut source_trace, "format", JsonValue::String(owned(fmt)));
    push_member(&mut source_trace, "sourceClassification", classification);
    push_member(&mut source_trace, "sourceIdentifiers", exchange_identifiers(element));
    push_member(&mut source_trace, "sourceObject", JsonValue::String(owned("exchange")));
    put_member(&mut raw, "sourceTrace", JsonValue::Object(source_trace));
    let declared_id = match element.attr("id") {
        Some(i) => if parses_as_uuid(i) {
            Some(owned(i))
        } else {
            None
        },
        None => None,
    };
    let cas_seed = text_or_empty(match element.attr("CASNumber") {
        Some(c) => Some(owned(c)),
        None => None,
    });
    let category_seed = text_or_empty(match element.attr("category") {
        Some(c) => Some(owned(c)),
        None => None,
    });
    let formula_seed = text_or_empty(formula);
    let unit_seed = text_or_empty(unit);
    let s1 = concat3_strs(fmt, "/flow/", flow_type);
    let s2 = concat3_strs(s1.as_str(), "/", name.as_str());
    let s3 = concat3_strs(s2.as_str(), "/", cas_seed.as_str());
    let s4 = concat3_strs(s3.as_str(), "/", formula_seed.as_str());
    let s5 = concat3_strs(s4.as_str(), "/", category_seed.as_str());
    let seed = concat3_strs(s5.as_str(), "/", unit_seed.as_str());
    let internal_id = match &declared_id {
        Some(i) => i.clone(),
        None => stable_id(seed.as_str()),
    };
    let mut category_path: Vec<String> = Vec::new();
    match element.attr("category") {
        Some(c) => category_path.push(owned(c)),
        None => {},
    }
    match element.attr("subCategory") {
        Some(c) => category_path.push(owned(c)),
        None => {},
    }
    assert(texts(category_path@) =~= category_pieces(*element));
    let ghost want = ecospold_flow(*element, index as nat, version, data(trace));
    assert(data_members(source_trace@) =~= want.5["sourceTrace"@]->Object_0);
    assert(fields(raw) =~= want.5);
    CanonicalEntity {
        entity_type: owned("flows"),
        internal_id,
        external_id: declared_id,
        name: Some(name),
        category_path,
        raw: JsonValue::Object(raw),
    }
}

fn concat3_strs(a: &str, b: &str, c: &str) -> (r: String)
    ensures
        r@ == a@ + b@ + c@,
{
    crate::text::concat3(a, b, c)
}

// ---------------------------------------------------------------------------
// Uncertainty
// ---------------------------------------------------------------------------

/// The distribution an EcoSpold 1 `uncertaintyType` code names (by number or
/// name, trimmed, in any ASCII case).
pub open spec fn uncertainty_code(v: Seq<char>) -> Option<Seq<char>> {
    let l = lower(crate::text::trim(v));
    if l == "0"@ || l == "undefined"@ {
        Some("undefined"@)
    } else if l == "1"@ || l == "lognormal"@ || l == "log-normal"@ {
        Some("log-normal"@)
    } else if l == "2"@ || l == "normal"@ {
        Some("normal"@)
    } else if l == "3"@ || l == "triangular"@ {
        Some("triangular"@)
    } else if l == "4"@ || l == "uniform"@ {
        Some("uniform"@)
    } else {
        None
    }
}

/// The distribution an EcoSpold 2 uncertainty element names.
pub open spec fn distribution_name(name: Seq<char>) -> Option<Seq<char>> {
    let l = lower(name);
    if l == "lognormal"@ {
        Some("log-normal"@)
    } else if l == "normal"@ {
        Some("normal"@)
    } else if l == "triangular"@ {
        Some("triangular"@)
    } else if l == "uniform"@ {
        Some("uniform"@)
    } else {
        None
    }
}

/// The distribution of the first element of a list that names one.
pub open spec fn first_distribution(children: Seq<XmlNode>) -> Option<Seq<char>>
    decreases children.len(),
{
    if children.len() == 0 {
        None
    } else {
        match distribution_name(children[0].name@) {
            Some(d) => Some(d),
            None => first_distribution(children.drop_first()),
        }
    }
}

/// The uncertainty distribution of an exchange: in EcoSpold 1 its
/// `uncertaintyType` attribute, in EcoSpold 2 the first child of its first
/// `uncertainty` child that names a distribution.
pub open spec fn uncertainty_of(e: XmlNode, version: EcoSpoldVersion) -> Option<Seq<char>> {
    match version {
        EcoSpoldVersion::One => match attr_of(e, "uncertaintyType"@) {
            Some(v) => uncertainty_code(v),
            None => None,
        },
        EcoSpoldVersion::Two => match first_named(e.children@, "uncertainty"@) {
            Some(u) => first_distribution(u.children@),
            None => None,
        },
    }
}

fn distribution_of(name: &str) -> (r: Option<&'static str>)
    ensures
        crate::normalization::opt_str(r) == distribution_name(name@),
{
    let l = to_ascii_lowercase(name);
    let l = l.as_str();
    if str_eq(l, "lognormal") {
        Some("log-normal")
    } else if str_eq(l, "normal") {
        Some("normal")
    } else if str_eq(l, "triangular") {
        Some("triangular")
    } else if str_eq(l, "uniform") {
        Some("uniform")
    } else {
        None
    }
}

/// The uncertainty distribution of an exchange element (see `uncertainty_of`).
pub fn uncertainty_type(element: &XmlNode, version: EcoSpoldVersion) -> (r: Option<&'static str>)
    ensures
        crate::normalization::opt_str(r) == uncertainty_of(*element, version),
{
    match version {
        EcoSpoldVersion::One => {
            let v = match element.attr("uncertaintyType") {
                Some(v) => v,
                None => {
                    return None;
                },
            };
            let t = crate::text::trim_str(v);
            let l = to_ascii_lowercase(t.as_str());
            let l = l.as_str();
            if str_eq(l, "0") || str_eq(l, "undefined") {
                Some("undefined")
            } else if str_eq(l, "1") || str_eq(l, "lognormal") || str_eq(l, "log-normal") {
                Some("log-normal")
            } else if str_eq(l, "2") || str_eq(l, "normal") {
                Some("normal")
            } else if str_eq(l, "3") || str_eq(l, "triangular") {
                Some("triangular")
            } else if str_eq(l, "4") || str_eq(l, "uniform") {
                Some("uniform")
            } else {
                None
            }
        },
        EcoSpoldVersion::Two => {
            let u = match element.child("uncertainty") {
                Some(u) => u,
                None => {
                    return None;
                },
            };
            let mut i: usize = 0;
            assert(u.children@.subrange(0, u.children@.len() as int) =~= u.children@);
            while i < u.children.len()
                invariant
                    i <= u.children@.len(),
                    first_named(element.children@, "uncertainty"@) == Some(*u),
                    version == EcoSpoldVersion::Two,
                    first_distribution(u.children@) == first_distribution(u.children@.subrange(i as int, u.children@.len() as int)),
                decreases u.children@.len() - i,
            {
                let ghost rest = u.children@.subrange(i as int, u.children@.len() as int);
                assert(rest[0] == u.children@[i as int]);
                assert(rest.drop_first() =~= u.children@.subrange(i + 1, u.children@.len() as int));
                match distribution_of(u.children[i].name.as_str()) {
                    Some(d) => {
                        assert(distribution_name(rest[0].name@) == Some(d@));
                        assert(first_distribution(rest) == Some(d@));
                        return Some(d);
                    },
                    None => {},
                }
                i = i + 1;
            }
            None
        },
    }
}

// ---------------------------------------------------------------------------
// Exchanges
// ---------------------------------------------------------------------------

/// The first trimmed text of a list of elements.
pub open spec fn first_trimmed(nodes: Seq<XmlNode>) -> Option<Seq<char>>
    decreases nodes.len(),
{
    if nodes.len() == 0 {
        None
    } else {
        match trimmed(nodes[0].text@) {
            Some(t) => Some(t),
            None => first_trimmed(nodes.drop_first()),
        }
    }
}

/// The text of an element: that of its first `text` element (itself
/// included) with text, else its own.
pub open spec fn nested_text(n: XmlNode) -> Option<Seq<char>> {
    or_else(first_trimmed(named(preorder(n), "text"@)), trimmed(n.text@))
}

/// The first nested text of a list of elements.
pub open spec fn first_nested(nodes: Seq<XmlNode>) -> Option<Seq<char>>
    decreases nodes.len(),
{
    if nodes.len() == 0 {
        None
    } else {
        match nested_text(nodes[0]) {
            Some(t) => Some(t),
            None => first_nested(nodes.drop_first()),
        }
    }
}

/// The comment of an exchange: its declared `generalComment`, else the text
/// of its first `comment` element that has one.
pub open spec fn comment_of(e: XmlNode) -> Option<Seq<char>> {
    or_else(declared(attr_of(e, "generalComment"@)), first_nested(named(preorder(e), "comment"@)))
}

/// Whether an exchange is an input: it has an `inputGroup` attribute or
/// child, or a category that names a resource.
pub open spec fn is_input_exchange(e: XmlNode) -> bool {
    ||| attr_of(e, "inputGroup"@) is Some
    ||| first_named(e.children@, "inputGroup"@) is Some
    ||| match attr_of(e, "category"@) {
        Some(c) => contains(lower(c), "resource"@),
        None => false,
    }
}

/// Sets a key where it has no value yet and a value is given.
pub open spec fn put_absent(m: Map<Seq<char>, JsonData>, key: Seq<char>, v: Option<Seq<char>>) -> Map<Seq<char>, JsonData> {
    if m.contains_key(key) {
        m
    } else {
        put_opt(m, key, v)
    }
}

/// The members an exchange starts with: its number from one (saturating), a
/// reference to its flow, whether it is an input, its amount (`0` where none
/// is given), the format and its unit.
pub open spec fn exchange_base(e: XmlNode, flow_id: Seq<char>, flow_name: Option<Seq<char>>, index: nat, version: EcoSpoldVersion) -> Map<Seq<char>, JsonData> {
    let amount = or_else(attr_of(e, "amount"@), or_else(attr_of(e, "meanValue"@), child_text_of(e, "amount"@)));
    let m = Map::<Seq<char>, JsonData>::empty().insert(
        "internalId"@,
        JsonData::Number(decimal(if index + 1 > usize::MAX { usize::MAX as nat } else { index + 1 })),
    ).insert("flow"@, JsonData::Object(seq![("@id"@, JsonData::Text(flow_id)), ("name"@, text_or_null(flow_name))])).insert(
        "flowRefId"@,
        JsonData::Text(flow_id),
    ).insert("flowName"@, JsonData::Text(match flow_name {
        Some(n) => n,
        None => "Flow"@,
    })).insert("isInput"@, JsonData::Bool(is_input_exchange(e))).insert("amount"@, JsonData::Text(match amount {
        Some(a) => a,
        None => "0"@,
    })).insert("sourceFormat"@, JsonData::Text(version.spec_format()));
    put_opt(m, "unitName"@, unit_of(e))
}

/// The declared bounds, deviation, link, production volume and unit id of an
/// exchange, each under its target name where that has no value yet.
pub open spec fn exchange_limits(m: Map<Seq<char>, JsonData>, e: XmlNode) -> Map<Seq<char>, JsonData> {
    let m1 = put_absent(m, "minimumAmount"@, declared(attr_of(e, "minValue"@)));
    let m2 = put_absent(m1, "minimumAmount"@, declared(attr_of(e, "minAmount"@)));
    let m3 = put_absent(m2, "maximumAmount"@, declared(attr_of(e, "maxValue"@)));
    let m4 = put_absent(m3, "maximumAmount"@, declared(attr_of(e, "maxAmount"@)));
    let m5 = put_absent(m4, "relativeStandardDeviation95In"@, declared(attr_of(e, "standardDeviation95"@)));
    let m6 = put_absent(m5, "activityLinkId"@, declared(attr_of(e, "activityLinkId"@)));
    let m7 = put_absent(m6, "productionVolumeAmount"@, declared(attr_of(e, "productionVolumeAmount"@)));
    put_absent(m7, "unitId"@, declared(attr_of(e, "unitId"@)))
}

/// The exchange's id in its source: the `number` of an EcoSpold 1 exchange,
/// the first id of an EcoSpold 2 exchange.
pub open spec fn source_exchange_id(e: XmlNode, version: EcoSpoldVersion) -> (Seq<char>, Option<Seq<char>>) {
    match version {
        EcoSpoldVersion::One => ("sourceExchangeNumber"@, attr_of(e, "number"@)),
        EcoSpoldVersion::Two => (
            "sourceExchangeId"@,
            or_else(attr_of(e, "id"@), or_else(attr_of(e, "intermediateExchangeId"@), attr_of(e, "elementaryExchangeId"@))),
        ),
    }
}

/// The source trace of an exchange, with the element's trace record `trace`.
pub open spec fn exchange_trace(e: XmlNode, version: EcoSpoldVersion, trace: JsonData) -> JsonData {
    JsonData::Object(seq![
        ("exchange"@, trace),
        ("format"@, JsonData::Text(version.spec_format())),
        ("sourceClassification"@, exchange_classification_json(e)),
        ("sourceIdentifiers"@, exchange_identifiers_json(e)),
        ("sourceObject"@, JsonData::Text("exchange"@)),
    ])
}

/// What an exchange element states beyond its amount: its limits, its source
/// id, whether its amount is calculated, its distribution, its comment and
/// its source trace.
pub open spec fn exchange_semantics(m: Map<Seq<char>, JsonData>, e: XmlNode, version: EcoSpoldVersion, trace: JsonData) -> Map<Seq<char>, JsonData> {
    let m1 = exchange_limits(m, e);
    let id = source_exchange_id(e, version);
    let m2 = put_opt(m1, id.0, id.1);
    let m3 = match attr_of(e, "isCalculatedAmount"@) {
        Some(v) => if lower(v) == "true"@ {
            m2.insert("dataDerivationTypeStatus"@, JsonData::Text("Calculated"@))
        } else {
            m2
        },
        None => m2,
    };
    let m4 = put_opt(m3, "uncertaintyDistributionType"@, uncertainty_of(e, version));
    let m5 = put_opt(m4, "generalComment"@, comment_of(e));
    m5.insert("sourceTrace"@, exchange_trace(e, version, trace))
}

/// The exchange an element describes, for the flow with id `flow_id` and name
/// `flow_name`, at position `index`.
pub open spec fn exchange_value_of(
    e: XmlNode,
    flow_id: Seq<char>,
    flow_name: Option<Seq<char>>,
    index: nat,
    version: EcoSpoldVersion,
    trace: JsonData,
) -> Map<Seq<char>, JsonData> {
    exchange_semantics(exchange_base(e, flow_id, flow_name, index, version), e, version, trace)
}

proof fn lemma_put_absent_keeps(m: Map<Seq<char>, JsonData>, k: Seq<char>, v: Option<Seq<char>>, key: Seq<char>)
    requires
        m.contains_key(key),
        k.len() != key.len(),
    ensures
        put_absent(m, k, v).contains_key(key),
        put_absent(m, k, v)[key] == m[key],
        put_opt(m, k, v).contains_key(key),
        put_opt(m, k, v)[key] == m[key],
{
    assert(k != key);
}

proof fn lemma_semantics_keep_direction(m: Map<Seq<char>, JsonData>, e: XmlNode, version: EcoSpoldVersion, trace: JsonData)
    requires
        m.contains_key("isInput"@),
    ensures
        exchange_semantics(m, e, version, trace).contains_key("isInput"@),
        exchange_semantics(m, e, version, trace)["isInput"@] == m["isInput"@],
{
    let key = "isInput"@;
    reveal_strlit("isInput");
    reveal_strlit("minimumAmount");
    reveal_strlit("maximumAmount");
    reveal_strlit("relativeStandardDeviation95In");
    reveal_strlit("activityLinkId");
    reveal_strlit("productionVolumeAmount");
    reveal_strlit("unitId");
    reveal_strlit("sourceExchangeNumber");
    reveal_strlit("sourceExchangeId");
    reveal_strlit("dataDerivationTypeStatus");
    reveal_strlit("uncertaintyDistributionType");
    reveal_strlit("generalComment");
    reveal_strlit("sourceTrace");
    let m1 = put_absent(m, "minimumAmount"@, declared(attr_of(e, "minValue"@)));
    lemma_put_absent_keeps(m, "minimumAmount"@, declared(attr_of(e, "minValue"@)), key);
    let m2 = put_absent(m1, "minimumAmount"@, declared(attr_of(e, "minAmount"@)));
    lemma_put_absent_keeps(m1, "minimumAmount"@, declared(attr_of(e, "minAmount"@)), key);
    let m3 = put_absent(m2, "maximumAmount"@, declared(attr_of(e, "maxValue"@)));
    lemma_put_absent_keeps(m2, "maximumAmount"@, declared(attr_of(e, "maxValue"@)), key);
    let m4 = put_absent(m3, "maximumAmount"@, declared(attr_of(e, "maxAmount"@)));
    lemma_put_absent_keeps(m3, "maximumAmount"@, declared(attr_of(e, "maxAmount"@)), key);
    let m5 = put_absent(m4, "relativeStandardDeviation95In"@, declared(attr_of(e, "standardDeviation95"@)));
    lemma_put_absent_keeps(m4, "relativeStandardDeviation95In"@, declared(attr_of(e, "standardDeviation95"@)), key);
    let m6 = put_absent(m5, "activityLinkId"@, declared(attr_of(e, "activityLinkId"@)));
    lemma_put_absent_keeps(m5, "activityLinkId"@, declared(attr_of(e, "activityLinkId"@)), key);
    let m7 = put_absent(m6, "productionVolumeAmount"@, declared(attr_of(e, "productionVolumeAmount"@)));
    lemma_put_absent_keeps(m6, "productionVolumeAmount"@, declared(attr_of(e, "productionVolumeAmount"@)), key);
    let l = put_absent(m7, "unitId"@, declared(attr_of(e, "unitId"@)));
    lemma_put_absent_keeps(m7, "unitId"@, declared(attr_of(e, "unitId"@)), key);
    assert(l == exchange_limits(m, e));
    let id = source_exchange_id(e, version);
    assert(id.0.len() != key.len());
    lemma_put_absent_keeps(l, id.0, id.1, key);
    let n2 = put_opt(l, id.0, id.1);
    let n3 = match attr_of(e, "isCalculatedAmount"@) {
        Some(v) => if lower(v) == "true"@ {
            n2.insert("dataDerivationTypeStatus"@, JsonData::Text("Calculated"@))
        } else {
            n2
        },
        None => n2,
    };
    assert(n3.contains_key(key) && n3[key] == m[key]);
    lemma_put_absent_keeps(n3, "uncertaintyDistributionType"@, uncertainty_of(e, version), key);
    let n4 = put_opt(n3, "uncertaintyDistributionType"@, uncertainty_of(e, version));
    lemma_put_absent_keeps(n4, "generalComment"@, comment_of(e), key);
    let n5 = put_opt(n4, "generalComment"@, comment_of(e));
    assert(n5.insert("sourceTrace"@, exchange_trace(e, version, trace)) == exchange_semantics(m, e, version, trace));
}

/// Law: an exchange element with an `inputGroup` attribute or an `inputGroup`
/// child element, or with a category that names a resource, is imported as an
/// input; any other is an output.
pub proof fn law_input_groups_make_inputs(
    e: XmlNode,
    flow_id: Seq<char>,
    flow_name: Option<Seq<char>>,
    index: nat,
    version: EcoSpoldVersion,
    trace: JsonData,
)
    ensures
        exchange_value_of(e, flow_id, flow_name, index, version, trace).contains_key("isInput"@),
        attr_of(e, "inputGroup"@) is Some ==> exchange_value_of(e, flow_id, flow_name, index, version, trace)["isInput"@]
            == JsonData::Bool(true),
        first_named(e.children@, "inputGroup"@) is Some ==> exchange_value_of(e, flow_id, flow_name, index, version, trace)["isInput"@]
            == JsonData::Bool(true),
        (attr_of(e, "category"@) matches Some(c) && contains(lower(c), "resource"@)) ==> exchange_value_of(
            e,
            flow_id,
            flow_name,
            index,
            version,
            trace,
        )["isInput"@] == JsonData::Bool(true),
        (attr_of(e, "inputGroup"@) is None && first_named(e.children@, "inputGroup"@) is None && !(attr_of(e, "category"@) matches Some(c)
            && contains(lower(c), "resource"@))) ==> exchange_value_of(e, flow_id, flow_name, index, version, trace)["isInput"@]
            == JsonData::Bool(false),
{
    let base = exchange_base(e, flow_id, flow_name, index, version);
    lemma_base_direction(e, flow_id, flow_name, index, version);
    lemma_semantics_keep_direction(base, e, version, trace);
    assert(exchange_value_of(e, flow_id, flow_name, index, version, trace) == exchange_semantics(base, e, version, trace));
}

proof fn lemma_base_direction(e: XmlNode, flow_id: Seq<char>, flow_name: Option<Seq<char>>, index: nat, version: EcoSpoldVersion)
    ensures
        exchange_base(e, flow_id, flow_name, index, version).contains_key("isInput"@),
        exchange_base(e, flow_id, flow_name, index, version)["isInput"@] == JsonData::Bool(is_input_exchange(e)),
{
    reveal_strlit("isInput");
    reveal_strlit("amount");
    reveal_strlit("sourceFormat");
    reveal_strlit("unitName");
    let key = "isInput"@;
    let amount = or_else(attr_of(e, "amount"@), or_else(attr_of(e, "meanValue"@), child_text_of(e, "amount"@)));
    let m0 = Map::<Seq<char>, JsonData>::empty().insert(
        "internalId"@,
        JsonData::Number(decimal(if index + 1 > usize::MAX { usize::MAX as nat } else { index + 1 })),
    ).insert("flow"@, JsonData::Object(seq![("@id"@, JsonData::Text(flow_id)), ("name"@, text_or_null(flow_name))])).insert(
        "flowRefId"@,
        JsonData::Text(flow_id),
    ).insert("flowName"@, JsonData::Text(match flow_name {
        Some(n) => n,
        None => "Flow"@,
    }));
    let m1 = m0.insert(key, JsonData::Bool(is_input_exchange(e)));
    let a = JsonData::Text(match amount {
        Some(x) => x,
        None => "0"@,
    });
    let m2 = m1.insert("amount"@, a);
    assert("amount"@.len() != key.len());
    assert(m2[key] == JsonData::Bool(is_input_exchange(e)));
    let m3 = m2.insert("sourceFormat"@, JsonData::Text(version.spec_format()));
    assert("sourceFormat"@.len() != key.len());
    assert(m3.contains_key(key) && m3[key] == JsonData::Bool(is_input_exchange(e)));
    lemma_put_absent_keeps(m3, "unitName"@, unit_of(e), key);
    assert(exchange_base(e, flow_id, flow_name, index, version) == put_opt(m3, "unitName"@, unit_of(e)));
}

fn put(m: &mut TextMap<JsonValue>, key: &str, v: JsonValue)
    ensures
        json_view(final(m).view()) == json_view(old(m).view()).insert(key@, data(v)),
{
    let ghost before = m.view();
    let ghost vv = v;
    m.insert(owned(key), v);
    proof {
        lemma_json_view_insert(before, key@, vv);
    }
}

fn put_some(m: &mut TextMap<JsonValue>, key: &str, v: Option<String>)
    ensures
        json_view(final(m).view()) == put_opt(json_view(old(m).view()), key@, opt_view(v)),
{
    match v {
        Some(t) => put(m, key, JsonValue::String(t)),
        None => {},
    }
}

fn put_declared(m: &mut TextMap<JsonValue>, e: &XmlNode, source: &str, target: &str)
    ensures
        json_view(final(m).view()) == put_absent(json_view(old(m).view()), target@, declared(attr_of(*e, source@))),
{
    assert(json_view(m.view()).contains_key(target@) == m.view().contains_key(target@));
    if m.get(target).is_none() {
        put_some(m, target, declared_of(e.attr(source)));
    }
}

fn first_trimmed_of(nodes: &Vec<&XmlNode>) -> (r: Option<String>)
    ensures
        opt_view(r) == first_trimmed(derefs(nodes@)),
{
    let ghost all = derefs(nodes@);
    let mut i: usize = 0;
    assert(all.subrange(0, all.len() as int) =~= all);
    while i < nodes.len()
        invariant
            i <= nodes@.len(),
            all == derefs(nodes@),
            first_trimmed(all) == first_trimmed(all.subrange(i as int, all.len() as int)),
        decreases nodes@.len() - i,
    {
        let ghost rest = all.subrange(i as int, all.len() as int);
        assert(rest[0] == *nodes@[i as int]);
        assert(rest.drop_first() =~= all.subrange(i + 1, all.len() as int));
        match nodes[i].trimmed_text() {
            Some(t) => {
                return Some(t);
            },
            None => {},
        }
        i = i + 1;
    }
    None
}

fn nested_text_of(n: &XmlNode) -> (r: Option<String>)
    ensures
        opt_view(r) == nested_text(*n),
{
    let texts = n.descendants_named("text").remaining();
    match first_trimmed_of(&texts) {
        Some(t) => Some(t),
        None => n.trimmed_text(),
    }
}

fn first_nested_of(nodes: &Vec<&XmlNode>) -> (r: Option<String>)
    ensures
        opt_view(r) == first_nested(derefs(nodes@)),
{
    let ghost all = derefs(nodes@);
    let mut i: usize = 0;
    assert(all.subrange(0, all.len() as int) =~= all);
    while i < nodes.len()
        invariant
            i <= nodes@.len(),
            all == derefs(nodes@),
            first_nested(all) == first_nested(all.subrange(i as int, all.len() as int)),
        decreases nodes@.len() - i,
    {
        let ghost rest = all.subrange(i as int, all.len() as int);
        assert(rest[0] == *nodes@[i as int]);
        assert(rest.drop_first() =~= all.subrange(i + 1, all.len() as int));
        match nested_text_of(nodes[i]) {
            Some(t) => {
                return Some(t);
            },
            None => {},
        }
        i = i + 1;
    }
    None
}

fn is_input(e: &XmlNode) -> (r: bool)
    ensures
        r == is_input_exchange(*e),
{
    if e.attr("inputGroup").is_some() || e.child("inputGroup").is_some() {
        return true;
    }
    match e.attr("category") {
        Some(c) => str_contains(to_ascii_lowercase(c).as_str(), "resource"),
        None => false,
    }
}

fn exchange_limits_into(m: &mut TextMap<JsonValue>, e: &XmlNode)
    ensures
        json_view(final(m).view()) == exchange_limits(json_view(old(m).view()), *e),
{
    put_declared(m, e, "minValue", "minimumAmount");
    put_declared(m, e, "minAmount", "minimumAmount");
    put_declared(m, e, "maxValue", "maximumAmount");
    put_declared(m, e, "maxAmount", "maximumAmount");
    put_declared(m, e, "standardDeviation95", "relativeStandardDeviation95In");
    put_declared(m, e, "activityLinkId", "activityLinkId");
    put_declared(m, e, "productionVolumeAmount", "productionVolumeAmount");
    put_declared(m, e, "unitId", "unitId");
}

/// Adds what an exchange element states beyond its amount (see
/// `exchange_semantics`); `trace` is the element's trace record.
pub fn apply_exchange_semantics(element: &XmlNode, version: EcoSpoldVersion, value: &mut TextMap<JsonValue>, trace: JsonValue)
    ensures
        json_view(final(value).view()) == exchange_semantics(json_view(old(value).view()), *element, version, data(trace)),
{
    let ghost m0 = json_view(value.view());
    let ghost e = *element;
    exchange_limits_into(value, element);
    let ghost m1 = exchange_limits(m0, e);
    let ghost id = source_exchange_id(e, version);
    match version {
        EcoSpoldVersion::One => put_some(value, "sourceExchangeNumber", first_of(element.attr("number"), None)),
        EcoSpoldVersion::Two => put_some(
            value,
            "sourceExchangeId",
            first_of(
                element.attr("id"),
                first_of(element.attr("intermediateExchangeId"), first_of(element.attr("elementaryExchangeId"), None)),
            ),
        ),
    }
    let ghost m2 = put_opt(m1, id.0, id.1);
    assert(json_view(value.view()) == m2);
    match element.attr("isCalculatedAmount") {
        Some(v) => if str_eq(to_ascii_lowercase(v).as_str(), "true") {
            put(value, "dataDerivationTypeStatus", JsonValue::String(owned("Calculated")));
        },
        None => {},
    }
    let ghost m3 = match attr_of(e, "isCalculatedAmount"@) {
        Some(v) => if lower(v) == "true"@ {
            m2.insert("dataDerivationTypeStatus"@, JsonData::Text("Calculated"@))
        } else {
            m2
        },
        None => m2,
    };
    assert(json_view(value.view()) == m3);
    match uncertainty_type(element, version) {
        Some(k) => put(value, "uncertaintyDistributionType", JsonValue::String(owned(k))),
        None => {},
    }
    let ghost m4 = put_opt(m3, "uncertaintyDistributionType"@, uncertainty_of(e, version));
    assert(json_view(value.view()) == m4);
    let comments = element.descendants_named("comment").remaining();
    let comment = first_of_owned(declared_of(element.attr("generalComment")), first_nested_of(&comments));
    put_some(value, "generalComment", comment);
    let ghost m5 = put_opt(m4, "generalComment"@, comment_of(e));
    assert(json_view(value.view()) == m5);
    let ghost tv = data(trace);
    let mut t: Vec<(String, JsonValue)> = Vec::new();
    push_member(&mut t, "exchange", trace);
    push_member(&mut t, "format", JsonValue::String(owned(version.format())));
    push_member(&mut t, "sourceClassification", exchange_classification(element));
    push_member(&mut t, "sourceIdentifiers", exchange_identifiers(element));
    push_member(&mut t, "sourceObject", JsonValue::String(owned("exchange")));
    let ghost members = t@;
    assert(data_members(members) =~= exchange_trace(e, version, tv)->Object_0);
    let t = JsonValue::Object(t);
    assert(data(t) == JsonData::Object(data_members(members)));
    put(value, "sourceTrace", t);
}

fn first_of_owned(a: Option<String>, b: Option<String>) -> (r: Option<String>)
    ensures
        opt_view(r) == or_else(opt_view(a), opt_view(b)),
{
    match a {
        Some(x) => Some(x),
        None => b,
    }
}

/// The exchange an EcoSpold exchange element describes, for its flow, at
/// position `index` (see `exchange_value_of`); `trace` is the element's trace
/// record.
pub fn exchange_value(element: &XmlNode, flow: &CanonicalEntity, index: usize, version: EcoSpoldVersion, trace: JsonValue) -> (r: TextMap<JsonValue>)
    ensures
        json_view(r.view()) == exchange_value_of(*element, flow.internal_id@, opt_view(flow.name), index as nat, version, data(trace)),
{
    let mut value: TextMap<JsonValue> = TextMap::new();
    assert(json_view(value.view()) =~= Map::<Seq<char>, JsonData>::empty());
    let n: u64 = if index < usize::MAX { (index + 1) as u64 } else { usize::MAX as u64 };
    put(&mut value, "internalId", JsonValue::Number(decimal_string(n)));
    let mut reference: Vec<(String, JsonValue)> = Vec::new();
    push_member(&mut reference, "@id", JsonValue::String(flow.internal_id.clone()));
    push_member(&mut reference, "name", match &flow.name {
        Some(x) => JsonValue::String(x.clone()),
        None => JsonValue::Null,
    });
    let ghost members = reference@;
    assert(data_members(members) =~= seq![("@id"@, JsonData::Text(flow.internal_id@)), ("name"@, text_or_null(opt_view(flow.name)))]);
    let reference = JsonValue::Object(reference);
    assert(data(reference) == JsonData::Object(data_members(members)));
    put(&mut value, "flow", reference);
    put(&mut value, "flowRefId", JsonValue::String(flow.internal_id.clone()));
    put(&mut value, "flowName", JsonValue::String(match &flow.name {
        Some(x) => x.clone(),
        None => owned("Flow"),
    }));
    put(&mut value, "isInput", JsonValue::Bool(is_input(element)));
    let amount = first_of(element.attr("amount"), first_of(element.attr("meanValue"), child_text(element, "amount")));
    put(&mut value, "amount", JsonValue::String(match amount {
        Some(a) => a,
        None => owned("0"),
    }));
    put(&mut value, "sourceFormat", JsonValue::String(owned(version.format())));
    put_some(&mut value, "unitName", first_of(element.attr("unit"), child_text(element, "unitName")));
    assert(json_view(value.view()) == exchange_base(*element, flow.internal_id@, opt_view(flow.name), index as nat, version));
    apply_exchange_semantics(element, version, &mut value, trace);
    value
}

// ---------------------------------------------------------------------------
// Datasets and their exchanges
// ---------------------------------------------------------------------------

/// The element names of a dataset in each version.
pub open spec fn dataset_names(version: EcoSpoldVersion) -> (Seq<char>, Seq<char>) {
    match version {
        EcoSpoldVersion::One => ("dataset"@, "dataSet"@),
        EcoSpoldVersion::Two => ("activityDataset"@, "childActivityDataset"@),
    }
}

/// The datasets of a document: the elements with the first dataset name in
/// document order, then those with the second; where there are none and the
/// root itself bears a dataset name, the root.
pub open spec fn datasets_of(root: XmlNode, version: EcoSpoldVersion) -> Seq<XmlNode> {
    let (a, b) = dataset_names(version);
    let found = named(preorder(root), a) + named(preorder(root), b);
    if found.len() == 0 && (root.name@ == a || root.name@ == b) {
        seq![root]
    } else {
        found
    }
}

/// The exchange elements of a dataset: `exchange` elements in EcoSpold 1;
/// intermediate, then elementary exchanges in EcoSpold 2.
pub open spec fn exchanges_of(dataset: XmlNode, version: EcoSpoldVersion) -> Seq<XmlNode> {
    match version {
        EcoSpoldVersion::One => named(preorder(dataset), "exchange"@),
        EcoSpoldVersion::Two => named(preorder(dataset), "intermediateExchange"@) + named(
            preorder(dataset),
            "elementaryExchange"@,
        ),
    }
}

fn joined<'a>(n: &'a XmlNode, first: &str, second: &str) -> (r: Vec<&'a XmlNode>)
    ensures
        derefs(r@) == named(preorder(*n), first@) + named(preorder(*n), second@),
{
    let mut a = n.descendants_named(first).remaining();
    let mut b = n.descendants_named(second).remaining();
    let ghost av = a@;
    let ghost bv = b@;
    a.append(&mut b);
    assert(derefs(a@) =~= derefs(av) + derefs(bv));
    a
}

/// The datasets of a document (see `datasets_of`).
pub fn datasets(root: &XmlNode, version: EcoSpoldVersion) -> (r: Vec<&XmlNode>)
    ensures
        derefs(r@) == datasets_of(*root, version),
{
    let (a, b) = match version {
        EcoSpoldVersion::One => ("dataset", "dataSet"),
        EcoSpoldVersion::Two => ("activityDataset", "childActivityDataset"),
    };
    let mut found = joined(root, a, b);
    if found.len() == 0 && (str_eq(root.name.as_str(), a) || str_eq(root.name.as_str(), b)) {
        found.push(root);
        assert(derefs(found@) =~= seq![*root]);
    }
    found
}

/// The exchange elements of a dataset (see `exchanges_of`).
pub fn exchange_nodes(dataset: &XmlNode, version: EcoSpoldVersion) -> (r: Vec<&XmlNode>)
    ensures
        derefs(r@) == exchanges_of(*dataset, version),
{
    match version {
        EcoSpoldVersion::One => dataset.descendants_named("exchange").remaining(),
        EcoSpoldVersion::Two => joined(dataset, "intermediateExchange", "elementaryExchange"),
    }
}

} // verus!
