//! The openLCA process workbook rules: the cells of a sheet row (shared
//! strings, booleans, column letters), the process of the General information
//! sheet, the flows of the Flows sheet and the exchanges of the Inputs and
//! Outputs sheets.
use vstd::prelude::*;

use crate::json::{JsonData, JsonValue, data, members_view, push_member, put_member};
use crate::model::CanonicalEntity;
use crate::normalization::{opt_view, texts};
use crate::openlca::{parses_as_uuid, uuid_text};
use crate::openlca_entities::{entity_facts, fields, kept_pieces};
use crate::openlca_exchange::digits_value;
use crate::process_writer::{all_digits, text_or};
use crate::table::TextMap;
use crate::text::{
    chars_of, concat, concat3, decimal, decimal_string, lower, owned, split, split_chars, str_eq, string_of,
    to_ascii_lowercase, trim, trim_chars, trim_str,
};
use crate::units::{json_view, lemma_json_view_insert, lookup};
use crate::writers::{stable_id, uuid_v5_url};

verus! {

// ---------------------------------------------------------------------------
// Cells and texts
// ---------------------------------------------------------------------------

/// The key a flow is found by: its name and category, trimmed and in lower
/// case, joined by `|`.
pub open spec fn flow_key_of(name: Seq<char>, category: Seq<char>) -> Seq<char> {
    lower(trim(name)) + "|"@ + lower(trim(category))
}

pub fn flow_key(name: &str, category: &str) -> (r: String)
    ensures
        r@ == flow_key_of(name@, category@),
{
    let n = to_ascii_lowercase(trim_str(name).as_str());
    let c = to_ascii_lowercase(trim_str(category).as_str());
    concat3(n.as_str(), "|", c.as_str())
}

/// The flow type a row's type names, by its first letter (trimmed, any case):
/// `w` a waste flow, `p` a product flow, anything else an elementary flow.
pub open spec fn flow_type_of(value: Option<Seq<char>>) -> Seq<char> {
    let t = lower(trim(text_or(value, Seq::empty())));
    if t.len() > 0 && t[0] == 'w' {
        "WASTE_FLOW"@
    } else if t.len() > 0 && t[0] == 'p' {
        "PRODUCT_FLOW"@
    } else {
        "ELEMENTARY_FLOW"@
    }
}

pub fn flow_type(value: Option<&str>) -> (r: &'static str)
    ensures
        r@ == flow_type_of(crate::normalization::opt_str(value)),
{
    let raw = match value {
        Some(v) => v,
        None => "",
    };
    proof {
        reveal_strlit("");
        assert(""@ =~= Seq::<char>::empty());
    }
    let t = chars_of(to_ascii_lowercase(trim_str(raw).as_str()).as_str());
    if t.len() > 0 && t[0] == 'w' {
        "WASTE_FLOW"
    } else if t.len() > 0 && t[0] == 'p' {
        "PRODUCT_FLOW"
    } else {
        "ELEMENTARY_FLOW"
    }
}

/// A cell that says yes: `true`, `yes`, `y`, `1` or `x` (trimmed, any case).
pub open spec fn truthy_text(value: Seq<char>) -> bool {
    let v = lower(trim(value));
    v == "true"@ || v == "yes"@ || v == "y"@ || v == "1"@ || v == "x"@
}

pub fn truthy(value: &str) -> (r: bool)
    ensures
        r == truthy_text(value@),
{
    let v = to_ascii_lowercase(trim_str(value).as_str());
    let s = v.as_str();
    str_eq(s, "true") || str_eq(s, "yes") || str_eq(s, "y") || str_eq(s, "1") || str_eq(s, "x")
}

/// The pieces of a category path.
pub fn split_path(value: &str) -> (r: Vec<String>)
    ensures
        texts(r@) == kept_pieces(split(value@, '/')),
{
    let chars = chars_of(value);
    let pieces = split_chars(chars.as_slice(), '/');
    let ghost ps = pieces@.map_values(|v: Vec<char>| v@);
    let mut out: Vec<String> = Vec::new();
    let mut i: usize = 0;
    assert(ps.subrange(0, 0) =~= Seq::<Seq<char>>::empty());
    assert(texts(out@) =~= Seq::<Seq<char>>::empty());
    while i < pieces.len()
        invariant
            i <= pieces@.len(),
            ps == pieces@.map_values(|v: Vec<char>| v@),
            texts(out@) == kept_pieces(ps.subrange(0, i as int)),
        decreases pieces@.len() - i,
    {
        let ghost sub = ps.subrange(0, i + 1);
        assert(sub.drop_last() =~= ps.subrange(0, i as int));
        assert(sub.last() == pieces@[i as int]@);
        let t = trim_chars(pieces[i].as_slice());
        if t.len() > 0 {
            let ghost before = out@;
            out.push(string_of(t.as_slice()));
            assert(texts(out@) =~= texts(before).push(t@));
        }
        i = i + 1;
    }
    assert(ps.subrange(0, ps.len() as int) =~= ps);
    out
}

/// `usize::from_str`: an optional `+`, then at least one digit, of value that fits.
pub open spec fn parse_index(s: Seq<char>) -> Option<nat> {
    let d = if s.len() > 0 && s[0] == '+' {
        s.drop_first()
    } else {
        s
    };
    if d.len() > 0 && all_digits(d) && digits_value(d) <= usize::MAX {
        Some(digits_value(d))
    } else {
        None
    }
}

/// The text of a cell: none where it is blank; a shared string by its index
/// for type `s`; `true` or `false` for type `b`; else the trimmed value.
pub open spec fn cell_text(cell_type: Seq<char>, value: Seq<char>, shared: Seq<Seq<char>>) -> Option<Seq<char>> {
    let v = trim(value);
    if v.len() == 0 {
        None
    } else if cell_type == "s"@ {
        match parse_index(v) {
            Some(i) => if i < shared.len() {
                Some(shared[i as int])
            } else {
                None
            },
            None => None,
        }
    } else if cell_type == "b"@ {
        Some(if v == "1"@ { "true"@ } else { "false"@ })
    } else {
        Some(v)
    }
}

fn parse_index_of(s: &Vec<char>) -> (r: Option<usize>)
    ensures
        match r {
            Some(i) => parse_index(s@) == Some(i as nat),
            None => parse_index(s@) is None,
        },
{
    let signed = s.len() > 0 && s[0] == '+';
    let mut d: Vec<char> = Vec::new();
    let mut k: usize = if signed { 1 } else { 0 };
    let start = k;
    while k < s.len()
        invariant
            start <= k <= s@.len(),
            start == (if signed { 1usize } else { 0usize }),
            signed ==> s@.len() > 0,
            d@ == s@.subrange(start as int, k as int),
        decreases s@.len() - k,
    {
        d.push(s[k]);
        k = k + 1;
    }
    proof {
        if signed {
            assert(d@ =~= s@.drop_first());
        } else {
            assert(d@ =~= s@);
        }
    }
    if d.len() == 0 {
        return None;
    }
    let cap: u128 = 0x1_0000_0000_0000_0000;
    match crate::openlca_exchange::capped_digits(d.as_slice(), cap) {
        Some(x) => if x <= usize::MAX as u128 {
            Some(x as usize)
        } else {
            None
        },
        None => None,
    }
}

/// The text of a cell (see `cell_text`).
pub fn resolve_cell(cell_type: &str, value: &str, shared: &Vec<String>) -> (r: Option<String>)
    ensures
        opt_view(r) == cell_text(cell_type@, value@, shared@.map_values(|s: String| s@)),
{
    let v = trim_str(value);
    if v.as_str().is_empty() {
        return None;
    }
    if str_eq(cell_type, "s") {
        let c = chars_of(v.as_str());
        return match parse_index_of(&c) {
            Some(i) => if i < shared.len() {
                Some(shared[i].clone())
            } else {
                None
            },
            None => None,
        };
    }
    if str_eq(cell_type, "b") {
        return Some(owned(if str_eq(v.as_str(), "1") { "true" } else { "false" }));
    }
    Some(v)
}

/// The value of the leading letters of a cell reference (`A` is 1, `Z` 26,
/// `AA` 27), each step saturating at the largest `usize`.
pub open spec fn letters_value(s: Seq<char>) -> nat
    decreases s.len(),
{
    if s.len() == 0 {
        0
    } else {
        let prev = letters_value(s.drop_last());
        let times = if prev * 26 > usize::MAX { usize::MAX as nat } else { prev * 26 };
        let digit = if (crate::text::upper_char(s.last()) as nat) < 64 { 0 } else { ((crate::text::upper_char(s.last()) as nat) - 64) as nat };
        if times + digit > usize::MAX { usize::MAX as nat } else { times + digit }
    }
}

pub open spec fn is_ascii_letter(c: char) -> bool {
    ('a' <= c && c <= 'z') || ('A' <= c && c <= 'Z')
}

/// The leading ASCII letters of a text.
pub open spec fn leading_letters(s: Seq<char>) -> Seq<char>
    decreases s.len(),
{
    if s.len() > 0 && is_ascii_letter(s[0]) {
        seq![s[0]] + leading_letters(s.drop_first())
    } else {
        Seq::empty()
    }
}

/// The column of a cell reference, counted from zero.
pub open spec fn column_of(reference: Seq<char>) -> nat {
    let v = letters_value(leading_letters(reference));
    if v == 0 { 0 } else { (v - 1) as nat }
}

/// The column of a cell reference (see `column_of`).
pub fn column_index(reference: &str) -> (r: usize)
    ensures
        r == column_of(reference@),
{
    let c = chars_of(reference);
    let mut n: usize = 0;
    while n < c.len() && ((c[n] >= 'a' && c[n] <= 'z') || (c[n] >= 'A' && c[n] <= 'Z'))
        invariant
            n <= c@.len(),
            forall|k: int| 0 <= k < n ==> is_ascii_letter(#[trigger] c@[k]),
        decreases c@.len() - n,
    {
        n = n + 1;
    }
    proof {
        lemma_leading_letters(c@, n as int);
    }
    let mut v: usize = 0;
    let mut i: usize = 0;
    assert(c@.subrange(0, 0) =~= Seq::<char>::empty());
    while i < n
        invariant
            i <= n <= c@.len(),
            v == letters_value(c@.subrange(0, i as int)),
        decreases n - i,
    {
        let ghost sub = c@.subrange(0, i + 1);
        assert(sub.drop_last() =~= c@.subrange(0, i as int));
        assert(sub.last() == c@[i as int]);
        let u = crate::text::ascii_upper_char(c[i]) as u32;
        let digit: usize = if u < 64 { 0 } else { (u - 64) as usize };
        let times: usize = if v > usize::MAX / 26 { usize::MAX } else { v * 26 };
        v = times.saturating_add(digit);
        i = i + 1;
    }
    if v == 0 { 0 } else { v - 1 }
}

proof fn lemma_leading_letters(s: Seq<char>, n: int)
    requires
        0 <= n <= s.len(),
        forall|k: int| 0 <= k < n ==> is_ascii_letter(#[trigger] s[k]),
        n == s.len() || !is_ascii_letter(s[n]),
    ensures
        leading_letters(s) == s.subrange(0, n),
    decreases n,
{
    if n == 0 {
        assert(s.subrange(0, 0) =~= Seq::<char>::empty());
    } else {
        let rest = s.drop_first();
        assert forall|k: int| 0 <= k < n - 1 implies is_ascii_letter(#[trigger] rest[k]) by {
            assert(rest[k] == s[k + 1]);
        }
        if n < s.len() {
            assert(rest[n - 1] == s[n]);
        }
        lemma_leading_letters(rest, n - 1);
        assert(seq![s[0]] + rest.subrange(0, n - 1) =~= s.subrange(0, n));
    }
}

/// The archive path a workbook relationship points to: under `xl/`, without
/// leading `/`; refused where a part of it is `..`.
pub open spec fn xl_target(target: Seq<char>) -> Option<Seq<char>> {
    let t = trim_start_slashes(target);
    let path = if crate::text::starts_with(t, "xl/"@) { t } else { "xl/"@ + t };
    if split(path, '/').contains(".."@) {
        None
    } else {
        Some(path)
    }
}

pub open spec fn trim_start_slashes(s: Seq<char>) -> Seq<char>
    decreases s.len(),
{
    if s.len() > 0 && s[0] == '/' {
        trim_start_slashes(s.drop_first())
    } else {
        s
    }
}

/// Why a workbook relationship was refused.
#[derive(Debug)]
pub enum WorkbookTargetError {
    /// The target leaves the workbook's `xl/` tree.
    Unsafe,
}

/// The archive path of a workbook relationship target (see `xl_target`).
pub fn resolve_xl_target(target: &str) -> (r: Result<String, WorkbookTargetError>)
    ensures
        match xl_target(target@) {
            Some(p) => r matches Ok(s) && s@ == p,
            None => r is Err,
        },
{
    let c = chars_of(target);
    let mut a: usize = 0;
    assert(c@.subrange(0, c@.len() as int) =~= c@);
    while a < c.len() && c[a] == '/'
        invariant
            a <= c@.len(),
            trim_start_slashes(c@) == trim_start_slashes(c@.subrange(a as int, c@.len() as int)),
        decreases c@.len() - a,
    {
        assert(c@.subrange(a as int, c@.len() as int).drop_first() =~= c@.subrange(a + 1, c@.len() as int));
        a = a + 1;
    }
    let mut t: Vec<char> = Vec::new();
    let mut k: usize = a;
    while k < c.len()
        invariant
            a <= k <= c@.len(),
            t@ == c@.subrange(a as int, k as int),
        decreases c@.len() - k,
    {
        t.push(c[k]);
        k = k + 1;
    }
    proof {
        let rest = c@.subrange(a as int, c@.len() as int);
        if a < c@.len() {
            assert(rest[0] == c@[a as int]);
        }
        assert(trim_start_slashes(rest) == rest);
    }
    let ts = string_of(t.as_slice());
    let path = if crate::text::str_starts_with(ts.as_str(), "xl/") {
        ts
    } else {
        concat("xl/", ts.as_str())
    };
    let ghost tp = trim_start_slashes(target@);
    let ghost want = if crate::text::starts_with(tp, "xl/"@) { tp } else { "xl/"@ + tp };
    assert(path@ == want);
    let pc = chars_of(path.as_str());
    let parts = split_chars(pc.as_slice(), '/');
    let ghost ps = parts@.map_values(|v: Vec<char>| v@);
    let mut i: usize = 0;
    while i < parts.len()
        invariant
            i <= parts@.len(),
            ps == parts@.map_values(|v: Vec<char>| v@),
            ps == split(want, '/'),
            want == (if crate::text::starts_with(trim_start_slashes(target@), "xl/"@) {
                trim_start_slashes(target@)
            } else {
                "xl/"@ + trim_start_slashes(target@)
            }),
            forall|j: int| 0 <= j < i ==> ps[j] != ".."@,
        decreases parts@.len() - i,
    {
        assert(ps[i as int] == parts@[i as int]@);
        let part = string_of(parts[i].as_slice());
        if str_eq(part.as_str(), "..") {
            assert(ps.contains(".."@));
            return Err(WorkbookTargetError::Unsafe);
        }
        i = i + 1;
    }
    assert(!ps.contains(".."@));
    Ok(path)
}

// ---------------------------------------------------------------------------
// Rows
// ---------------------------------------------------------------------------

/// The text of a cell of a row, by its header.
pub open spec fn cell(row: Map<Seq<char>, String>, header: Seq<char>) -> Option<Seq<char>> {
    opt_view(lookup(row, header))
}

fn cell_of<'a>(row: &'a TextMap<String>, header: &str) -> (r: Option<&'a str>)
    ensures
        crate::normalization::opt_str(r) == cell(row.view(), header@),
{
    match row.get(header) {
        Some(s) => Some(s.as_str()),
        None => None,
    }
}

/// A declared id that is a UUID.
pub open spec fn declared_uuid(v: Option<Seq<char>>) -> Option<Seq<char>> {
    match v {
        Some(u) => if uuid_text(u) {
            Some(u)
        } else {
            None
        },
        None => None,
    }
}

fn declared_uuid_of(v: Option<&str>) -> (r: Option<String>)
    ensures
        opt_view(r) == declared_uuid(crate::normalization::opt_str(v)),
{
    match v {
        Some(u) => if parses_as_uuid(u) {
            Some(owned(u))
        } else {
            None
        },
        None => None,
    }
}

/// The process of a workbook's General information: its name (a generic name
/// where it has none), its UUID (else an id derived from the source and the
/// name), its category path and its description.
pub open spec fn workbook_process_of(info: Map<Seq<char>, String>, source: Seq<char>) -> (Seq<char>, Seq<char>, Option<Seq<char>>, Option<Seq<char>>, Seq<Seq<char>>, Map<Seq<char>, JsonData>) {
    let name = text_or(cell(info, "name"@), "openLCA process"@);
    let declared = declared_uuid(cell(info, "uuid"@));
    (
        "processes"@,
        match declared {
            Some(u) => u,
            None => uuid_v5_url(vstd::utf8::encode_utf8("openlca-process-xlsx/"@ + source + "/"@ + name)),
        },
        declared,
        Some(name),
        match cell(info, "category"@) {
            Some(c) => kept_pieces(split(c, '/')),
            None => Seq::empty(),
        },
        Map::empty().insert(
            "description"@,
            JsonData::Text(text_or(cell(info, "description"@), "Imported from openLCA XLSX."@)),
        ),
    )
}

/// The process of a workbook (see `workbook_process_of`).
pub fn process_entity(info: &TextMap<String>, source: &str) -> (r: CanonicalEntity)
    ensures
        entity_facts(r) == workbook_process_of(info.view(), source@),
{
    let name = owned(text_or_str(cell_of(info, "name"), "openLCA process"));
    let declared = declared_uuid_of(cell_of(info, "uuid"));
    let id = match &declared {
        Some(u) => u.clone(),
        None => {
            let seed = concat(concat3("openlca-process-xlsx/", source, "/").as_str(), name.as_str());
            assert(seed@ =~= "openlca-process-xlsx/"@ + source@ + "/"@ + name@);
            stable_id(seed.as_str())
        },
    };
    let category_path = match cell_of(info, "category") {
        Some(c) => split_path(c),
        None => {
            let v: Vec<String> = Vec::new();
            assert(texts(v@) =~= Seq::<Seq<char>>::empty());
            v
        },
    };
    let mut raw: Vec<(String, JsonValue)> = Vec::new();
    assert(fields(raw) =~= Map::<Seq<char>, JsonData>::empty());
    put_member(&mut raw, "description", JsonValue::String(owned(text_or_str(cell_of(info, "description"), "Imported from openLCA XLSX."))));
    CanonicalEntity {
        entity_type: owned("processes"),
        internal_id: id,
        external_id: declared,
        name: Some(name),
        category_path,
        raw: JsonValue::Object(raw),
    }
}

fn text_or_str<'a>(t: Option<&'a str>, default: &'a str) -> (r: &'a str)
    ensures
        r@ == text_or(crate::normalization::opt_str(t), default@),
{
    match t {
        Some(s) => s,
        None => default,
    }
}

/// A name part of a Flows row, where its cell is not blank (kept as written).
pub open spec fn row_name_part(row: Map<Seq<char>, String>, header: Seq<char>, field: Seq<char>) -> Seq<(Seq<char>, JsonData)> {
    match cell(row, header) {
        Some(t) => if trim(t).len() > 0 {
            seq![(field, JsonData::Text(t))]
        } else {
            Seq::empty()
        },
        None => Seq::empty(),
    }
}

pub open spec fn row_name_members(row: Map<Seq<char>, String>) -> Seq<(Seq<char>, JsonData)> {
    row_name_part(row, "flow properties"@, "flowProperties"@) + row_name_part(row, "mix and location types"@,
        "mixAndLocationTypes"@) + row_name_part(row, "treatment standards routes"@, "treatmentStandardsRoutes"@)
}

/// The flow of a Flows row: its name is required; its id is its UUID (else
/// derived from the source, name and category); it is found again by its key;
/// it keeps its type, its name parts and where it came from.
pub open spec fn row_flow_of(row: Map<Seq<char>, String>, source: Seq<char>) -> Option<(Seq<char>, Seq<char>, Option<Seq<char>>, Option<Seq<char>>, Seq<Seq<char>>, Map<Seq<char>, JsonData>)> {
    match cell(row, "name"@) {
        None => None,
        Some(name) => {
            let category = text_or(cell(row, "category"@), Seq::empty());
            let m0 = Map::<Seq<char>, JsonData>::empty().insert("flowType"@, JsonData::Text(flow_type_of(cell(row, "type"@))));
            let m1 = if row_name_members(row).len() > 0 {
                m0.insert("flowName"@, JsonData::Object(row_name_members(row)))
            } else {
                m0
            };
            let m2 = m1.insert(
                "sourceTrace"@,
                JsonData::Object(seq![
                    ("format"@, JsonData::Text("openlca-process-xlsx"@)),
                    ("sourceObject"@, JsonData::Text("Flows row"@)),
                ]),
            );
            Some(
                (
                    "flows"@,
                    match declared_uuid(cell(row, "uuid"@)) {
                        Some(u) => u,
                        None => uuid_v5_url(
                            vstd::utf8::encode_utf8("openlca-process-xlsx/flow/"@ + source + "/"@ + name + "/"@ + category),
                        ),
                    },
                    Some(flow_key_of(name, category)),
                    Some(name),
                    kept_pieces(split(category, '/')),
                    m2,
                ),
            )
        },
    }
}

fn push_name_part(m: &mut Vec<(String, JsonValue)>, row: &TextMap<String>, header: &str, field: &str)
    ensures
        crate::json::data_members(final(m)@) == crate::json::data_members(old(m)@) + row_name_part(row.view(), header@, field@),
{
    match cell_of(row, header) {
        Some(t) => {
            let tt = trim_str(t);
            if !tt.as_str().is_empty() {
                push_member(m, field, JsonValue::String(owned(t)));
                return;
            }
        },
        None => {},
    }
    assert(crate::json::data_members(m@) + Seq::<(Seq<char>, JsonData)>::empty() =~= crate::json::data_members(m@));
}

/// The flow of a Flows row (see `row_flow_of`).
pub fn flow_from_row(row: &TextMap<String>, source: &str) -> (r: Option<CanonicalEntity>)
    ensures
        match row_flow_of(row.view(), source@) {
            Some(f) => r matches Some(e) && entity_facts(e) == f,
            None => r is None,
        },
{
    let name = match cell_of(row, "name") {
        Some(n) => n,
        None => {
            return None;
        },
    };
    let category = text_or_str(cell_of(row, "category"), "");
    proof {
        reveal_strlit("");
        assert(""@ =~= Seq::<char>::empty());
    }
    let declared = declared_uuid_of(cell_of(row, "uuid"));
    let mut raw: Vec<(String, JsonValue)> = Vec::new();
    assert(fields(raw) =~= Map::<Seq<char>, JsonData>::empty());
    put_member(&mut raw, "flowType", JsonValue::String(owned(flow_type(cell_of(row, "type")))));
    let mut parts: Vec<(String, JsonValue)> = Vec::new();
    assert(crate::json::data_members(parts@) =~= Seq::<(Seq<char>, JsonData)>::empty());
    push_name_part(&mut parts, row, "flow properties", "flowProperties");
    push_name_part(&mut parts, row, "mix and location types", "mixAndLocationTypes");
    push_name_part(&mut parts, row, "treatment standards routes", "treatmentStandardsRoutes");
    assert(Seq::<(Seq<char>, JsonData)>::empty() + row_name_part(row.view(), "flow properties"@, "flowProperties"@)
        =~= row_name_part(row.view(), "flow properties"@, "flowProperties"@));
    if parts.len() > 0 {
        put_member(&mut raw, "flowName", JsonValue::Object(parts));
    } else {
        proof {
            crate::json::lemma_data_members(parts@);
        }
    }
    let mut trace: Vec<(String, JsonValue)> = Vec::new();
    push_member(&mut trace, "format", JsonValue::String(owned("openlca-process-xlsx")));
    push_member(&mut trace, "sourceObject", JsonValue::String(owned("Flows row")));
    assert(crate::json::data_members(trace@) =~= seq![
        ("format"@, JsonData::Text("openlca-process-xlsx"@)),
        ("sourceObject"@, JsonData::Text("Flows row"@)),
    ]);
    put_member(&mut raw, "sourceTrace", JsonValue::Object(trace));
    let id = match &declared {
        Some(u) => u.clone(),
        None => {
            let head = concat3("openlca-process-xlsx/flow/", source, "/");
            let seed = concat(concat3(head.as_str(), name, "/").as_str(), category);
            assert(seed@ =~= "openlca-process-xlsx/flow/"@ + source@ + "/"@ + name@ + "/"@ + category@);
            stable_id(seed.as_str())
        },
    };
    Some(
        CanonicalEntity {
            entity_type: owned("flows"),
            internal_id: id,
            external_id: Some(flow_key(name, category)),
            name: Some(owned(name)),
            category_path: split_path(category),
            raw: JsonValue::Object(raw),
        },
    )
}

/// The key by which the flow of an Inputs or Outputs row is looked up, where
/// the row names a flow.
pub fn exchange_flow_key(row: &TextMap<String>) -> (r: Option<String>)
    ensures
        opt_view(r) == match cell(row.view(), "flow"@) {
            Some(name) => Some(flow_key_of(name, text_or(cell(row.view(), "category"@), Seq::empty()))),
            None => None,
        },
{
    let name = match cell_of(row, "flow") {
        Some(n) => n,
        None => {
            return None;
        },
    };
    let category = text_or_str(cell_of(row, "category"), "");
    proof {
        reveal_strlit("");
        assert(""@ =~= Seq::<char>::empty());
    }
    Some(flow_key(name, category))
}

/// The flow of an exchange row that the store does not know yet: a product
/// flow named by the row, with an id derived from the source, name and category.
pub open spec fn new_exchange_flow(name: Seq<char>, category: Seq<char>, source: Seq<char>) -> (Seq<char>, Seq<char>, Option<Seq<char>>, Option<Seq<char>>, Seq<Seq<char>>, Map<Seq<char>, JsonData>) {
    (
        "flows"@,
        uuid_v5_url(vstd::utf8::encode_utf8("openlca-process-xlsx/exchange-flow/"@ + source + "/"@ + name + "/"@ + category)),
        Some(flow_key_of(name, category)),
        Some(name),
        kept_pieces(split(category, '/')),
        Map::empty().insert("flowType"@, JsonData::Text("PRODUCT_FLOW"@)),
    )
}

/// The exchange of an Inputs or Outputs row, with the id and name of the flow it refers to.
pub open spec fn row_exchange_of(
    row: Map<Seq<char>, String>,
    is_input: bool,
    index: nat,
    flow_id: Seq<char>,
    flow_name: Option<Seq<char>>,
) -> Map<Seq<char>, JsonData> {
    let m0 = Map::<Seq<char>, JsonData>::empty().insert("internalId"@, JsonData::Number(decimal(index))).insert(
        "flow"@,
        JsonData::Object(seq![
            ("@id"@, JsonData::Text(flow_id)),
            ("name"@, match flow_name {
                Some(n) => JsonData::Text(n),
                None => JsonData::Null,
            }),
        ]),
    ).insert("flowRefId"@, JsonData::Text(flow_id)).insert(
        "flowName"@,
        JsonData::Text(text_or(flow_name, "Flow"@)),
    ).insert("isInput"@, JsonData::Bool(is_input)).insert(
        "amount"@,
        JsonData::Text(text_or(cell(row, "amount"@), "0"@)),
    );
    let m1 = match cell(row, "is reference?"@) {
        Some(v) => if truthy_text(v) {
            m0.insert("isQuantitativeReference"@, JsonData::Bool(true))
        } else {
            m0
        },
        None => m0,
    };
    match cell(row, "unit"@) {
        Some(u) => m1.insert("unitName"@, JsonData::Text(u)),
        None => m1,
    }
}

fn put(m: &mut TextMap<JsonValue>, key: &str, v: JsonValue)
    ensures
        json_view(final(m).view()) == json_view(old(m).view()).insert(key@, data(v)),
{
    let ghost before = m.view();
    let ghost vv = v;
    m.insert(owned(key), v);
    proof {
        lemma_json_view_insert(before, key@, vv);
    }
}

/// The exchange of an Inputs or Outputs row (see `row_exchange_of`) and its
/// flow: the flow the store found by the row's key, or a new one (see
/// `new_exchange_flow`), with the row's unit; none where the row names no flow.
pub fn exchange_from_row(
    row: &TextMap<String>,
    source: &str,
    is_input: bool,
    index: usize,
    known: Option<CanonicalEntity>,
) -> (r: Option<(CanonicalEntity, TextMap<JsonValue>)>)
    ensures
        match cell(row.view(), "flow"@) {
            None => r is None,
            Some(name) => r matches Some((flow, x)) && {
                let category = text_or(cell(row.view(), "category"@), Seq::empty());
                let base = match known {
                    Some(k) => entity_facts(k),
                    None => new_exchange_flow(name, category, source@),
                };
                &&& flow.entity_type@ == base.0
                &&& flow.internal_id@ == base.1
                &&& opt_view(flow.external_id) == base.2
                &&& opt_view(flow.name) == base.3
                &&& texts(flow.category_path@) == base.4
                &&& members_view(flow.raw) == match cell(row.view(), "unit"@) {
                    Some(u) => base.5.insert("unitName"@, JsonData::Text(u)),
                    None => base.5,
                }
                &&& json_view(x.view()) == row_exchange_of(row.view(), is_input, index as nat, flow.internal_id@, opt_view(flow.name))
            },
        },
{
    let name = match cell_of(row, "flow") {
        Some(n) => n,
        None => {
            return None;
        },
    };
    let category = text_or_str(cell_of(row, "category"), "");
    proof {
        reveal_strlit("");
        assert(""@ =~= Seq::<char>::empty());
    }
    let flow = match known {
        Some(k) => k,
        None => {
            let head = concat3("openlca-process-xlsx/exchange-flow/", source, "/");
            let seed = concat(concat3(head.as_str(), name, "/").as_str(), category);
            assert(seed@ =~= "openlca-process-xlsx/exchange-flow/"@ + source@ + "/"@ + name@ + "/"@ + category@);
            let mut raw: Vec<(String, JsonValue)> = Vec::new();
            assert(fields(raw) =~= Map::<Seq<char>, JsonData>::empty());
            put_member(&mut raw, "flowType", JsonValue::String(owned("PRODUCT_FLOW")));
            CanonicalEntity {
                entity_type: owned("flows"),
                internal_id: stable_id(seed.as_str()),
                external_id: Some(flow_key(name, category)),
                name: Some(owned(name)),
                category_path: split_path(category),
                raw: JsonValue::Object(raw),
            }
        },
    };
    let CanonicalEntity { entity_type, internal_id, external_id, name: flow_name, category_path, raw } = flow;
    let ghost raw_before = members_view(raw);
    let raw = match cell_of(row, "unit") {
        Some(u) => {
            let mut members = match raw {
                JsonValue::Object(m) => m,
                _ => {
                    let v: Vec<(String, JsonValue)> = Vec::new();
                    assert(fields(v) =~= Map::<Seq<char>, JsonData>::empty());
                    v
                },
            };
            assert(fields(members) == raw_before);
            put_member(&mut members, "unitName", JsonValue::String(owned(u)));
            JsonValue::Object(members)
        },
        None => raw,
    };
    let flow = CanonicalEntity { entity_type, internal_id, external_id, name: flow_name, category_path, raw };
    let mut x: TextMap<JsonValue> = TextMap::new();
    assert(json_view(x.view()) =~= Map::<Seq<char>, JsonData>::empty());
    put(&mut x, "internalId", JsonValue::Number(decimal_string(index as u64)));
    let mut reference: Vec<(String, JsonValue)> = Vec::new();
    push_member(&mut reference, "@id", JsonValue::String(flow.internal_id.clone()));
    let flow_name_value = match &flow.name {
        Some(n) => JsonValue::String(n.clone()),
        None => JsonValue::Null,
    };
    push_member(&mut reference, "name", flow_name_value);
    assert(crate::json::data_members(reference@) =~= seq![
        ("@id"@, JsonData::Text(flow.internal_id@)),
        ("name"@, match opt_view(flow.name) {
            Some(n) => JsonData::Text(n),
            None => JsonData::Null,
        }),
    ]);
    let ghost fid = flow.internal_id@;
    let ghost fname = opt_view(flow.name);
    let ghost fdata = JsonData::Object(seq![
        ("@id"@, JsonData::Text(fid)),
        ("name"@, match fname {
            Some(n) => JsonData::Text(n),
            None => JsonData::Null,
        }),
    ]);
    let ghost members = reference@;
    assert(crate::json::data_members(members) == fdata->Object_0);
    let reference = JsonValue::Object(reference);
    assert(data(reference) == JsonData::Object(crate::json::data_members(members)));
    assert(data(reference) == fdata);
    put(&mut x, "flow", reference);
    put(&mut x, "flowRefId", JsonValue::String(flow.internal_id.clone()));
    let shown = match &flow.name {
        Some(n) => n.clone(),
        None => owned("Flow"),
    };
    assert(shown@ == text_or(opt_view(flow.name), "Flow"@));
    put(&mut x, "flowName", JsonValue::String(shown));
    put(&mut x, "isInput", JsonValue::Bool(is_input));
    put(&mut x, "amount", JsonValue::String(owned(text_or_str(cell_of(row, "amount"), "0"))));
    match cell_of(row, "is reference?") {
        Some(v) => if truthy(v) {
            put(&mut x, "isQuantitativeReference", JsonValue::Bool(true));
        },
        None => {},
    }
    match cell_of(row, "unit") {
        Some(u) => put(&mut x, "unitName", JsonValue::String(owned(u))),
        None => {},
    }
    assert(json_view(x.view()) =~= row_exchange_of(row.view(), is_input, index as nat, flow.internal_id@, opt_view(flow.name)));
    Some((flow, x))
}

} // verus!
