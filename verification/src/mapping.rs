//! The expert mapping table: its columns, how a row is written as CSV, and the
//! row of a process exchange.
use vstd::prelude::*;

use crate::json::JsonValue;
use crate::model::CanonicalEntity;
use crate::runtime::RuntimeError;
use crate::text::{
    chars_of, concat, concat3, contains, decimal, decimal_string, join, join_strings, owned,
    split, split_chars, str_contains, str_eq, string_of,
};

verus! {

/// What writing the mapping table produced.
#[derive(Debug)]
pub struct MappingCsvReportV1 {
    pub row_count: u64,
    pub output_bytes: u64,
    pub output_sha256: String,
    pub peak_accounted_memory_bytes: u64,
}

/// Why the mapping table could not be written.
#[derive(Debug)]
pub enum MappingCsvError {
    /// A row number or byte count does not fit in 64 bits.
    SizeOverflow,
    /// Replacing the previous table failed and so did restoring it; both messages.
    CommitRollback { source: String, restore: String },
    /// Reading or writing failed; the message.
    Io(String),
    Runtime(RuntimeError),
    /// The canonical store failed; the message.
    Store(String),
}

/// Whether a field must be quoted: it holds a comma, a quote or a line break.
pub open spec fn needs_quotes(f: Seq<char>) -> bool {
    contains(f, seq![',']) || contains(f, seq!['"']) || contains(f, seq!['\n']) || contains(f, seq!['\r'])
}

/// A CSV field: quoted, with its quotes doubled, when it needs quotes.
pub open spec fn csv_field(f: Seq<char>) -> Seq<char> {
    if needs_quotes(f) {
        seq!['"'] + join(split(f, '"'), seq!['"', '"']) + seq!['"']
    } else {
        f
    }
}

pub open spec fn csv_fields(fields: Seq<Seq<char>>) -> Seq<Seq<char>> {
    fields.map_values(|f: Seq<char>| csv_field(f))
}

/// A CSV row: the fields separated by commas, and a line break.
pub open spec fn csv_row_text(fields: Seq<Seq<char>>) -> Seq<char> {
    join(csv_fields(fields), seq![',']) + seq!['\n']
}

fn csv_field_of(field: &str) -> (r: String)
    ensures
        r@ == csv_field(field@),
{
    let c = chars_of(field);
    let comma: Vec<char> = vec![','];
    let quote: Vec<char> = vec!['"'];
    let newline: Vec<char> = vec!['\n'];
    let ret: Vec<char> = vec!['\r'];
    assert(comma@ =~= seq![',']);
    assert(quote@ =~= seq!['"']);
    assert(newline@ =~= seq!['\n']);
    assert(ret@ =~= seq!['\r']);
    let quoted = crate::text::chars_contain(c.as_slice(), comma.as_slice())
        || crate::text::chars_contain(c.as_slice(), quote.as_slice())
        || crate::text::chars_contain(c.as_slice(), newline.as_slice())
        || crate::text::chars_contain(c.as_slice(), ret.as_slice());
    if !quoted {
        return owned(field);
    }
    let parts = split_chars(c.as_slice(), '"');
    let mut texts: Vec<String> = Vec::new();
    let mut i: usize = 0;
    while i < parts.len()
        invariant
            i <= parts@.len(),
            texts@.map_values(|s: String| s@) == parts@.subrange(0, i as int).map_values(|v: Vec<char>| v@),
        decreases parts@.len() - i,
    {
        let ghost before = texts@.map_values(|s: String| s@);
        texts.push(string_of(parts[i].as_slice()));
        assert(texts@.map_values(|s: String| s@) =~= before.push(parts@[i as int]@));
        i = i + 1;
        assert(parts@.subrange(0, i as int).map_values(|v: Vec<char>| v@) =~= parts@.subrange(0, i - 1).map_values(|v: Vec<char>| v@).push(parts@[i - 1]@));
    }
    assert(parts@.subrange(0, parts@.len() as int) =~= parts@);
    let inner = join_strings(&texts, "\"\"");
    proof {
        reveal_strlit("\"\"");
        reveal_strlit("\"");
        assert("\"\""@ =~= seq!['"', '"']);
        assert("\""@ =~= seq!['"']);
    }
    concat3("\"", inner.as_str(), "\"")
}

/// A CSV row of fields (see `csv_row_text`).
pub fn csv_row(fields: &Vec<String>) -> (r: String)
    ensures
        r@ == csv_row_text(fields@.map_values(|f: String| f@)),
{
    let mut encoded: Vec<String> = Vec::new();
    let mut i: usize = 0;
    while i < fields.len()
        invariant
            i <= fields@.len(),
            encoded@.map_values(|s: String| s@) == csv_fields(fields@.map_values(|f: String| f@)).subrange(0, i as int),
        decreases fields@.len() - i,
    {
        let ghost before = encoded@.map_values(|s: String| s@);
        encoded.push(csv_field_of(fields[i].as_str()));
        assert(encoded@.map_values(|s: String| s@) =~= before.push(csv_field(fields@[i as int]@)));
        i = i + 1;
        assert(csv_fields(fields@.map_values(|f: String| f@)).subrange(0, i as int) =~= csv_fields(fields@.map_values(|f: String| f@)).subrange(0, i - 1).push(csv_field(fields@[i - 1]@)));
    }
    assert(csv_fields(fields@.map_values(|f: String| f@)).subrange(0, fields@.len() as int) =~= csv_fields(fields@.map_values(|f: String| f@)));
    let body = join_strings(&encoded, ",");
    proof {
        reveal_strlit(",");
        reveal_strlit("\n");
        assert(","@ =~= seq![',']);
        assert("\n"@ =~= seq!['\n']);
    }
    concat(body.as_str(), "\n")
}

/// The columns of the mapping table.
pub fn mapping_csv_columns() -> (r: Vec<&'static str>)
    ensures
        r@.map_values(|c: &str| c@) == seq![
            "row_id"@, "source_format"@, "source_object"@, "source_entity_type"@,
            "source_entity_id"@, "source_entity_name"@, "source_exchange_id"@,
            "source_field_path"@, "source_field_name"@, "source_value"@, "target_dataset_type"@,
            "target_dataset_id"@, "target_dataset_name"@, "target_file"@, "target_scope"@,
            "target_field_path"@, "target_field_name"@, "target_value"@, "mapping_status"@,
            "mapping_category"@, "placeholder_kind"@, "trace_marker"@, "needs_review"@,
            "reviewer_notes"@,
        ],
{
    let mut r: Vec<&'static str> = Vec::new();
    r.push("row_id");
    r.push("source_format");
    r.push("source_object");
    r.push("source_entity_type");
    r.push("source_entity_id");
    r.push("source_entity_name");
    r.push("source_exchange_id");
    r.push("source_field_path");
    r.push("source_field_name");
    r.push("source_value");
    r.push("target_dataset_type");
    r.push("target_dataset_id");
    r.push("target_dataset_name");
    r.push("target_file");
    r.push("target_scope");
    r.push("target_field_path");
    r.push("target_field_name");
    r.push("target_value");
    r.push("mapping_status");
    r.push("mapping_category");
    r.push("placeholder_kind");
    r.push("trace_marker");
    r.push("needs_review");
    r.push("reviewer_notes");
    assert(r@.map_values(|c: &str| c@) =~= seq![
        "row_id"@, "source_format"@, "source_object"@, "source_entity_type"@,
        "source_entity_id"@, "source_entity_name"@, "source_exchange_id"@,
        "source_field_path"@, "source_field_name"@, "source_value"@, "target_dataset_type"@,
        "target_dataset_id"@, "target_dataset_name"@, "target_file"@, "target_scope"@,
        "target_field_path"@, "target_field_name"@, "target_value"@, "mapping_status"@,
        "mapping_category"@, "placeholder_kind"@, "trace_marker"@, "needs_review"@,
        "reviewer_notes"@,
    ]);
    r
}

/// The text of a string member of an exchange.
pub open spec fn member_text_of(exchange: JsonValue, key: Seq<char>) -> Option<Seq<char>> {
    exchange.member_text(key)
}

/// The fields of the mapping row of a process exchange at position `index`:
/// its identifier is the exchange's `internalId` text or its position from 1,
/// and its amount is the `amount` text or `0`.
pub fn exchange_row(
    source_format: &str,
    process_id: &str,
    process_name: &str,
    target_file: &str,
    row_id: u64,
    index: usize,
    exchange: &JsonValue,
) -> (r: Vec<String>)
    requires
        index < usize::MAX,
    ensures
        ({
            let id = match exchange.member_text("internalId"@) {
                Some(t) => t,
                None => decimal((index + 1) as nat),
            };
            let amount = match exchange.member_text("amount"@) {
                Some(t) => t,
                None => "0"@,
            };
            r@.map_values(|f: String| f@) == seq![
                decimal(row_id as nat), source_format@, ""@, "processes"@, process_id@, process_name@,
                id, "exchanges.amount"@, "amount"@, amount, "processes"@, process_id@, process_name@,
                target_file@, "exchange"@,
                "exchanges.exchange["@ + decimal(index as nat) + "].meanAmount"@,
                "meanAmount"@, amount, "formal"@, "exchange"@, ""@, ""@, "false"@, ""@,
            ]
        }),
{
    let id = match exchange.get_str("internalId") {
        Some(t) => owned(t),
        None => decimal_string((index + 1) as u64),
    };
    let amount = match exchange.get_str("amount") {
        Some(t) => owned(t),
        None => owned("0"),
    };
    let path = concat3("exchanges.exchange[", decimal_string(index as u64).as_str(), "].meanAmount");
    let mut r: Vec<String> = Vec::new();
    r.push(decimal_string(row_id));
    r.push(owned(source_format));
    r.push(owned(""));
    r.push(owned("processes"));
    r.push(owned(process_id));
    r.push(owned(process_name));
    r.push(id);
    r.push(owned("exchanges.amount"));
    r.push(owned("amount"));
    r.push(amount.clone());
    r.push(owned("processes"));
    r.push(owned(process_id));
    r.push(owned(process_name));
    r.push(owned(target_file));
    r.push(owned("exchange"));
    r.push(path);
    r.push(owned("meanAmount"));
    r.push(amount);
    r.push(owned("formal"));
    r.push(owned("exchange"));
    r.push(owned(""));
    r.push(owned(""));
    r.push(owned("false"));
    r.push(owned(""));
    r
}

/// The text of a scalar value: a string, the text of a number, or
/// `true`/`false`.
pub open spec fn scalar_text(v: Option<JsonValue>) -> Option<Seq<char>> {
    match v {
        Some(JsonValue::String(t)) => Some(t@),
        Some(JsonValue::Number(t)) => Some(t@),
        Some(JsonValue::Bool(b)) => Some(if b { "true"@ } else { "false"@ }),
        _ => None,
    }
}

fn scalar_text_of(v: Option<&JsonValue>) -> (r: Option<String>)
    ensures
        r matches Some(t) ==> scalar_text(crate::json::deref_opt(v)) == Some(t@),
        r is None ==> scalar_text(crate::json::deref_opt(v)) is None,
{
    match v {
        Some(JsonValue::String(t)) => Some(t.clone()),
        Some(JsonValue::Number(t)) => Some(t.clone()),
        Some(JsonValue::Bool(b)) => Some(owned(if *b { "true" } else { "false" })),
        _ => None,
    }
}

/// The identifier an entity had in the source: its external id, else its own.
pub open spec fn source_id(e: CanonicalEntity) -> Seq<char> {
    match e.external_id {
        Some(x) => x@,
        None => e.internal_id@,
    }
}

/// The entity's name, or nothing.
pub open spec fn name_of(e: CanonicalEntity) -> Seq<char> {
    match e.name {
        Some(n) => n@,
        None => ""@,
    }
}

/// The file of the written dataset: `tidas/<type>/<id>.json`.
pub open spec fn target_file_of(e: CanonicalEntity) -> Seq<char> {
    "tidas/"@ + e.entity_type@ + "/"@ + e.internal_id@ + ".json"@
}

/// A mapping row of an entity without its row number: where a source field
/// went, its status, category, placeholder kind, trace marker and whether it
/// needs review.
pub open spec fn row_body(
    fmt: Seq<char>,
    e: CanonicalEntity,
    source_path: Seq<char>,
    source_value: Seq<char>,
    target_path: Seq<char>,
    target_field: Seq<char>,
    target_value: Seq<char>,
    status: Seq<char>,
    category: Seq<char>,
    placeholder: Seq<char>,
    trace: Seq<char>,
    review: Seq<char>,
) -> Seq<Seq<char>> {
    seq![
        fmt, ""@, e.entity_type@, source_id(e), name_of(e), ""@, source_path, source_path,
        source_value, e.entity_type@, e.internal_id@, name_of(e), target_file_of(e), "dataset"@,
        target_path, target_field, target_value, status, category, placeholder, trace, review,
        ""@,
    ]
}

/// The identifier row: formal where the source had an id, else generated and
/// to be reviewed.
pub open spec fn identifier_body(fmt: Seq<char>, e: CanonicalEntity) -> Seq<Seq<char>> {
    let status = if e.external_id is Some { "formal"@ } else { "generated"@ };
    let review = if e.external_id is Some { "false"@ } else { "true"@ };
    row_body(fmt, e, "@id"@, source_id(e), "common:UUID"@, "common:UUID"@, e.internal_id@, status,
        "identifier"@, ""@, ""@, review)
}

/// The row of a scalar source field, if the entity has it.
pub open spec fn field_rows(
    fmt: Seq<char>,
    e: CanonicalEntity,
    field: Seq<char>,
    path: Seq<char>,
    target: Seq<char>,
    category: Seq<char>,
) -> Seq<Seq<Seq<char>>> {
    match scalar_text(e.raw.member(field)) {
        Some(v) => seq![row_body(fmt, e, field, v, path, target, v, "formal"@, category, ""@, ""@, "false"@)],
        None => Seq::empty(),
    }
}

/// The classification trace row: the category path joined by `/`, else the
/// flow type; only where either is there.
pub open spec fn classification_rows(fmt: Seq<char>, e: CanonicalEntity) -> Seq<Seq<Seq<char>>> {
    if e.category_path@.len() > 0 || e.raw.member("flowType"@) is Some {
        let value = if e.category_path@.len() == 0 {
            match scalar_text(e.raw.member("flowType"@)) {
                Some(v) => v,
                None => ""@,
            }
        } else {
            join(e.category_path@.map_values(|c: String| c@), "/"@)
        };
        seq![row_body(fmt, e, "category_path"@, value,
            "dataSetInformation.classificationInformation.common:classification.common:other.tidasimport:sourceTrace"@,
            "tidasimport:sourceTrace"@, value, "trace_only"@, "classification"@, ""@,
            "TIDAS_IMPORT_TRACE_V1"@, "true"@)]
    } else {
        Seq::empty()
    }
}

/// The production volume placeholder row of a process.
pub open spec fn placeholder_rows(fmt: Seq<char>, e: CanonicalEntity) -> Seq<Seq<Seq<char>>> {
    if e.entity_type@ == "processes"@ {
        seq![row_body(fmt, e, ""@, ""@,
            "modellingAndValidation.dataSourcesTreatmentAndRepresentativeness.annualSupplyOrProductionVolume.#text"@,
            "#text"@, "0 kg/year; source production volume unavailable"@, "placeholder"@,
            "metadata"@, "SOURCE_PRODUCTION_VOLUME_UNAVAILABLE"@, ""@, "true"@)]
    } else {
        Seq::empty()
    }
}

/// The rows of an entity, before its exchanges, without row numbers.
pub open spec fn entity_row_bodies(fmt: Seq<char>, e: CanonicalEntity) -> Seq<Seq<Seq<char>>> {
    seq![identifier_body(fmt, e)]
        + field_rows(fmt, e, "CASNumber"@, "flowInformation.dataSetInformation.CASNumber"@, "CASNumber"@, "cas"@)
        + field_rows(fmt, e, "sumFormula"@, "flowInformation.dataSetInformation.sumFormula"@, "sumFormula"@, "chemical_identity"@)
        + field_rows(fmt, e, "location"@,
            "processInformation.geography.locationOfOperationSupplyOrProduction.@location"@,
            "@location"@, "geography"@)
        + field_rows(fmt, e, "referenceYear"@, "processInformation.time.common:referenceYear"@,
            "common:referenceYear"@, "time"@)
        + classification_rows(fmt, e)
        + placeholder_rows(fmt, e)
}

pub open spec fn string_views(v: Seq<String>) -> Seq<Seq<char>> {
    v.map_values(|f: String| f@)
}

#[allow(clippy::too_many_arguments)]
fn body_of(
    fmt: &str,
    e: &CanonicalEntity,
    target_file: &str,
    source_path: &str,
    source_value: &str,
    target_path: &str,
    target_field: &str,
    target_value: &str,
    status: &str,
    category: &str,
    placeholder: &str,
    trace: &str,
    review: &str,
) -> (r: Vec<String>)
    requires
        target_file@ == target_file_of(*e),
    ensures
        string_views(r@) == row_body(fmt@, *e, source_path@, source_value@, target_path@,
            target_field@, target_value@, status@, category@, placeholder@, trace@, review@),
{
    let sid = match &e.external_id {
        Some(x) => x.clone(),
        None => e.internal_id.clone(),
    };
    let name = match &e.name {
        Some(n) => n.clone(),
        None => owned(""),
    };
    let mut r: Vec<String> = Vec::new();
    r.push(owned(fmt));
    r.push(owned(""));
    r.push(e.entity_type.clone());
    r.push(sid);
    r.push(name.clone());
    r.push(owned(""));
    r.push(owned(source_path));
    r.push(owned(source_path));
    r.push(owned(source_value));
    r.push(e.entity_type.clone());
    r.push(e.internal_id.clone());
    r.push(name);
    r.push(owned(target_file));
    r.push(owned("dataset"));
    r.push(owned(target_path));
    r.push(owned(target_field));
    r.push(owned(target_value));
    r.push(owned(status));
    r.push(owned(category));
    r.push(owned(placeholder));
    r.push(owned(trace));
    r.push(owned(review));
    r.push(owned(""));
    assert(string_views(r@) =~= row_body(fmt@, *e, source_path@, source_value@, target_path@,
        target_field@, target_value@, status@, category@, placeholder@, trace@, review@));
    r
}

#[allow(clippy::too_many_arguments)]
fn push_field_row(
    out: &mut Vec<Vec<String>>,
    fmt: &str,
    e: &CanonicalEntity,
    target_file: &str,
    field: &str,
    path: &str,
    target: &str,
    category: &str,
)
    requires
        target_file@ == target_file_of(*e),
    ensures
        final(out)@.map_values(|row: Vec<String>| string_views(row@)) == old(out)@.map_values(
            |row: Vec<String>| string_views(row@),
        ) + field_rows(fmt@, *e, field@, path@, target@, category@),
{
    let ghost before = out@.map_values(|row: Vec<String>| string_views(row@));
    match scalar_text_of(e.raw.get(field)) {
        Some(v) => {
            let row = body_of(fmt, e, target_file, field, v.as_str(), path, target, v.as_str(),
                "formal", category, "", "", "false");
            out.push(row);
            assert(out@.map_values(|row: Vec<String>| string_views(row@)) =~= before + field_rows(
                fmt@, *e, field@, path@, target@, category@));
        },
        None => {
            assert(before + field_rows(fmt@, *e, field@, path@, target@, category@) =~= before);
        },
    }
}

/// The rows of an entity before its exchanges (see `entity_row_bodies`),
/// numbered on from `row_count`; `SizeOverflow` where a number would not fit
/// in 64 bits.
pub fn entity_rows(source_format: &str, entity: &CanonicalEntity, row_count: u64) -> (r: Result<
    Vec<Vec<String>>,
    MappingCsvError,
>)
    ensures
        ({
            let bodies = entity_row_bodies(source_format@, *entity);
            match r {
                Ok(rows) => row_count + bodies.len() <= u64::MAX && rows@.len() == bodies.len()
                    && forall|i: int|
                    0 <= i < rows@.len() ==> string_views(#[trigger] rows@[i]@) == seq![
                        decimal((row_count + i + 1) as nat),
                    ] + bodies[i],
                Err(e) => row_count + bodies.len() > u64::MAX && e is SizeOverflow,
            }
        }),
{
    let fmt = source_format;
    let e = entity;
    let target_file = concat(concat3("tidas/", e.entity_type.as_str(), "/").as_str(),
        concat(e.internal_id.as_str(), ".json").as_str());
    assert(target_file@ =~= target_file_of(*e));
    let (status, review) = if e.external_id.is_some() {
        ("formal", "false")
    } else {
        ("generated", "true")
    };
    let sid = match &e.external_id {
        Some(x) => x.clone(),
        None => e.internal_id.clone(),
    };
    let mut bodies: Vec<Vec<String>> = Vec::new();
    bodies.push(body_of(fmt, e, target_file.as_str(), "@id", sid.as_str(), "common:UUID",
        "common:UUID", e.internal_id.as_str(), status, "identifier", "", "", review));
    assert(bodies@.map_values(|row: Vec<String>| string_views(row@)) =~= seq![identifier_body(fmt@, *e)]);
    push_field_row(&mut bodies, fmt, e, target_file.as_str(), "CASNumber",
        "flowInformation.dataSetInformation.CASNumber", "CASNumber", "cas");
    push_field_row(&mut bodies, fmt, e, target_file.as_str(), "sumFormula",
        "flowInformation.dataSetInformation.sumFormula", "sumFormula", "chemical_identity");
    push_field_row(&mut bodies, fmt, e, target_file.as_str(), "location",
        "processInformation.geography.locationOfOperationSupplyOrProduction.@location",
        "@location", "geography");
    push_field_row(&mut bodies, fmt, e, target_file.as_str(), "referenceYear",
        "processInformation.time.common:referenceYear", "common:referenceYear", "time");
    let ghost fields = bodies@.map_values(|row: Vec<String>| string_views(row@));
    let has_flow_type = e.raw.get("flowType").is_some();
    if e.category_path.len() > 0 || has_flow_type {
        let value = if e.category_path.len() == 0 {
            match scalar_text_of(e.raw.get("flowType")) {
                Some(v) => v,
                None => owned(""),
            }
        } else {
            join_strings(&e.category_path, "/")
        };
        bodies.push(body_of(fmt, e, target_file.as_str(), "category_path", value.as_str(),
            "dataSetInformation.classificationInformation.common:classification.common:other.tidasimport:sourceTrace",
            "tidasimport:sourceTrace", value.as_str(), "trace_only", "classification", "",
            "TIDAS_IMPORT_TRACE_V1", "true"));
        assert(bodies@.map_values(|row: Vec<String>| string_views(row@)) =~= fields + classification_rows(fmt@, *e));
    } else {
        assert(fields + classification_rows(fmt@, *e) =~= fields);
    }
    let ghost classified = bodies@.map_values(|row: Vec<String>| string_views(row@));
    if str_eq(e.entity_type.as_str(), "processes") {
        bodies.push(body_of(fmt, e, target_file.as_str(), "", "",
            "modellingAndValidation.dataSourcesTreatmentAndRepresentativeness.annualSupplyOrProductionVolume.#text",
            "#text", "0 kg/year; source production volume unavailable", "placeholder", "metadata",
            "SOURCE_PRODUCTION_VOLUME_UNAVAILABLE", "", "true"));
        assert(bodies@.map_values(|row: Vec<String>| string_views(row@)) =~= classified + placeholder_rows(fmt@, *e));
    } else {
        assert(classified + placeholder_rows(fmt@, *e) =~= classified);
    }
    let ghost all = entity_row_bodies(fmt@, *e);
    assert(bodies@.map_values(|row: Vec<String>| string_views(row@)) =~= all);
    let n = bodies.len();
    if row_count > u64::MAX - n as u64 {
        return Err(MappingCsvError::SizeOverflow);
    }
    let mut rows: Vec<Vec<String>> = Vec::new();
    let mut i: usize = 0;
    while i < n
        invariant
            n == bodies@.len(),
            i <= n,
            row_count + n <= u64::MAX,
            all == bodies@.map_values(|row: Vec<String>| string_views(row@)),
            rows@.len() == i,
            forall|k: int|
                0 <= k < i ==> string_views(#[trigger] rows@[k]@) == seq![
                    decimal((row_count + k + 1) as nat),
                ] + all[k],
        decreases n - i,
    {
        let mut row: Vec<String> = Vec::new();
        row.push(decimal_string(row_count + i as u64 + 1));
        let mut j: usize = 0;
        let ghost body = bodies@[i as int]@;
        assert(all[i as int] == string_views(body));
        while j < bodies[i].len()
            invariant
                i < n,
                n == bodies@.len(),
                body == bodies@[i as int]@,
                j <= body.len(),
                string_views(row@) == seq![decimal((row_count + i + 1) as nat)] + string_views(
                    body.subrange(0, j as int),
                ),
            decreases body.len() - j,
        {
            let ghost prev = string_views(row@);
            row.push(bodies[i][j].clone());
            j = j + 1;
            assert(string_views(body.subrange(0, j as int)) =~= string_views(body.subrange(0, j - 1)).push(body[j - 1]@));
            assert(string_views(row@) =~= prev.push(body[j - 1]@));
        }
        assert(body.subrange(0, body.len() as int) =~= body);
        rows.push(row);
        i = i + 1;
    }
    Ok(rows)
}

} // verus!
