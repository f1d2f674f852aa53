//! Identities and fixed values that the TIDAS package writers give to the
//! contact and sources every imported dataset refers to.
use vstd::prelude::*;
use vstd::string::StringSliceAdditionalSpecFns;

use crate::json::{
    JsonData, JsonValue, data, data_items, data_members, lemma_data_items, lemma_data_members,
    lemma_data_members_push, push_member,
};
use crate::model::CanonicalEntity;
use crate::text::{concat, concat3, contains, owned, str_contains, str_eq};

verus! {

pub const DEFAULT_VERSION: &'static str = "00.00.001";

pub const PLACEHOLDER_TIMESTAMP: &'static str = "1900-01-01T00:00:00Z";

pub const CONTACT_NAME: &'static str = "TianGong LCA import tooling";

pub const FORMAT_SOURCE_NAME: &'static str = "ILCD format";

pub const COMPLIANCE_SOURCE_NAME: &'static str = "External LCA source compliance context";

/// The text of the name-based (version 5, SHA-1) UUID of `name` in the URL
/// namespace.
pub uninterp spec fn uuid_v5_url(name: Seq<u8>) -> Seq<char>;

pub open spec fn is_lower_hex(c: char) -> bool {
    ('0' <= c && c <= '9') || ('a' <= c && c <= 'f')
}

/// The hyphenated lower-case form of a UUID: 8-4-4-4-12 hexadecimal digits.
pub open spec fn hyphenated_uuid(s: Seq<char>) -> bool {
    &&& s.len() == 36
    &&& forall|i: int|
        0 <= i < 36 ==> if i == 8 || i == 13 || i == 18 || i == 23 {
            #[trigger] s[i] == '-'
        } else {
            is_lower_hex(s[i])
        }
}

/// `uuid::Uuid::new_v5` in `Uuid::NAMESPACE_URL`, rendered by `to_string`: a
/// function of the name bytes alone, written hyphenated in lower case with the
/// version digit `5`.
#[verifier::external_body]
fn uuid_v5_url_text(name: &[u8]) -> (r: String)
    ensures
        r@ == uuid_v5_url(name@),
        hyphenated_uuid(r@),
        r@[14] == '5',
{
    uuid::Uuid::new_v5(&uuid::Uuid::NAMESPACE_URL, name).to_string()
}

/// The stable identity derived from a seed text.
pub fn stable_id(seed: &str) -> (r: String)
    ensures
        r@ == uuid_v5_url(seed.spec_bytes()),
        hyphenated_uuid(r@),
{
    uuid_v5_url_text(seed.as_bytes())
}

/// The identity of the contact that owns imported datasets.
pub fn contact_id() -> (r: String)
    ensures
        r@ == uuid_v5_url("tidas-tools/import/contact".spec_bytes()),
        hyphenated_uuid(r@),
{
    stable_id("tidas-tools/import/contact")
}

/// The identity of the source that describes the ILCD format.
pub fn format_source_id() -> (r: String)
    ensures
        r@ == uuid_v5_url("tidas-tools/import/ilcd-format".spec_bytes()),
        hyphenated_uuid(r@),
{
    stable_id("tidas-tools/import/ilcd-format")
}

/// The identity of the source that stands for undefined compliance.
pub fn compliance_source_id() -> (r: String)
    ensures
        r@ == uuid_v5_url("tidas-tools/import/not-defined-compliance".spec_bytes()),
        hyphenated_uuid(r@),
{
    stable_id("tidas-tools/import/not-defined-compliance")
}

/// What writing a TIDAS package produced.
#[derive(Debug)]
pub struct PackageWriteReportV1 {
    pub schema_version: String,
    pub output_format: String,
    pub object_counts: std::collections::BTreeMap<String, u64>,
    pub output_bytes: u64,
    pub output_tree_sha256: String,
    pub asset_fingerprint: String,
    pub peak_accounted_memory_bytes: u64,
}

/// Why a process dataset could not be written.
#[derive(Debug)]
pub enum ProcessWriteError {
    /// The exchange with this id names no flow.
    MissingFlowReference(String),
    AdministrativeShape,
}

// ---------------------------------------------------------------------------
// Shared parts of the written datasets (JSON objects list their members in key
// order, as the written documents do)
// ---------------------------------------------------------------------------

/// A string value.
pub fn text_value(s: &str) -> (r: JsonValue)
    ensures
        data(r) == JsonData::Text(s@),
{
    JsonValue::String(owned(s))
}

/// An English text.
pub open spec fn localized_json(text: Seq<char>) -> JsonData {
    JsonData::Object(seq![("#text"@, JsonData::Text(text)), ("@xml:lang"@, JsonData::Text("en"@))])
}

/// An English text: `{"#text": text, "@xml:lang": "en"}`.
pub fn localized(text: &str) -> (r: JsonValue)
    ensures
        data(r) == localized_json(text@),
{
    let mut m: Vec<(String, JsonValue)> = Vec::new();
    m.push((owned("#text"), text_value(text)));
    m.push((owned("@xml:lang"), text_value("en")));
    proof {
        lemma_data_members(m@);
        assert(data_members(m@) =~= localized_json(text@)->Object_0);
    }
    JsonValue::Object(m)
}

/// A reference to a dataset of a category, in its default version.
pub open spec fn dataset_ref_json(ref_type: Seq<char>, id: Seq<char>, description: Seq<char>, category: Seq<char>) -> JsonData {
    JsonData::Object(
        seq![
            ("@refObjectId"@, JsonData::Text(id)),
            ("@type"@, JsonData::Text(ref_type)),
            ("@uri"@, JsonData::Text("../"@ + category + "/"@ + id + ".json"@)),
            ("@version"@, JsonData::Text(DEFAULT_VERSION@)),
            ("common:shortDescription"@, localized_json(description)),
        ],
    )
}

/// A reference to a dataset (see `dataset_ref_json`).
pub fn dataset_ref(ref_type: &str, id: &str, description: &str, category: &str) -> (r: JsonValue)
    ensures
        data(r) == dataset_ref_json(ref_type@, id@, description@, category@),
{
    let uri = concat(concat3("../", category, "/").as_str(), concat(id, ".json").as_str());
    assert(uri@ =~= "../"@ + category@ + "/"@ + id@ + ".json"@);
    let mut m: Vec<(String, JsonValue)> = Vec::new();
    m.push((owned("@refObjectId"), text_value(id)));
    m.push((owned("@type"), text_value(ref_type)));
    m.push((owned("@uri"), JsonValue::String(uri)));
    m.push((owned("@version"), text_value(DEFAULT_VERSION)));
    m.push((owned("common:shortDescription"), localized(description)));
    proof {
        lemma_data_members(m@);
        assert(data_members(m@) =~= dataset_ref_json(ref_type@, id@, description@, category@)->Object_0);
    }
    JsonValue::Object(m)
}

/// The compliance declarations: the undefined compliance system, and for a
/// process every compliance aspect not defined.
pub open spec fn compliance_json(process: bool) -> JsonData {
    let system = dataset_ref_json("source data set"@, uuid_v5_url("tidas-tools/import/not-defined-compliance".spec_bytes()),
        COMPLIANCE_SOURCE_NAME@, "sources"@);
    let nd = JsonData::Text("Not defined"@);
    JsonData::Object(seq![("compliance"@, JsonData::Object(if process {
        seq![
            ("common:approvalOfOverallCompliance"@, nd),
            ("common:documentationCompliance"@, nd),
            ("common:methodologicalCompliance"@, nd),
            ("common:nomenclatureCompliance"@, nd),
            ("common:qualityCompliance"@, nd),
            ("common:referenceToComplianceSystem"@, system),
            ("common:reviewCompliance"@, nd),
        ]
    } else {
        seq![("common:approvalOfOverallCompliance"@, nd), ("common:referenceToComplianceSystem"@, system)]
    }))])
}

/// The compliance declarations (see `compliance_json`).
pub fn compliance_declarations(process: bool) -> (r: JsonValue)
    ensures
        data(r) == compliance_json(process),
{
    let system = dataset_ref("source data set", compliance_source_id().as_str(), COMPLIANCE_SOURCE_NAME, "sources");
    let mut m: Vec<(String, JsonValue)> = Vec::new();
    m.push((owned("common:approvalOfOverallCompliance"), text_value("Not defined")));
    if process {
        m.push((owned("common:documentationCompliance"), text_value("Not defined")));
        m.push((owned("common:methodologicalCompliance"), text_value("Not defined")));
        m.push((owned("common:nomenclatureCompliance"), text_value("Not defined")));
        m.push((owned("common:qualityCompliance"), text_value("Not defined")));
        m.push((owned("common:referenceToComplianceSystem"), system));
        m.push((owned("common:reviewCompliance"), text_value("Not defined")));
    } else {
        m.push((owned("common:referenceToComplianceSystem"), system));
    }
    let mut top: Vec<(String, JsonValue)> = Vec::new();
    proof {
        lemma_data_members(m@);
        assert(data_members(m@) =~= compliance_json(process)->Object_0[0].1->Object_0);
    }
    top.push((owned("compliance"), JsonValue::Object(m)));
    proof {
        lemma_data_members(top@);
        assert(data_members(top@) =~= compliance_json(process)->Object_0);
    }
    JsonValue::Object(top)
}

/// The dataset page of a category on the publication site.
pub open spec fn detail_page(category: Seq<char>) -> Seq<char> {
    if category == "unitgroups"@ {
        "unitgroups"@
    } else if category == "flowproperties"@ {
        "flowproperty"@
    } else if category == "flows"@ {
        "productFlow"@
    } else if category == "processes"@ {
        "process"@
    } else if category == "lifecyclemodels"@ {
        "lifecyclemodel"@
    } else if category == "contacts"@ {
        "contact"@
    } else {
        "source"@
    }
}

/// The permanent URI of a dataset.
pub open spec fn permanent_uri(category: Seq<char>, id: Seq<char>) -> Seq<char> {
    if category == "unitgroups"@ {
        "https://lcdn.tiangong.earth/unitgroups/"@ + id + "?version="@ + DEFAULT_VERSION@
    } else {
        "https://lcdn.tiangong.earth/datasetdetail/"@ + detail_page(category) + ".xhtml?uuid="@ + id
            + "&version="@ + DEFAULT_VERSION@
    }
}

/// The reference to the contact that owns imported datasets.
pub open spec fn owner_json() -> JsonData {
    dataset_ref_json("contact data set"@, uuid_v5_url("tidas-tools/import/contact".spec_bytes()), CONTACT_NAME@, "contacts"@)
}

/// Data entry and publication of an imported dataset; a process also names
/// who entered it, its copyright and its license.
pub open spec fn administrative_json(category: Seq<char>, id: Seq<char>, process: bool) -> JsonData {
    let format = dataset_ref_json("source data set"@, uuid_v5_url("tidas-tools/import/ilcd-format".spec_bytes()),
        FORMAT_SOURCE_NAME@, "sources"@);
    let stamp = JsonData::Text(PLACEHOLDER_TIMESTAMP@);
    let entry = if process {
        seq![
            ("common:referenceToDataSetFormat"@, format),
            ("common:referenceToPersonOrEntityEnteringTheData"@, owner_json()),
            ("common:timeStamp"@, stamp),
        ]
    } else {
        seq![("common:referenceToDataSetFormat"@, format), ("common:timeStamp"@, stamp)]
    };
    let version = JsonData::Text(DEFAULT_VERSION@);
    let uri = JsonData::Text(permanent_uri(category, id));
    let publication = if process {
        seq![
            ("common:copyright"@, JsonData::Text("false"@)),
            ("common:dataSetVersion"@, version),
            ("common:licenseType"@, JsonData::Text("Free of charge for all users and uses"@)),
            ("common:permanentDataSetURI"@, uri),
            ("common:referenceToOwnershipOfDataSet"@, owner_json()),
        ]
    } else {
        seq![
            ("common:dataSetVersion"@, version),
            ("common:permanentDataSetURI"@, uri),
            ("common:referenceToOwnershipOfDataSet"@, owner_json()),
        ]
    };
    JsonData::Object(seq![
        ("dataEntryBy"@, JsonData::Object(entry)),
        ("publicationAndOwnership"@, JsonData::Object(publication)),
    ])
}

fn page_of(category: &str) -> (r: &'static str)
    ensures
        r@ == detail_page(category@),
{
    if str_eq(category, "unitgroups") {
        "unitgroups"
    } else if str_eq(category, "flowproperties") {
        "flowproperty"
    } else if str_eq(category, "flows") {
        "productFlow"
    } else if str_eq(category, "processes") {
        "process"
    } else if str_eq(category, "lifecyclemodels") {
        "lifecyclemodel"
    } else if str_eq(category, "contacts") {
        "contact"
    } else {
        "source"
    }
}

/// Data entry and publication (see `administrative_json`).
pub fn administrative(category: &str, id: &str, process: bool) -> (r: JsonValue)
    ensures
        data(r) == administrative_json(category@, id@, process),
{
    let uri = if str_eq(category, "unitgroups") {
        concat(concat3("https://lcdn.tiangong.earth/unitgroups/", id, "?version=").as_str(), DEFAULT_VERSION)
    } else {
        let head = concat3("https://lcdn.tiangong.earth/datasetdetail/", page_of(category), ".xhtml?uuid=");
        concat(concat3(head.as_str(), id, "&version=").as_str(), DEFAULT_VERSION)
    };
    assert(uri@ =~= permanent_uri(category@, id@));
    let mut entry: Vec<(String, JsonValue)> = Vec::new();
    entry.push((owned("common:referenceToDataSetFormat"), dataset_ref("source data set",
        format_source_id().as_str(), FORMAT_SOURCE_NAME, "sources")));
    if process {
        entry.push((owned("common:referenceToPersonOrEntityEnteringTheData"), dataset_ref("contact data set",
            contact_id().as_str(), CONTACT_NAME, "contacts")));
    }
    entry.push((owned("common:timeStamp"), text_value(PLACEHOLDER_TIMESTAMP)));
    let mut publication: Vec<(String, JsonValue)> = Vec::new();
    if process {
        publication.push((owned("common:copyright"), text_value("false")));
    }
    publication.push((owned("common:dataSetVersion"), text_value(DEFAULT_VERSION)));
    if process {
        publication.push((owned("common:licenseType"), text_value("Free of charge for all users and uses")));
    }
    publication.push((owned("common:permanentDataSetURI"), JsonValue::String(uri)));
    publication.push((owned("common:referenceToOwnershipOfDataSet"), dataset_ref("contact data set",
        contact_id().as_str(), CONTACT_NAME, "contacts")));
    let ghost want = administrative_json(category@, id@, process);
    proof {
        lemma_data_members(entry@);
        lemma_data_members(publication@);
        assert(data_members(entry@) =~= want->Object_0[0].1->Object_0);
        assert(data_members(publication@) =~= want->Object_0[1].1->Object_0);
    }
    let mut top: Vec<(String, JsonValue)> = Vec::new();
    top.push((owned("dataEntryBy"), JsonValue::Object(entry)));
    top.push((owned("publicationAndOwnership"), JsonValue::Object(publication)));
    proof {
        lemma_data_members(top@);
        assert(data_members(top@) =~= want->Object_0);
    }
    JsonValue::Object(top)
}

/// The name of a dataset: its base name, a generic route and its location.
pub open spec fn name_parts_json(name: Seq<char>, location: Seq<char>) -> JsonData {
    JsonData::Object(seq![
        ("baseName"@, localized_json(name)),
        ("mixAndLocationTypes"@, localized_json(location)),
        ("treatmentStandardsRoutes"@, localized_json("source-described route"@)),
    ])
}

/// The name of a dataset (see `name_parts_json`).
pub fn name_parts(name: &str, location: &str) -> (r: JsonValue)
    ensures
        data(r) == name_parts_json(name@, location@),
{
    let mut m: Vec<(String, JsonValue)> = Vec::new();
    m.push((owned("baseName"), localized(name)));
    m.push((owned("mixAndLocationTypes"), localized(location)));
    m.push((owned("treatmentStandardsRoutes"), localized("source-described route")));
    proof {
        lemma_data_members(m@);
        assert(data_members(m@) =~= name_parts_json(name@, location@)->Object_0);
    }
    JsonValue::Object(m)
}

/// The import trace that carries source facts beside a written dataset.
pub open spec fn import_trace_json(payload: JsonData) -> JsonData {
    JsonData::Object(seq![
        ("@xmlns:tidasimport"@, JsonData::Text("https://tiangong.earth/tidas/import-trace/1.0"@)),
        ("tidasimport:sourceTrace"@, JsonData::Object(seq![
            ("@marker"@, JsonData::Text("TIDAS_IMPORT_TRACE_V1"@)),
            ("payload"@, payload),
        ])),
    ])
}

/// The import trace of a payload (see `import_trace_json`).
pub fn import_trace(payload: &JsonValue) -> (r: JsonValue)
    ensures
        data(r) == import_trace_json(data(*payload)),
{
    let mut inner: Vec<(String, JsonValue)> = Vec::new();
    inner.push((owned("@marker"), text_value("TIDAS_IMPORT_TRACE_V1")));
    inner.push((owned("payload"), payload.duplicate()));
    let ghost want = import_trace_json(data(*payload));
    proof {
        lemma_data_members(inner@);
        assert(data_members(inner@) =~= want->Object_0[1].1->Object_0);
    }
    let mut m: Vec<(String, JsonValue)> = Vec::new();
    m.push((owned("@xmlns:tidasimport"), text_value("https://tiangong.earth/tidas/import-trace/1.0")));
    m.push((owned("tidasimport:sourceTrace"), JsonValue::Object(inner)));
    proof {
        lemma_data_members(m@);
        assert(data_members(m@) =~= want->Object_0);
    }
    JsonValue::Object(m)
}

// ---------------------------------------------------------------------------
// Exchange metadata
// ---------------------------------------------------------------------------

/// The exchange fields that a written exchange keeps as metadata, in key order.
pub open spec fn metadata_fields() -> Seq<Seq<char>> {
    seq![
        "activityLinkId"@,
        "amountFormula"@,
        "amountNormalization"@,
        "dqEntry"@,
        "flowPropertyName"@,
        "flowPropertyRefId"@,
        "isAvoidedProduct"@,
        "isQuantitativeReference"@,
        "location"@,
        "productionVolumeAmount"@,
        "providerName"@,
        "providerRefId"@,
        "sourceAmount"@,
        "sourceClassification"@,
        "sourceExchangeId"@,
        "sourceExchangeNumber"@,
        "sourceFlowPropertyName"@,
        "sourceFlowPropertyRefId"@,
        "sourceIdentifiers"@,
        "sourceLocation"@,
        "sourceUnitId"@,
        "sourceUnitName"@,
        "unitId"@,
        "unitName"@
    ]
}

/// The members of the metadata: each listed field the exchange has, in the
/// order of the list (key order).
pub open spec fn metadata_members(x: Map<Seq<char>, JsonValue>, fields: Seq<Seq<char>>) -> Seq<(Seq<char>, JsonData)>
    decreases fields.len(),
{
    if fields.len() == 0 {
        Seq::empty()
    } else {
        let rest = metadata_members(x, fields.drop_last());
        if x.dom().contains(fields.last()) {
            rest.push((fields.last(), data(x[fields.last()])))
        } else {
            rest
        }
    }
}

/// The import trace of an exchange: its source trace (null where it has none)
/// and its metadata.
pub open spec fn exchange_metadata_json(x: Map<Seq<char>, JsonValue>) -> JsonData {
    import_trace_json(
        JsonData::Object(
            seq![
                ("exchangeMetadata"@, JsonData::Object(metadata_members(x, metadata_fields()))),
                ("sourceTrace"@, if x.dom().contains("sourceTrace"@) {
                    data(x["sourceTrace"@])
                } else {
                    JsonData::Null
                }),
            ],
        ),
    )
}

fn metadata_field_list() -> (r: Vec<&'static str>)
    ensures
        r@.len() == metadata_fields().len(),
        forall|m: int| 0 <= m < r@.len() ==> #[trigger] r@[m]@ == metadata_fields()[m],
{
    let mut r: Vec<&'static str> = Vec::new();
    r.push("activityLinkId");
    r.push("amountFormula");
    r.push("amountNormalization");
    r.push("dqEntry");
    r.push("flowPropertyName");
    r.push("flowPropertyRefId");
    r.push("isAvoidedProduct");
    r.push("isQuantitativeReference");
    r.push("location");
    r.push("productionVolumeAmount");
    r.push("providerName");
    r.push("providerRefId");
    r.push("sourceAmount");
    r.push("sourceClassification");
    r.push("sourceExchangeId");
    r.push("sourceExchangeNumber");
    r.push("sourceFlowPropertyName");
    r.push("sourceFlowPropertyRefId");
    r.push("sourceIdentifiers");
    r.push("sourceLocation");
    r.push("sourceUnitId");
    r.push("sourceUnitName");
    r.push("unitId");
    r.push("unitName");
    r
}


/// The import trace that a written exchange carries (see `exchange_metadata_json`).
pub fn exchange_metadata(exchange: &crate::table::TextMap<JsonValue>) -> (r: JsonValue)
    ensures
        data(r) == exchange_metadata_json(exchange.view()),
{
    let ghost x = exchange.view();
    let fields = metadata_field_list();
    let ghost fs = metadata_fields();
    let mut members: Vec<(String, JsonValue)> = Vec::new();
    let mut i: usize = 0;
    assert(fs.subrange(0, 0) =~= Seq::<Seq<char>>::empty());
    while i < fields.len()
        invariant
            i <= fields@.len(),
            fields@.len() == fs.len(),
            fs == metadata_fields(),
            x == exchange.view(),
            forall|m: int| 0 <= m < fields@.len() ==> #[trigger] fields@[m]@ == fs[m],
            data_members(members@) == metadata_members(x, fs.subrange(0, i as int)),
        decreases fields@.len() - i,
    {
        let ghost sub = fs.subrange(0, i + 1);
        assert(sub.drop_last() =~= fs.subrange(0, i as int));
        assert(sub.last() == fs[i as int]);
        assert(fields@[i as int]@ == fs[i as int]);
        match exchange.get(fields[i]) {
            Some(v) => {
                let e = (owned(fields[i]), v.duplicate());
                proof {
                    lemma_data_members_push(members@, e);
                }
                members.push(e);
            },
            None => {},
        }
        i = i + 1;
    }
    assert(fs.subrange(0, fs.len() as int) =~= fs);
    let trace = match exchange.get("sourceTrace") {
        Some(t) => t.duplicate(),
        None => JsonValue::Null,
    };
    let mut outer: Vec<(String, JsonValue)> = Vec::new();
    outer.push((owned("exchangeMetadata"), JsonValue::Object(members)));
    outer.push((owned("sourceTrace"), trace));
    let payload = JsonValue::Object(outer);
    proof {
        lemma_data_members(outer@);
        let want = seq![
            ("exchangeMetadata"@, JsonData::Object(metadata_members(x, metadata_fields()))),
            ("sourceTrace"@, if x.dom().contains("sourceTrace"@) {
                data(x["sourceTrace"@])
            } else {
                JsonData::Null
            }),
        ];
        assert(data_members(outer@) =~= want);
    }
    import_trace(&payload)
}

// ---------------------------------------------------------------------------
// The contact and the sources every import refers to
// ---------------------------------------------------------------------------

/// The namespace and schema attributes of an ILCD dataset of a kind
/// (`Contact`, `Source`, ...).
pub open spec fn header_members(kind: Seq<char>) -> Seq<(Seq<char>, JsonData)> {
    seq![
        ("@version"@, JsonData::Text("1.1"@)),
        ("@xmlns"@, JsonData::Text("http://lca.jrc.it/ILCD/"@ + kind)),
        ("@xmlns:common"@, JsonData::Text("http://lca.jrc.it/ILCD/Common"@)),
        ("@xmlns:xsi"@, JsonData::Text("http://www.w3.org/2001/XMLSchema-instance"@)),
        ("@xsi:schemaLocation"@, JsonData::Text(
            "http://lca.jrc.it/ILCD/"@ + kind + " ../../schemas/ILCD_"@ + kind + "DataSet.xsd"@,
        )),
    ]
}

/// A top-level classification of a dataset.
pub open spec fn class_json(class_id: Seq<char>, text: Seq<char>) -> JsonData {
    JsonData::Object(seq![("common:classification"@, JsonData::Object(seq![("common:class"@, JsonData::Object(seq![
        ("#text"@, JsonData::Text(text)),
        ("@classId"@, JsonData::Text(class_id)),
        ("@level"@, JsonData::Text("0"@)),
    ]))]))])
}

/// The contact dataset of the import tooling.
pub open spec fn contact_json(id: Seq<char>) -> JsonData {
    JsonData::Object(seq![("contactDataSet"@, JsonData::Object(header_members("Contact"@) + seq![
        ("administrativeInformation"@, administrative_json("contacts"@, id, false)),
        ("contactInformation"@, JsonData::Object(seq![("dataSetInformation"@, JsonData::Object(seq![
            ("classificationInformation"@, class_json("5"@, "Other"@)),
            ("common:UUID"@, JsonData::Text(id)),
            ("common:name"@, localized_json(CONTACT_NAME@)),
            ("common:shortName"@, localized_json(CONTACT_NAME@)),
        ]))])),
    ]))])
}

/// A source dataset of the import tooling.
pub open spec fn source_json(id: Seq<char>, name: Seq<char>, class_id: Seq<char>, class_name: Seq<char>) -> JsonData {
    JsonData::Object(seq![("sourceDataSet"@, JsonData::Object(header_members("Source"@) + seq![
        ("administrativeInformation"@, administrative_json("sources"@, id, false)),
        ("sourceInformation"@, JsonData::Object(seq![("dataSetInformation"@, JsonData::Object(seq![
            ("classificationInformation"@, class_json(class_id, class_name)),
            ("common:UUID"@, JsonData::Text(id)),
            ("common:shortName"@, localized_json(name)),
        ]))])),
    ]))])
}

pub(crate) fn header(kind: &str) -> (r: Vec<(String, JsonValue)>)
    ensures
        data_members(r@) == header_members(kind@),
{
    let mut m: Vec<(String, JsonValue)> = Vec::new();
    m.push((owned("@version"), text_value("1.1")));
    m.push((owned("@xmlns"), JsonValue::String(concat("http://lca.jrc.it/ILCD/", kind))));
    m.push((owned("@xmlns:common"), text_value("http://lca.jrc.it/ILCD/Common")));
    m.push((owned("@xmlns:xsi"), text_value("http://www.w3.org/2001/XMLSchema-instance")));
    let head = concat3("http://lca.jrc.it/ILCD/", kind, " ../../schemas/ILCD_");
    m.push((owned("@xsi:schemaLocation"), JsonValue::String(concat3(head.as_str(), kind, "DataSet.xsd"))));
    proof {
        lemma_data_members(m@);
        assert(data_members(m@) =~= header_members(kind@));
    }
    m
}

fn classification(class_id: &str, text: &str) -> (r: JsonValue)
    ensures
        data(r) == class_json(class_id@, text@),
{
    let mut c: Vec<(String, JsonValue)> = Vec::new();
    c.push((owned("#text"), text_value(text)));
    c.push((owned("@classId"), text_value(class_id)));
    c.push((owned("@level"), text_value("0")));
    let mut inner: Vec<(String, JsonValue)> = Vec::new();
    let mut outer: Vec<(String, JsonValue)> = Vec::new();
    let ghost want = class_json(class_id@, text@);
    proof {
        lemma_data_members(c@);
        assert(data_members(c@) =~= want->Object_0[0].1->Object_0[0].1->Object_0);
    }
    inner.push((owned("common:class"), JsonValue::Object(c)));
    proof {
        lemma_data_members(inner@);
        assert(data_members(inner@) =~= want->Object_0[0].1->Object_0);
    }
    outer.push((owned("common:classification"), JsonValue::Object(inner)));
    proof {
        lemma_data_members(outer@);
        assert(data_members(outer@) =~= want->Object_0);
    }
    JsonValue::Object(outer)
}

pub(crate) fn wrap(key: &str, members: Vec<(String, JsonValue)>) -> (r: JsonValue)
    ensures
        data(r) == JsonData::Object(seq![(key@, JsonData::Object(data_members(members@)))]),
{
    let mut m: Vec<(String, JsonValue)> = Vec::new();
    m.push((owned(key), JsonValue::Object(members)));
    proof {
        lemma_data_members(m@);
        assert(data_members(m@) =~= seq![(key@, JsonData::Object(data_members(members@)))]);
    }
    JsonValue::Object(m)
}

/// The contact dataset of the import tooling, with its id (see `contact_json`).
pub fn contact() -> (r: (String, JsonValue))
    ensures
        r.0@ == uuid_v5_url("tidas-tools/import/contact".spec_bytes()),
        data(r.1) == contact_json(r.0@),
{
    let id = contact_id();
    let mut info: Vec<(String, JsonValue)> = Vec::new();
    info.push((owned("classificationInformation"), classification("5", "Other")));
    info.push((owned("common:UUID"), JsonValue::String(id.clone())));
    info.push((owned("common:name"), localized(CONTACT_NAME)));
    info.push((owned("common:shortName"), localized(CONTACT_NAME)));
    let ghost want = contact_json(id@);
    proof {
        lemma_data_members(info@);
        assert(data_members(info@) =~= want->Object_0[0].1->Object_0[6].1->Object_0[0].1->Object_0);
    }
    let information = wrap("dataSetInformation", info);
    let mut m = header("Contact");
    let ghost h = m@;
    m.push((owned("administrativeInformation"), administrative("contacts", id.as_str(), false)));
    m.push((owned("contactInformation"), information));
    proof {
        lemma_data_members(m@);
        lemma_data_members(h);
        assert(data_members(m@) =~= want->Object_0[0].1->Object_0);
    }
    (id, wrap("contactDataSet", m))
}

/// A source dataset of the import tooling (see `source_json`).
fn source(id: String, name: &str, class_id: &str, class_name: &str) -> (r: (String, JsonValue))
    ensures
        r.0 == id,
        data(r.1) == source_json(id@, name@, class_id@, class_name@),
{
    let mut info: Vec<(String, JsonValue)> = Vec::new();
    info.push((owned("classificationInformation"), classification(class_id, class_name)));
    info.push((owned("common:UUID"), JsonValue::String(id.clone())));
    info.push((owned("common:shortName"), localized(name)));
    let ghost want = source_json(id@, name@, class_id@, class_name@);
    proof {
        lemma_data_members(info@);
        assert(data_members(info@) =~= want->Object_0[0].1->Object_0[6].1->Object_0[0].1->Object_0);
    }
    let information = wrap("dataSetInformation", info);
    let mut m = header("Source");
    let ghost h = m@;
    m.push((owned("administrativeInformation"), administrative("sources", id.as_str(), false)));
    m.push((owned("sourceInformation"), information));
    proof {
        lemma_data_members(m@);
        lemma_data_members(h);
        assert(data_members(m@) =~= want->Object_0[0].1->Object_0);
    }
    (id, wrap("sourceDataSet", m))
}

/// The two source datasets of the import tooling: the ILCD format (class 1,
/// data set formats) and the undefined compliance system (class 3,
/// compliance systems).
pub fn sources() -> (r: [(String, JsonValue); 2])
    ensures
        r[0].0@ == uuid_v5_url("tidas-tools/import/ilcd-format".spec_bytes()),
        data(r[0].1) == source_json(r[0].0@, FORMAT_SOURCE_NAME@, "1"@, "Data set formats"@),
        r[1].0@ == uuid_v5_url("tidas-tools/import/not-defined-compliance".spec_bytes()),
        data(r[1].1) == source_json(r[1].0@, COMPLIANCE_SOURCE_NAME@, "3"@, "Compliance systems"@),
{
    [
        source(format_source_id(), FORMAT_SOURCE_NAME, "1", "Data set formats"),
        source(compliance_source_id(), COMPLIANCE_SOURCE_NAME, "3", "Compliance systems"),
    ]
}

// ---------------------------------------------------------------------------
// Written contacts and sources of imported entities
// ---------------------------------------------------------------------------

/// A member, where there is a value for it.
pub open spec fn optional_member(key: Seq<char>, v: Option<JsonData>) -> Seq<(Seq<char>, JsonData)> {
    match v {
        Some(d) => seq![(key, d)],
        None => Seq::empty(),
    }
}

pub open spec fn opt_data(v: Option<JsonValue>) -> Option<JsonData> {
    match v {
        Some(x) => Some(data(x)),
        None => None,
    }
}

pub open spec fn opt_text_json(t: Option<Seq<char>>) -> Option<JsonData> {
    match t {
        Some(s) => Some(JsonData::Text(s)),
        None => None,
    }
}

pub open spec fn opt_localized_json(t: Option<Seq<char>>) -> Option<JsonData> {
    match t {
        Some(s) => Some(localized_json(s)),
        None => None,
    }
}

/// The import trace of an entity's `sourceTrace`, where it has one.
pub open spec fn trace_of(raw: JsonValue) -> Option<JsonData> {
    match raw.member("sourceTrace"@) {
        Some(t) => Some(import_trace_json(data(t))),
        None => None,
    }
}

/// The name of an entity, or a fallback.
pub open spec fn name_or(e: CanonicalEntity, fallback: Seq<char>) -> Seq<char> {
    match e.name {
        Some(n) => n@,
        None => fallback,
    }
}

/// The dataset information of a written contact, members in key order: the
/// website, the classification (class 5, other), the id, the name, the import
/// trace, the short name, the address, the description, the e-mail address and
/// the telephone number, each where the entity has it.
pub open spec fn contact_information(e: CanonicalEntity) -> Seq<(Seq<char>, JsonData)> {
    let raw = e.raw;
    let name = name_or(e, "Imported contact"@);
    optional_member("WWWAddress"@, opt_text_json(raw.member_text("website"@)))
        + seq![("classificationInformation"@, class_json("5"@, "Other"@))]
        + seq![("common:UUID"@, JsonData::Text(e.internal_id@))]
        + seq![("common:name"@, localized_json(name))]
        + optional_member("common:other"@, trace_of(raw))
        + seq![("common:shortName"@, localized_json(name))]
        + optional_member("contactAddress"@, opt_localized_json(raw.member_text("address"@)))
        + optional_member("contactDescriptionOrComment"@, opt_localized_json(raw.member_text("description"@)))
        + optional_member("email"@, opt_text_json(raw.member_text("email"@)))
        + optional_member("telephone"@, opt_text_json(raw.member_text("telephone"@)))
}

/// The contact dataset written for an imported contact, around its
/// administrative block.
pub open spec fn canonical_contact_json(e: CanonicalEntity, administrative: JsonData) -> JsonData {
    JsonData::Object(seq![("contactDataSet"@, JsonData::Object(header_members("Contact"@) + seq![
        ("administrativeInformation"@, administrative),
        ("contactInformation"@, JsonData::Object(seq![("dataSetInformation"@, JsonData::Object(contact_information(e)))])),
    ]))])
}

/// The description of a written source: the entity's description, then the
/// source URL after a space.
pub open spec fn source_description(raw: JsonValue) -> Seq<char> {
    let d = match raw.member_text("description"@) {
        Some(d) => d,
        None => Seq::empty(),
    };
    match raw.member_text("url"@) {
        Some(u) => (if d.len() == 0 {
            d
        } else {
            d + " "@
        }) + "External source URL: "@ + u,
        None => d,
    }
}

/// A digital file URI: as given where it has a scheme, else a `file:` URI.
pub open spec fn digital_file_uri(uri: Seq<char>) -> Seq<char> {
    if contains(uri, ":"@) {
        uri
    } else {
        "file:"@ + uri
    }
}

pub open spec fn file_reference(uri: Seq<char>) -> JsonData {
    JsonData::Object(seq![("@uri"@, JsonData::Text(digital_file_uri(uri)))])
}

/// The file references of the string items of a list.
pub open spec fn file_references(items: Seq<JsonValue>) -> Seq<JsonData>
    decreases items.len(),
{
    if items.len() == 0 {
        Seq::empty()
    } else {
        let rest = file_references(items.drop_last());
        match items.last().text() {
            Some(u) => rest.push(file_reference(u)),
            None => rest,
        }
    }
}

/// The digital files of a source entity: one reference alone, several as a
/// list, none left out.
pub open spec fn digital_files(raw: JsonValue) -> Option<JsonData> {
    let refs = match raw.member("referenceToDigitalFile"@) {
        Some(JsonValue::Array(files)) => file_references(files@),
        Some(JsonValue::String(u)) => seq![file_reference(u@)],
        _ => Seq::empty(),
    };
    if refs.len() == 0 {
        None
    } else if refs.len() == 1 {
        Some(refs[0])
    } else {
        Some(JsonData::Array(refs))
    }
}

/// The citation of a source: its `sourceCitation`, else its `textReference`.
pub open spec fn citation_of(raw: JsonValue) -> Option<Seq<char>> {
    match raw.member_text("sourceCitation"@) {
        Some(c) => Some(c),
        None => raw.member_text("textReference"@),
    }
}

/// The dataset information of a written source, members in key order: the
/// classification (class 6, other source types), the id, the import trace,
/// the short name, the publication type, the digital files, the citation and
/// the description, each where the entity has it.
pub open spec fn source_information(e: CanonicalEntity) -> Seq<(Seq<char>, JsonData)> {
    let raw = e.raw;
    let desc = source_description(raw);
    seq![("classificationInformation"@, class_json("6"@, "Other source types"@))]
        + seq![("common:UUID"@, JsonData::Text(e.internal_id@))]
        + optional_member("common:other"@, trace_of(raw))
        + seq![("common:shortName"@, localized_json(name_or(e, "Imported source"@)))]
        + optional_member("publicationType"@, opt_text_json(raw.member_text("publicationType"@)))
        + optional_member("referenceToDigitalFile"@, digital_files(raw))
        + optional_member("sourceCitation"@, opt_text_json(citation_of(raw)))
        + optional_member("sourceDescriptionOrComment"@, if desc.len() == 0 {
            None
        } else {
            Some(localized_json(desc))
        })
}

/// The source dataset written for an imported source, around its
/// administrative block.
pub open spec fn canonical_source_json(e: CanonicalEntity, administrative: JsonData) -> JsonData {
    JsonData::Object(seq![("sourceDataSet"@, JsonData::Object(header_members("Source"@) + seq![
        ("administrativeInformation"@, administrative),
        ("sourceInformation"@, JsonData::Object(seq![("dataSetInformation"@, JsonData::Object(source_information(e)))])),
    ]))])
}

pub(crate) fn push_optional(m: &mut Vec<(String, JsonValue)>, key: &str, v: Option<JsonValue>)
    ensures
        data_members(final(m)@) == data_members(old(m)@) + optional_member(key@, opt_data(v)),
{
    match v {
        Some(x) => push_member(m, key, x),
        None => {
            assert(data_members(m@) + Seq::<(Seq<char>, JsonData)>::empty() =~= data_members(m@));
        },
    }
}

fn text_member_of(raw: &JsonValue, key: &str) -> (r: Option<JsonValue>)
    ensures
        opt_data(r) == opt_text_json(raw.member_text(key@)),
{
    match raw.get_str(key) {
        Some(t) => Some(text_value(t)),
        None => None,
    }
}

fn localized_member_of(raw: &JsonValue, key: &str) -> (r: Option<JsonValue>)
    ensures
        opt_data(r) == opt_localized_json(raw.member_text(key@)),
{
    match raw.get_str(key) {
        Some(t) => Some(localized(t)),
        None => None,
    }
}

pub(crate) fn trace_member(raw: &JsonValue) -> (r: Option<JsonValue>)
    ensures
        opt_data(r) == trace_of(*raw),
{
    match raw.get("sourceTrace") {
        Some(t) => Some(import_trace(t)),
        None => None,
    }
}

pub(crate) fn name_of<'a>(e: &'a CanonicalEntity, fallback: &'a str) -> (r: &'a str)
    ensures
        r@ == name_or(*e, fallback@),
{
    match &e.name {
        Some(n) => n.as_str(),
        None => fallback,
    }
}

/// The contact dataset written for an imported contact (see
/// `canonical_contact_json`); `administrative` is the entity's administrative
/// block.
pub fn canonical_contact(entity: &CanonicalEntity, administrative: JsonValue) -> (r: JsonValue)
    ensures
        data(r) == canonical_contact_json(*entity, data(administrative)),
{
    let raw = &entity.raw;
    let name = name_of(entity, "Imported contact");
    let mut info: Vec<(String, JsonValue)> = Vec::new();
    push_optional(&mut info, "WWWAddress", text_member_of(raw, "website"));
    assert(data_members(info@) =~= optional_member("WWWAddress"@, opt_text_json(raw.member_text("website"@))));
    push_member(&mut info, "classificationInformation", classification("5", "Other"));
    push_member(&mut info, "common:UUID", JsonValue::String(entity.internal_id.clone()));
    push_member(&mut info, "common:name", localized(name));
    push_optional(&mut info, "common:other", trace_member(raw));
    push_member(&mut info, "common:shortName", localized(name));
    push_optional(&mut info, "contactAddress", localized_member_of(raw, "address"));
    push_optional(&mut info, "contactDescriptionOrComment", localized_member_of(raw, "description"));
    push_optional(&mut info, "email", text_member_of(raw, "email"));
    push_optional(&mut info, "telephone", text_member_of(raw, "telephone"));
    assert(data_members(info@) == contact_information(*entity));
    let information = wrap("dataSetInformation", info);
    let mut m = header("Contact");
    let ghost h = m@;
    let ghost admin = data(administrative);
    m.push((owned("administrativeInformation"), administrative));
    m.push((owned("contactInformation"), information));
    let ghost want = canonical_contact_json(*entity, admin);
    proof {
        lemma_data_members(m@);
        lemma_data_members(h);
        assert(data_members(m@) =~= want->Object_0[0].1->Object_0);
    }
    wrap("contactDataSet", m)
}

fn source_description_of(raw: &JsonValue) -> (r: String)
    ensures
        r@ == source_description(*raw),
{
    let d: String = match raw.get_str("description") {
        Some(d) => owned(d),
        None => {
            let e = owned("");
            proof {
                reveal_strlit("");
            }
            assert(e@ =~= Seq::<char>::empty());
            e
        },
    };
    match raw.get_str("url") {
        Some(u) => {
            if d.as_str().is_empty() {
                let r = concat("External source URL: ", u);
                assert(r@ =~= d@ + "External source URL: "@ + u@);
                r
            } else {
                let head = concat3(d.as_str(), " ", "External source URL: ");
                concat(head.as_str(), u)
            }
        },
        None => d,
    }
}

fn file_reference_of(uri: &str) -> (r: JsonValue)
    ensures
        data(r) == file_reference(uri@),
{
    let target = if str_contains(uri, ":") {
        owned(uri)
    } else {
        concat("file:", uri)
    };
    let mut m: Vec<(String, JsonValue)> = Vec::new();
    push_member(&mut m, "@uri", JsonValue::String(target));
    assert(data_members(m@) =~= seq![("@uri"@, JsonData::Text(digital_file_uri(uri@)))]);
    JsonValue::Object(m)
}

fn digital_files_of(raw: &JsonValue) -> (r: Option<JsonValue>)
    ensures
        opt_data(r) == digital_files(*raw),
{
    let mut refs: Vec<JsonValue> = Vec::new();
    match raw.get("referenceToDigitalFile") {
        Some(JsonValue::Array(files)) => {
            let mut i: usize = 0;
            assert(files@.subrange(0, 0) =~= Seq::<JsonValue>::empty());
            assert(data_items(refs@) =~= Seq::<JsonData>::empty()) by {
                lemma_data_items(refs@);
            }
            while i < files.len()
                invariant
                    i <= files@.len(),
                    data_items(refs@) == file_references(files@.subrange(0, i as int)),
                decreases files@.len() - i,
            {
                let ghost sub = files@.subrange(0, i + 1);
                assert(sub.drop_last() =~= files@.subrange(0, i as int));
                assert(sub.last() == files@[i as int]);
                match files[i].as_str() {
                    Some(u) => {
                        let ghost before = refs@;
                        let x = file_reference_of(u);
                        refs.push(x);
                        proof {
                            lemma_data_items(before);
                            lemma_data_items(refs@);
                            assert(data_items(refs@) =~= data_items(before).push(file_reference(u@)));
                        }
                    },
                    None => {},
                }
                i = i + 1;
            }
            assert(files@.subrange(0, files@.len() as int) =~= files@);
        },
        Some(JsonValue::String(u)) => {
            refs.push(file_reference_of(u.as_str()));
            proof {
                lemma_data_items(refs@);
                assert(data_items(refs@) =~= seq![file_reference(u@)]);
            }
        },
        _ => {
            assert(data_items(refs@) =~= Seq::<JsonData>::empty()) by {
                lemma_data_items(refs@);
            }
        },
    }
    proof {
        lemma_data_items(refs@);
    }
    if refs.len() == 0 {
        None
    } else if refs.len() == 1 {
        refs.pop()
    } else {
        Some(JsonValue::Array(refs))
    }
}

fn citation_member_of(raw: &JsonValue) -> (r: Option<JsonValue>)
    ensures
        opt_data(r) == opt_text_json(citation_of(*raw)),
{
    match raw.get_str("sourceCitation") {
        Some(c) => Some(text_value(c)),
        None => text_member_of(raw, "textReference"),
    }
}

/// The source dataset written for an imported source (see
/// `canonical_source_json`); `administrative` is the entity's administrative
/// block.
pub fn canonical_source(entity: &CanonicalEntity, administrative: JsonValue) -> (r: JsonValue)
    ensures
        data(r) == canonical_source_json(*entity, data(administrative)),
{
    let raw = &entity.raw;
    let desc = source_description_of(raw);
    let description = if desc.as_str().is_empty() {
        None
    } else {
        Some(localized(desc.as_str()))
    };
    let mut info: Vec<(String, JsonValue)> = Vec::new();
    push_member(&mut info, "classificationInformation", classification("6", "Other source types"));
    assert(data_members(info@) =~= seq![("classificationInformation"@, class_json("6"@, "Other source types"@))]);
    push_member(&mut info, "common:UUID", JsonValue::String(entity.internal_id.clone()));
    push_optional(&mut info, "common:other", trace_member(raw));
    push_member(&mut info, "common:shortName", localized(name_of(entity, "Imported source")));
    push_optional(&mut info, "publicationType", text_member_of(raw, "publicationType"));
    push_optional(&mut info, "referenceToDigitalFile", digital_files_of(raw));
    push_optional(&mut info, "sourceCitation", citation_member_of(raw));
    push_optional(&mut info, "sourceDescriptionOrComment", description);
    assert(data_members(info@) == source_information(*entity));
    let information = wrap("dataSetInformation", info);
    let mut m = header("Source");
    let ghost h = m@;
    let ghost admin = data(administrative);
    m.push((owned("administrativeInformation"), administrative));
    m.push((owned("sourceInformation"), information));
    let ghost want = canonical_source_json(*entity, admin);
    proof {
        lemma_data_members(m@);
        lemma_data_members(h);
        assert(data_members(m@) =~= want->Object_0[0].1->Object_0);
    }
    wrap("sourceDataSet", m)
}

/// The flow property dataset written for an imported flow property, around its
/// administrative block: its unit group is the one the entity names (the
/// default unit group where it names none).
pub open spec fn flow_property_json(e: CanonicalEntity, administrative: JsonData) -> JsonData {
    let raw = e.raw;
    let unit_group_id = match raw.member_text("unitGroupRefId"@) {
        Some(i) => i,
        None => uuid_v5_url("tidas-tools/import/default-unit-group".spec_bytes()),
    };
    let unit_group_name = match raw.member_text("unitGroupName"@) {
        Some(n) => n,
        None => "Unit group"@,
    };
    JsonData::Object(seq![("flowPropertyDataSet"@, JsonData::Object(header_members("FlowProperty"@) + seq![
        ("administrativeInformation"@, administrative),
        ("flowPropertiesInformation"@, JsonData::Object(seq![
            ("dataSetInformation"@, JsonData::Object(seq![
                ("classificationInformation"@, class_json("4"@, "Other flow properties"@)),
                ("common:UUID"@, JsonData::Text(e.internal_id@)),
                ("common:name"@, localized_json(name_or(e, "Flow property"@))),
            ])),
            ("quantitativeReference"@, JsonData::Object(seq![
                ("referenceToReferenceUnitGroup"@, dataset_ref_json(
                    "unit group data set"@,
                    unit_group_id,
                    unit_group_name,
                    "unitgroups"@,
                )),
            ])),
        ])),
        ("modellingAndValidation"@, JsonData::Object(seq![("complianceDeclarations"@, compliance_json(false))])),
    ]))])
}

/// The flow property dataset written for an imported flow property (see
/// `flow_property_json`); `administrative` is the entity's administrative
/// block.
pub fn flow_property(entity: &CanonicalEntity, administrative: JsonValue) -> (r: JsonValue)
    ensures
        data(r) == flow_property_json(*entity, data(administrative)),
{
    let raw = &entity.raw;
    let unit_group_id = match raw.get_str("unitGroupRefId") {
        Some(i) => owned(i),
        None => stable_id("tidas-tools/import/default-unit-group"),
    };
    let unit_group_name = match raw.get_str("unitGroupName") {
        Some(n) => n,
        None => "Unit group",
    };
    let ghost want = flow_property_json(*entity, data(administrative));
    let mut info: Vec<(String, JsonValue)> = Vec::new();
    push_member(&mut info, "classificationInformation", classification("4", "Other flow properties"));
    push_member(&mut info, "common:UUID", JsonValue::String(entity.internal_id.clone()));
    push_member(&mut info, "common:name", localized(name_of(entity, "Flow property")));
    let ghost fpi = want->Object_0[0].1->Object_0[6].1;
    assert(JsonData::Object(data_members(info@)) == fpi->Object_0[0].1) by {
        assert(data_members(info@) =~= fpi->Object_0[0].1->Object_0);
    }
    let mut quantitative: Vec<(String, JsonValue)> = Vec::new();
    push_member(
        &mut quantitative,
        "referenceToReferenceUnitGroup",
        dataset_ref("unit group data set", unit_group_id.as_str(), unit_group_name, "unitgroups"),
    );
    assert(JsonData::Object(data_members(quantitative@)) == fpi->Object_0[1].1) by {
        assert(data_members(quantitative@) =~= fpi->Object_0[1].1->Object_0);
    }
    let mut information: Vec<(String, JsonValue)> = Vec::new();
    push_member(&mut information, "dataSetInformation", JsonValue::Object(info));
    push_member(&mut information, "quantitativeReference", JsonValue::Object(quantitative));
    assert(JsonData::Object(data_members(information@)) == fpi) by {
        assert(data_members(information@) =~= fpi->Object_0);
    }
    let mut modelling: Vec<(String, JsonValue)> = Vec::new();
    push_member(&mut modelling, "complianceDeclarations", compliance_declarations(false));
    assert(JsonData::Object(data_members(modelling@)) == want->Object_0[0].1->Object_0[7].1) by {
        assert(data_members(modelling@) =~= want->Object_0[0].1->Object_0[7].1->Object_0);
    }
    let mut m = header("FlowProperty");
    let ghost h = m@;
    let ghost admin = data(administrative);
    push_member(&mut m, "administrativeInformation", administrative);
    push_member(&mut m, "flowPropertiesInformation", JsonValue::Object(information));
    push_member(&mut m, "modellingAndValidation", JsonValue::Object(modelling));
    assert(data_members(m@) =~= want->Object_0[0].1->Object_0);
    wrap("flowPropertyDataSet", m)
}

} // verus!
