//! The process dataset written for an imported process: its information,
//! modelling and administrative sections (the exchanges are written apart).
//! Members of every object are listed in key order, as written documents do.
use vstd::prelude::*;
use vstd::string::StringSliceAdditionalSpecFns;

use crate::json::{JsonData, JsonValue, data, data_items, data_members, lemma_data_items, push_member};
use crate::model::CanonicalEntity;
use crate::normalization::opt_view;
use crate::openlca_entities::{year_of, year_of_value};
use crate::text::{
    concat, concat3, contains, decimal, decimal_string, eq_ignore_ascii_case, lower, owned,
    str_contains, str_eq, to_ascii_lowercase, trim, trim_str,
};
use crate::writers::{
    CONTACT_NAME, ProcessWriteError, compliance_declarations, compliance_json, contact_id, dataset_ref,
    dataset_ref_json, format_source_id, header, header_members, localized, localized_json, name_of, name_or,
    name_parts, name_parts_json, opt_data, opt_localized_json, opt_text_json, optional_member, push_optional,
    text_value, trace_member, trace_of, uuid_v5_url, wrap,
};

verus! {

// ---------------------------------------------------------------------------
// Reading the process entity
// ---------------------------------------------------------------------------

/// A text member trimmed, where it is neither empty nor a null marker
/// (`<null>`, `null` or `none`, in any ASCII case).
pub open spec fn clean(v: Option<JsonValue>) -> Option<Seq<char>> {
    match v {
        Some(x) => match x.text() {
            Some(t) => {
                let s = trim(t);
                let l = lower(s);
                if s.len() == 0 || l == "<null>"@ || l == "null"@ || l == "none"@ {
                    None
                } else {
                    Some(s)
                }
            },
            None => None,
        },
        None => None,
    }
}

/// The English text of a cleaned member, where there is one.
pub open spec fn clean_localized(raw: JsonValue, key: Seq<char>) -> Option<JsonData> {
    opt_localized_json(clean(raw.member(key)))
}

/// `Value::as_u64` of a member: a number that is a non-negative integer.
pub open spec fn count_of(v: Option<JsonValue>) -> Option<nat> {
    match v {
        Some(x) => if x is Number {
            year_of(x)
        } else {
            None
        },
        None => None,
    }
}

/// The year of a member (see `year_of`).
pub open spec fn year_member(v: Option<JsonValue>) -> Option<nat> {
    match v {
        Some(x) => year_of(x),
        None => None,
    }
}

/// The location of a process: its non-empty `location`, else `GLO`.
pub open spec fn location_of(raw: JsonValue) -> Seq<char> {
    match raw.member_text("location"@) {
        Some(l) => if l.len() == 0 {
            "GLO"@
        } else {
            l
        },
        None => "GLO"@,
    }
}

/// The reference year of a process, `9999` where it has none.
pub open spec fn reference_year_of(raw: JsonValue) -> nat {
    match count_of(raw.member("referenceYear"@)) {
        Some(y) => y,
        None => 9999,
    }
}

pub open spec fn description_of(raw: JsonValue) -> Seq<char> {
    match raw.member_text("description"@) {
        Some(d) => d,
        None => "Converted from external LCA package"@,
    }
}

/// The ILCD type of a process, from the source's process type.
pub open spec fn process_type_of(raw: JsonValue) -> Seq<char> {
    let t = match raw.member_text("sourceProcessType"@) {
        Some(t) => t,
        None => Seq::empty(),
    };
    if t == "LCI_RESULT"@ {
        "LCI result"@
    } else if t == "PARTLY_TERMINATED_SYSTEM"@ {
        "Partly terminated system"@
    } else if t == "AVOIDED_PRODUCT_SYSTEM"@ {
        "Avoided product system"@
    } else {
        "Unit process, single operation"@
    }
}

/// The LCI method approach of a source allocation method.
pub open spec fn allocation_approach(t: Seq<char>) -> Option<Seq<char>> {
    if t == "ECONOMIC_ALLOCATION"@ {
        Some("Allocation - market value"@)
    } else if t == "PHYSICAL_ALLOCATION"@ || t == "CAUSAL_ALLOCATION"@ {
        Some("Allocation - physical causality"@)
    } else if t == "NO_ALLOCATION"@ {
        Some("Not applicable"@)
    } else {
        None
    }
}

/// The annual production volume: the cleaned volume (per year unless it says
/// so), else a zero volume in the reference unit (`kg` by default).
pub open spec fn production_volume(raw: JsonValue) -> Seq<char> {
    let unit = match raw.member_text("referenceUnitName"@) {
        Some(u) => u,
        None => "kg"@,
    };
    let fallback = "0 "@ + unit + "/year; source production volume unavailable"@;
    match clean(raw.member("productionVolume"@)) {
        Some(v) => if lower(v) == lower("na"@) {
            fallback
        } else if contains(v, "/year"@) {
            v
        } else {
            v + "/year"@
        },
        None => fallback,
    }
}

// ---------------------------------------------------------------------------
// The sections
// ---------------------------------------------------------------------------

pub open spec fn isic_class(level: Seq<char>, id: Seq<char>, text: Seq<char>) -> JsonData {
    JsonData::Object(seq![
        ("#text"@, JsonData::Text(text)),
        ("@classId"@, JsonData::Text(id)),
        ("@level"@, JsonData::Text(level)),
    ])
}

/// The fixed ISIC classification of written processes.
pub open spec fn isic_classification() -> JsonData {
    JsonData::Object(seq![("common:classification"@, JsonData::Object(seq![
        ("@name"@, JsonData::Text("ISIC rev.4"@)),
        ("common:class"@, JsonData::Array(seq![
            isic_class("0"@, "T"@, "Other service activities"@),
            isic_class("1"@, "94"@, "Activities of membership organizations"@),
            isic_class("2"@, "949"@, "Activities of other membership organizations"@),
            isic_class("3"@, "9499"@, "Activities of other membership organizations n.e.c."@),
        ])),
    ]))])
}

pub open spec fn dataset_information_json(e: CanonicalEntity) -> JsonData {
    let raw = e.raw;
    JsonData::Object(
        seq![("classificationInformation"@, isic_classification())]
            + seq![("common:UUID"@, JsonData::Text(e.internal_id@))]
            + seq![("common:generalComment"@, localized_json(description_of(raw)))]
            + optional_member("common:other"@, trace_of(raw))
            + seq![("name"@, name_parts_json(name_or(e, "Process"@), location_of(raw)))],
    )
}

pub open spec fn geography_json(raw: JsonValue) -> JsonData {
    JsonData::Object(seq![("locationOfOperationSupplyOrProduction"@, JsonData::Object(
        seq![("@location"@, JsonData::Text(location_of(raw)))]
            + optional_member("descriptionOfRestrictions"@, clean_localized(raw, "locationDescription"@)),
    ))])
}

pub open spec fn quantitative_reference_json(reference: Seq<char>, functional_unit: Seq<char>) -> JsonData {
    JsonData::Object(seq![
        ("@type"@, JsonData::Text("Reference flow(s)"@)),
        ("functionalUnitOrOther"@, localized_json(functional_unit)),
        ("referenceToReferenceFlow"@, JsonData::Text(reference)),
    ])
}

pub open spec fn technology_json(raw: JsonValue) -> Option<JsonData> {
    match clean(raw.member("technologyDescription"@)) {
        Some(d) => Some(JsonData::Object(seq![("technologyDescriptionAndIncludedProcesses"@, localized_json(d))])),
        None => None,
    }
}

pub open spec fn time_json(raw: JsonValue) -> JsonData {
    JsonData::Object(
        optional_member("common:dataSetValidUntil"@, match year_member(raw.member("dataSetValidUntil"@)) {
            Some(y) => Some(JsonData::Number(decimal(y))),
            None => None,
        })
            + seq![("common:referenceYear"@, JsonData::Number(decimal(reference_year_of(raw))))]
            + optional_member("common:timeRepresentativenessDescription"@, clean_localized(raw, "timeDescription"@)),
    )
}

/// The process information: dataset information, geography, quantitative
/// reference, technology (where described) and time.
pub open spec fn process_information_json(e: CanonicalEntity, reference: Seq<char>, functional_unit: Seq<char>) -> JsonData {
    let raw = e.raw;
    JsonData::Object(
        seq![("dataSetInformation"@, dataset_information_json(e))]
            + seq![("geography"@, geography_json(raw))]
            + seq![("quantitativeReference"@, quantitative_reference_json(reference, functional_unit))]
            + optional_member("technology"@, technology_json(raw))
            + seq![("time"@, time_json(raw))],
    )
}

pub open spec fn lci_method_json(raw: JsonValue) -> JsonData {
    JsonData::Object(
        optional_member("LCIMethodApproaches"@, opt_text_json(match raw.member_text("sourceDefaultAllocationMethod"@) {
            Some(t) => allocation_approach(t),
            None => None,
        }))
            + optional_member("deviationsFromLCIMethodPrinciple"@, clean_localized(raw, "deviationsFromLCIMethodPrinciple"@))
            + optional_member("modellingConstants"@, clean_localized(raw, "modellingConstants"@))
            + seq![("typeOfDataSet"@, JsonData::Text(process_type_of(raw)))],
    )
}

pub open spec fn data_sources_json(raw: JsonValue, format_id: Seq<char>) -> JsonData {
    JsonData::Object(
        seq![("annualSupplyOrProductionVolume"@, localized_json(production_volume(raw)))]
            + optional_member("dataCollectionPeriod"@, clean_localized(raw, "dataCollectionPeriod"@))
            + seq![("dataCutOffAndCompletenessPrinciples"@, localized_json(
                match clean(raw.member("dataCutOffAndCompletenessPrinciples"@)) {
                    Some(t) => t,
                    None => "Converted from external LCA package"@,
                },
            ))]
            + optional_member("dataSelectionAndCombinationPrinciples"@, clean_localized(raw, "dataSelectionAndCombinationPrinciples"@))
            + optional_member("dataTreatmentAndExtrapolationsPrinciples"@, clean_localized(raw, "dataTreatmentAndExtrapolationsPrinciples"@))
            + seq![("referenceToDataSource"@, dataset_ref_json("source data set"@, format_id, "External LCA source metadata"@, "sources"@))]
            + optional_member("samplingProcedure"@, clean_localized(raw, "samplingProcedure"@))
            + optional_member("uncertaintyAdjustments"@, clean_localized(raw, "uncertaintyAdjustments"@))
            + optional_member("useAdviceForDataSet"@, clean_localized(raw, "useAdviceForDataSet"@)),
    )
}

/// The review: not reviewed, with the data quality indicators where the
/// process has any (one alone, several as a list).
pub open spec fn review_json(raw: JsonValue) -> JsonData {
    let not_reviewed = seq![("@type"@, JsonData::Text("Not reviewed"@))];
    match raw.member("dataQualityIndicators"@) {
        Some(JsonValue::Array(items)) => if items@.len() == 0 {
            JsonData::Object(not_reviewed)
        } else {
            JsonData::Object(not_reviewed + seq![("common:dataQualityIndicators"@, JsonData::Object(seq![
                ("common:dataQualityIndicator"@, if items@.len() == 1 {
                    data(items@[0])
                } else {
                    data(JsonValue::Array(items))
                }),
            ]))])
        },
        _ => JsonData::Object(not_reviewed),
    }
}

pub open spec fn modelling_json(raw: JsonValue, format_id: Seq<char>) -> JsonData {
    JsonData::Object(seq![
        ("LCIMethodAndAllocation"@, lci_method_json(raw)),
        ("complianceDeclarations"@, compliance_json(true)),
        ("dataSourcesTreatmentAndRepresentativeness"@, data_sources_json(raw, format_id)),
        ("validation"@, JsonData::Object(seq![("review"@, review_json(raw))])),
    ])
}

pub open spec fn process_administrative_json(contact: Seq<char>, entry: JsonData, publication: JsonData) -> JsonData {
    JsonData::Object(seq![
        ("common:commissionerAndGoal"@, JsonData::Object(seq![
            ("common:intendedApplications"@, localized_json("Converted from external LCA package"@)),
            ("common:referenceToCommissioner"@, dataset_ref_json("contact data set"@, contact, CONTACT_NAME@, "contacts"@)),
        ])),
        ("dataEntryBy"@, entry),
        ("publicationAndOwnership"@, publication),
    ])
}

/// The process dataset of an imported process, its reference exchange and its
/// functional unit, with the data entry and publication blocks of its
/// administrative information.
pub open spec fn process_dataset_json(
    e: CanonicalEntity,
    reference: Seq<char>,
    functional_unit: Seq<char>,
    entry: JsonData,
    publication: JsonData,
) -> JsonData {
    JsonData::Object(seq![("processDataSet"@, JsonData::Object(
        seq![("@locations"@, JsonData::Text("../ILCDLocations.xml"@))] + header_members("Process"@) + seq![
            ("administrativeInformation"@, process_administrative_json(
                uuid_v5_url("tidas-tools/import/contact".spec_bytes()),
                entry,
                publication,
            )),
            ("modellingAndValidation"@, modelling_json(e.raw, uuid_v5_url("tidas-tools/import/ilcd-format".spec_bytes()))),
            ("processInformation"@, process_information_json(e, reference, functional_unit)),
        ],
    ))])
}

// ---------------------------------------------------------------------------
// Building the dataset
// ---------------------------------------------------------------------------

fn clean_of(raw: &JsonValue, key: &str) -> (r: Option<String>)
    ensures
        opt_view(r) == clean(raw.member(key@)),
{
    match raw.get_str(key) {
        Some(t) => {
            let s = trim_str(t);
            let l = to_ascii_lowercase(s.as_str());
            if s.as_str().is_empty() || str_eq(l.as_str(), "<null>") || str_eq(l.as_str(), "null") || str_eq(
                l.as_str(),
                "none",
            ) {
                None
            } else {
                Some(s)
            }
        },
        None => None,
    }
}

fn clean_localized_of(raw: &JsonValue, key: &str) -> (r: Option<JsonValue>)
    ensures
        opt_data(r) == clean_localized(*raw, key@),
{
    match clean_of(raw, key) {
        Some(t) => Some(localized(t.as_str())),
        None => None,
    }
}

fn location_text<'a>(raw: &'a JsonValue) -> (r: &'a str)
    ensures
        r@ == location_of(*raw),
{
    match raw.get_str("location") {
        Some(l) => if l.is_empty() {
            "GLO"
        } else {
            l
        },
        None => "GLO",
    }
}

fn reference_year(raw: &JsonValue) -> (r: u64)
    ensures
        r == reference_year_of(*raw),
{
    match raw.get("referenceYear") {
        Some(v) => match v {
            JsonValue::Number(_) => match year_of_value(v) {
                Some(y) => y,
                None => 9999,
            },
            _ => 9999,
        },
        None => 9999,
    }
}

fn description_text<'a>(raw: &'a JsonValue) -> (r: &'a str)
    ensures
        r@ == description_of(*raw),
{
    match raw.get_str("description") {
        Some(d) => d,
        None => "Converted from external LCA package",
    }
}

fn process_type(raw: &JsonValue) -> (r: &'static str)
    ensures
        r@ == process_type_of(*raw),
{
    let t = match raw.get_str("sourceProcessType") {
        Some(t) => t,
        None => {
            let e = "";
            proof {
                reveal_strlit("");
            }
            assert(e@ =~= Seq::<char>::empty());
            e
        },
    };
    if str_eq(t, "LCI_RESULT") {
        "LCI result"
    } else if str_eq(t, "PARTLY_TERMINATED_SYSTEM") {
        "Partly terminated system"
    } else if str_eq(t, "AVOIDED_PRODUCT_SYSTEM") {
        "Avoided product system"
    } else {
        "Unit process, single operation"
    }
}

fn allocation_of(t: &str) -> (r: Option<&'static str>)
    ensures
        match r {
            Some(a) => allocation_approach(t@) == Some(a@),
            None => allocation_approach(t@) is None,
        },
{
    if str_eq(t, "ECONOMIC_ALLOCATION") {
        Some("Allocation - market value")
    } else if str_eq(t, "PHYSICAL_ALLOCATION") || str_eq(t, "CAUSAL_ALLOCATION") {
        Some("Allocation - physical causality")
    } else if str_eq(t, "NO_ALLOCATION") {
        Some("Not applicable")
    } else {
        None
    }
}

fn production_volume_of(raw: &JsonValue) -> (r: String)
    ensures
        r@ == production_volume(*raw),
{
    let unit = match raw.get_str("referenceUnitName") {
        Some(u) => u,
        None => "kg",
    };
    match clean_of(raw, "productionVolume") {
        Some(v) => {
            if !eq_ignore_ascii_case(v.as_str(), "na") {
                if str_contains(v.as_str(), "/year") {
                    return v;
                } else {
                    return concat(v.as_str(), "/year");
                }
            }
        },
        None => {},
    }
    concat3("0 ", unit, "/year; source production volume unavailable")
}

fn isic_class_of(level: &str, id: &str, text: &str) -> (r: JsonValue)
    ensures
        data(r) == isic_class(level@, id@, text@),
{
    let mut m: Vec<(String, JsonValue)> = Vec::new();
    push_member(&mut m, "#text", text_value(text));
    push_member(&mut m, "@classId", text_value(id));
    push_member(&mut m, "@level", text_value(level));
    assert(data_members(m@) =~= isic_class(level@, id@, text@)->Object_0);
    JsonValue::Object(m)
}

fn isic_classification_of() -> (r: JsonValue)
    ensures
        data(r) == isic_classification(),
{
    let mut classes: Vec<JsonValue> = Vec::new();
    classes.push(isic_class_of("0", "T", "Other service activities"));
    classes.push(isic_class_of("1", "94", "Activities of membership organizations"));
    classes.push(isic_class_of("2", "949", "Activities of other membership organizations"));
    classes.push(isic_class_of("3", "9499", "Activities of other membership organizations n.e.c."));
    let ghost want = isic_classification();
    proof {
        lemma_data_items(classes@);
        assert(data_items(classes@) =~= want->Object_0[0].1->Object_0[1].1->Array_0);
    }
    let mut inner: Vec<(String, JsonValue)> = Vec::new();
    push_member(&mut inner, "@name", text_value("ISIC rev.4"));
    push_member(&mut inner, "common:class", JsonValue::Array(classes));
    assert(data_members(inner@) =~= want->Object_0[0].1->Object_0);
    let mut outer: Vec<(String, JsonValue)> = Vec::new();
    push_member(&mut outer, "common:classification", JsonValue::Object(inner));
    assert(data_members(outer@) =~= want->Object_0);
    JsonValue::Object(outer)
}

fn dataset_information_of(e: &CanonicalEntity) -> (r: JsonValue)
    ensures
        data(r) == dataset_information_json(*e),
{
    let raw = &e.raw;
    let mut m: Vec<(String, JsonValue)> = Vec::new();
    push_member(&mut m, "classificationInformation", isic_classification_of());
    assert(data_members(m@) =~= seq![("classificationInformation"@, isic_classification())]);
    push_member(&mut m, "common:UUID", JsonValue::String(e.internal_id.clone()));
    push_member(&mut m, "common:generalComment", localized(description_text(raw)));
    push_optional(&mut m, "common:other", trace_member(raw));
    push_member(&mut m, "name", name_parts(name_of(e, "Process"), location_text(raw)));
    JsonValue::Object(m)
}

fn geography_of(raw: &JsonValue) -> (r: JsonValue)
    ensures
        data(r) == geography_json(*raw),
{
    let mut inner: Vec<(String, JsonValue)> = Vec::new();
    push_member(&mut inner, "@location", text_value(location_text(raw)));
    assert(data_members(inner@) =~= seq![("@location"@, JsonData::Text(location_of(*raw)))]);
    push_optional(&mut inner, "descriptionOfRestrictions", clean_localized_of(raw, "locationDescription"));
    let mut m: Vec<(String, JsonValue)> = Vec::new();
    push_member(&mut m, "locationOfOperationSupplyOrProduction", JsonValue::Object(inner));
    assert(data_members(m@) =~= geography_json(*raw)->Object_0);
    JsonValue::Object(m)
}

fn quantitative_reference_of(reference: &str, functional_unit: &str) -> (r: JsonValue)
    ensures
        data(r) == quantitative_reference_json(reference@, functional_unit@),
{
    let mut m: Vec<(String, JsonValue)> = Vec::new();
    push_member(&mut m, "@type", text_value("Reference flow(s)"));
    push_member(&mut m, "functionalUnitOrOther", localized(functional_unit));
    push_member(&mut m, "referenceToReferenceFlow", text_value(reference));
    assert(data_members(m@) =~= quantitative_reference_json(reference@, functional_unit@)->Object_0);
    JsonValue::Object(m)
}

fn technology_of(raw: &JsonValue) -> (r: Option<JsonValue>)
    ensures
        opt_data(r) == technology_json(*raw),
{
    match clean_of(raw, "technologyDescription") {
        Some(d) => {
            let mut m: Vec<(String, JsonValue)> = Vec::new();
            push_member(&mut m, "technologyDescriptionAndIncludedProcesses", localized(d.as_str()));
            assert(data_members(m@) =~= seq![("technologyDescriptionAndIncludedProcesses"@, localized_json(d@))]);
            Some(JsonValue::Object(m))
        },
        None => None,
    }
}

fn valid_until_of(raw: &JsonValue) -> (r: Option<JsonValue>)
    ensures
        opt_data(r) == match year_member(raw.member("dataSetValidUntil"@)) {
            Some(y) => Some(JsonData::Number(decimal(y))),
            None => None,
        },
{
    match raw.get("dataSetValidUntil") {
        Some(v) => match year_of_value(v) {
            Some(y) => Some(JsonValue::Number(decimal_string(y))),
            None => None,
        },
        None => None,
    }
}

fn time_of(raw: &JsonValue) -> (r: JsonValue)
    ensures
        data(r) == time_json(*raw),
{
    let mut m: Vec<(String, JsonValue)> = Vec::new();
    let until = valid_until_of(raw);
    push_optional(&mut m, "common:dataSetValidUntil", until);
    assert(data_members(m@) =~= optional_member("common:dataSetValidUntil"@, opt_data(until)));
    push_member(&mut m, "common:referenceYear", JsonValue::Number(decimal_string(reference_year(raw))));
    push_optional(&mut m, "common:timeRepresentativenessDescription", clean_localized_of(raw, "timeDescription"));
    JsonValue::Object(m)
}

fn process_information_of(e: &CanonicalEntity, reference: &str, functional_unit: &str) -> (r: JsonValue)
    ensures
        data(r) == process_information_json(*e, reference@, functional_unit@),
{
    let raw = &e.raw;
    let mut m: Vec<(String, JsonValue)> = Vec::new();
    push_member(&mut m, "dataSetInformation", dataset_information_of(e));
    assert(data_members(m@) =~= seq![("dataSetInformation"@, dataset_information_json(*e))]);
    push_member(&mut m, "geography", geography_of(raw));
    push_member(&mut m, "quantitativeReference", quantitative_reference_of(reference, functional_unit));
    push_optional(&mut m, "technology", technology_of(raw));
    push_member(&mut m, "time", time_of(raw));
    JsonValue::Object(m)
}

fn lci_method_of(raw: &JsonValue) -> (r: JsonValue)
    ensures
        data(r) == lci_method_json(*raw),
{
    let approach = match raw.get_str("sourceDefaultAllocationMethod") {
        Some(t) => match allocation_of(t) {
            Some(a) => Some(text_value(a)),
            None => None,
        },
        None => None,
    };
    let mut m: Vec<(String, JsonValue)> = Vec::new();
    let ghost first = opt_data(approach);
    push_optional(&mut m, "LCIMethodApproaches", approach);
    assert(data_members(m@) =~= optional_member("LCIMethodApproaches"@, first));
    push_optional(&mut m, "deviationsFromLCIMethodPrinciple", clean_localized_of(raw, "deviationsFromLCIMethodPrinciple"));
    push_optional(&mut m, "modellingConstants", clean_localized_of(raw, "modellingConstants"));
    push_member(&mut m, "typeOfDataSet", text_value(process_type(raw)));
    JsonValue::Object(m)
}

fn data_sources_of(raw: &JsonValue, format_id: &str) -> (r: JsonValue)
    ensures
        data(r) == data_sources_json(*raw, format_id@),
{
    let cut_off = match clean_of(raw, "dataCutOffAndCompletenessPrinciples") {
        Some(t) => t,
        None => owned("Converted from external LCA package"),
    };
    let volume = production_volume_of(raw);
    let mut m: Vec<(String, JsonValue)> = Vec::new();
    push_member(&mut m, "annualSupplyOrProductionVolume", localized(volume.as_str()));
    assert(data_members(m@) =~= seq![("annualSupplyOrProductionVolume"@, localized_json(production_volume(*raw)))]);
    push_optional(&mut m, "dataCollectionPeriod", clean_localized_of(raw, "dataCollectionPeriod"));
    push_member(&mut m, "dataCutOffAndCompletenessPrinciples", localized(cut_off.as_str()));
    push_optional(&mut m, "dataSelectionAndCombinationPrinciples", clean_localized_of(raw, "dataSelectionAndCombinationPrinciples"));
    push_optional(&mut m, "dataTreatmentAndExtrapolationsPrinciples", clean_localized_of(raw, "dataTreatmentAndExtrapolationsPrinciples"));
    push_member(
        &mut m,
        "referenceToDataSource",
        dataset_ref("source data set", format_id, "External LCA source metadata", "sources"),
    );
    push_optional(&mut m, "samplingProcedure", clean_localized_of(raw, "samplingProcedure"));
    push_optional(&mut m, "uncertaintyAdjustments", clean_localized_of(raw, "uncertaintyAdjustments"));
    push_optional(&mut m, "useAdviceForDataSet", clean_localized_of(raw, "useAdviceForDataSet"));
    JsonValue::Object(m)
}

fn review_of(raw: &JsonValue) -> (r: JsonValue)
    ensures
        data(r) == review_json(*raw),
{
    let mut m: Vec<(String, JsonValue)> = Vec::new();
    push_member(&mut m, "@type", text_value("Not reviewed"));
    let ghost not_reviewed = seq![("@type"@, JsonData::Text("Not reviewed"@))];
    assert(data_members(m@) =~= not_reviewed);
    match raw.get("dataQualityIndicators") {
        Some(v) => match v {
            JsonValue::Array(items) => {
                if items.len() > 0 {
                    let indicator = if items.len() == 1 {
                        items[0].duplicate()
                    } else {
                        v.duplicate()
                    };
                    let mut inner: Vec<(String, JsonValue)> = Vec::new();
                    push_member(&mut inner, "common:dataQualityIndicator", indicator);
                    push_member(&mut m, "common:dataQualityIndicators", JsonValue::Object(inner));
                    assert(data_members(m@) =~= review_json(*raw)->Object_0);
                }
            },
            _ => {},
        },
        None => {},
    }
    JsonValue::Object(m)
}

fn modelling_of(raw: &JsonValue, format_id: &str) -> (r: JsonValue)
    ensures
        data(r) == modelling_json(*raw, format_id@),
{
    let mut validation: Vec<(String, JsonValue)> = Vec::new();
    push_member(&mut validation, "review", review_of(raw));
    let mut m: Vec<(String, JsonValue)> = Vec::new();
    push_member(&mut m, "LCIMethodAndAllocation", lci_method_of(raw));
    push_member(&mut m, "complianceDeclarations", compliance_declarations(true));
    push_member(&mut m, "dataSourcesTreatmentAndRepresentativeness", data_sources_of(raw, format_id));
    push_member(&mut m, "validation", JsonValue::Object(validation));
    assert(data_members(m@) =~= modelling_json(*raw, format_id@)->Object_0);
    JsonValue::Object(m)
}

fn administrative_of(contact: &str, entry: JsonValue, publication: JsonValue) -> (r: JsonValue)
    ensures
        data(r) == process_administrative_json(contact@, data(entry), data(publication)),
{
    let ghost want = process_administrative_json(contact@, data(entry), data(publication));
    let mut goal: Vec<(String, JsonValue)> = Vec::new();
    push_member(&mut goal, "common:intendedApplications", localized("Converted from external LCA package"));
    push_member(
        &mut goal,
        "common:referenceToCommissioner",
        dataset_ref("contact data set", contact, CONTACT_NAME, "contacts"),
    );
    assert(data_members(goal@) =~= want->Object_0[0].1->Object_0);
    let mut m: Vec<(String, JsonValue)> = Vec::new();
    push_member(&mut m, "common:commissionerAndGoal", JsonValue::Object(goal));
    push_member(&mut m, "dataEntryBy", entry);
    push_member(&mut m, "publicationAndOwnership", publication);
    assert(data_members(m@) =~= want->Object_0);
    JsonValue::Object(m)
}

/// The process dataset of an imported process (see `process_dataset_json`):
/// `reference` is the internal id of its reference exchange and
/// `functional_unit` the text of its functional unit. The data entry and
/// publication blocks come from the process's administrative information; it
/// is refused when either is missing.
pub fn process_base(
    entity: &CanonicalEntity,
    reference: &str,
    functional_unit: &str,
    administrative: &JsonValue,
) -> (r: Result<JsonValue, ProcessWriteError>)
    ensures
        match (administrative.member("dataEntryBy"@), administrative.member("publicationAndOwnership"@)) {
            (Some(entry), Some(publication)) => r matches Ok(v) && data(v) == process_dataset_json(
                *entity,
                reference@,
                functional_unit@,
                data(entry),
                data(publication),
            ),
            _ => r matches Err(ProcessWriteError::AdministrativeShape),
        },
{
    let entry = match administrative.get("dataEntryBy") {
        Some(v) => v.duplicate(),
        None => {
            return Err(ProcessWriteError::AdministrativeShape);
        },
    };
    let publication = match administrative.get("publicationAndOwnership") {
        Some(v) => v.duplicate(),
        None => {
            return Err(ProcessWriteError::AdministrativeShape);
        },
    };
    let contact = contact_id();
    let format_id = format_source_id();
    let ghost want = process_dataset_json(*entity, reference@, functional_unit@, data(entry), data(publication));
    let mut m: Vec<(String, JsonValue)> = Vec::new();
    push_member(&mut m, "@locations", text_value("../ILCDLocations.xml"));
    let h = header("Process");
    let ghost hv = h@;
    let mut k: usize = 0;
    proof {
        crate::json::lemma_data_members(hv);
    }
    let ghost start = data_members(m@);
    while k < h.len()
        invariant
            k <= h@.len(),
            hv == h@,
            data_members(m@) == start + data_members(hv.subrange(0, k as int)),
        decreases h@.len() - k,
    {
        proof {
            crate::json::lemma_data_members(hv.subrange(0, k as int));
            crate::json::lemma_data_members(hv.subrange(0, k + 1));
            assert(data_members(hv.subrange(0, k + 1)) =~= data_members(hv.subrange(0, k as int)).push((hv[k as int].0@, data(hv[k as int].1))));
        }
        push_member(&mut m, h[k].0.as_str(), h[k].1.duplicate());
        assert(data_members(m@) =~= start + data_members(hv.subrange(0, k + 1)));
        k = k + 1;
    }
    assert(hv.subrange(0, hv.len() as int) =~= hv);
    push_member(&mut m, "administrativeInformation", administrative_of(contact.as_str(), entry, publication));
    push_member(&mut m, "modellingAndValidation", modelling_of(&entity.raw, format_id.as_str()));
    push_member(&mut m, "processInformation", process_information_of(entity, reference, functional_unit));
    assert(data_members(m@) =~= want->Object_0[0].1->Object_0);
    Ok(wrap("processDataSet", m))
}

} // verus!
