use tidas_tools::detect::{
    CandidateAccumulator, DetectionConfidence, DetectionError, DetectionRequest, EVIDENCE_LIMIT,
    SourceFormat, candidate, detect_format, needs_scan, scan_csv, scan_json, scan_xlsx, scan_xml,
    select_candidate, xml_root,
};
use tidas_tools::json::JsonValue;

fn object(members: Vec<(&str, JsonValue)>) -> JsonValue {
    JsonValue::Object(
        members
            .into_iter()
            .map(|(key, value)| (key.to_owned(), value))
            .collect(),
    )
}

fn text(value: &str) -> JsonValue {
    JsonValue::String(value.to_owned())
}

fn request(source: &str) -> DetectionRequest {
    DetectionRequest {
        source: source.to_owned(),
        requested_format: None,
    }
}

#[test]
fn candidate_accumulation_is_bounded_independent_of_match_count() {
    let mut candidates = CandidateAccumulator::new();
    for index in 0..100_000 {
        candidates.push(candidate(
            SourceFormat::Ecospold2,
            DetectionConfidence::High,
            format!("dataset-{index}.spold"),
        ));
    }
    let group = candidates.group(SourceFormat::Ecospold2).unwrap();
    assert_eq!(group.total, 100_000);
    assert_eq!(group.evidence.len(), EVIDENCE_LIMIT);

    let detected = select_candidate(candidates).unwrap();
    assert_eq!(detected.format, SourceFormat::Ecospold2);
    assert_eq!(detected.evidence.len(), EVIDENCE_LIMIT + 1);
    assert!(detected.evidence.last().unwrap().contains("99975"));
}

#[test]
fn explicit_format_does_not_override_zolca_rejection() {
    let detected = detect_format(
        &DetectionRequest {
            source: "/data/database.zolca".to_owned(),
            requested_format: Some(SourceFormat::Ilcd),
        },
        true,
        CandidateAccumulator::new(),
    )
    .unwrap();
    assert_eq!(detected.format, SourceFormat::UnsupportedZolca);
    assert_eq!(detected.evidence, vec!["file extension .zolca".to_owned()]);
}

#[test]
fn missing_source_and_invalid_requested_format_are_errors() {
    assert!(matches!(
        detect_format(&request("/nowhere.csv"), false, CandidateAccumulator::new()),
        Err(DetectionError::MissingSource(path)) if path == "/nowhere.csv"
    ));
    let requested = DetectionRequest {
        source: "/data/input.csv".to_owned(),
        requested_format: Some(SourceFormat::Unknown),
    };
    assert!(matches!(
        detect_format(&requested, true, CandidateAccumulator::new()),
        Err(DetectionError::InvalidRequestedFormat(SourceFormat::Unknown))
    ));
    let requested = DetectionRequest {
        source: "/data/input.csv".to_owned(),
        requested_format: Some(SourceFormat::Ilcd),
    };
    assert!(!needs_scan(&requested, true));
    let detected = detect_format(&requested, true, CandidateAccumulator::new()).unwrap();
    assert_eq!(detected.format, SourceFormat::Ilcd);
    assert_eq!(detected.confidence, DetectionConfidence::High);
    assert_eq!(detected.evidence, vec!["explicit --from-format ilcd".to_owned()]);
}

#[test]
fn detects_every_single_file_signature() {
    let mut csv = CandidateAccumulator::new();
    scan_csv(b"{SimaPro 9.5}\\n{processes}", "input.csv", &mut csv);
    assert_eq!(select_candidate(csv).unwrap().format, SourceFormat::SimaproCsv);

    let mut eco1 = CandidateAccumulator::new();
    let root = xml_root(br#"<ecoSpold xmlns="http://www.EcoInvent.org/EcoSpold01"/>"#).unwrap();
    assert_eq!(root.name, "ecoSpold");
    assert_eq!(root.namespace, "http://www.EcoInvent.org/EcoSpold01");
    scan_xml(Some(&root), "input.xml", &mut eco1);
    let detected = select_candidate(eco1).unwrap();
    assert_eq!(detected.format, SourceFormat::Ecospold1);
    assert_eq!(detected.confidence, DetectionConfidence::High);

    let mut json = CandidateAccumulator::new();
    let payload = object(vec![("@type", text("Process")), ("@id", text("p"))]);
    scan_json(Some(&payload), "input.json", &mut json);
    assert_eq!(select_candidate(json).unwrap().format, SourceFormat::OpenlcaJsonld);

    let mut ilcd = CandidateAccumulator::new();
    let root = xml_root(br#"<processDataSet xmlns="http://lca.jrc.it/ILCD/Process"/>"#).unwrap();
    scan_xml(Some(&root), "process.xml", &mut ilcd);
    assert_eq!(select_candidate(ilcd).unwrap().format, SourceFormat::Ilcd);
}

#[test]
fn simapro_marker_may_follow_byte_order_marks() {
    let mut candidates = CandidateAccumulator::new();
    scan_csv(b"\xef\xbb\xbf{SimaPro 9}", "bom.csv", &mut candidates);
    let detected = select_candidate(candidates).unwrap();
    assert_eq!(detected.format, SourceFormat::SimaproCsv);
    assert_eq!(
        detected.evidence[0],
        "bom.csv: first line starts with '{SimaPro '"
    );
    let mut none = CandidateAccumulator::new();
    scan_csv(b"{Simapro 9}", "other.csv", &mut none);
    assert!(none.group(SourceFormat::SimaproCsv).is_none());
}

#[test]
fn xlsx_container_is_a_medium_confidence_candidate() {
    let mut candidates = CandidateAccumulator::new();
    let names = vec!["[Content_Types].xml".to_owned(), "xl/workbook.xml".to_owned()];
    scan_xlsx(&names, "process.xlsx", &mut candidates);
    let detected = select_candidate(candidates).unwrap();
    assert_eq!(detected.format, SourceFormat::OpenlcaProcessXlsx);
    assert_eq!(detected.confidence, DetectionConfidence::Medium);

    let mut incomplete = CandidateAccumulator::new();
    scan_xlsx(&vec!["xl/workbook.xml".to_owned()], "book.xlsx", &mut incomplete);
    assert!(incomplete.group(SourceFormat::OpenlcaProcessXlsx).is_none());
}

#[test]
fn equal_aggregate_scores_are_rejected_as_ambiguous() {
    let mut candidates = CandidateAccumulator::new();
    let root = xml_root(br#"<ecoSpold xmlns="http://www.EcoInvent.org/EcoSpold01"/>"#).unwrap();
    scan_xml(Some(&root), "process.xml", &mut candidates);
    let payload = object(vec![("@type", text("Process")), ("@id", text("p"))]);
    scan_json(Some(&payload), "process.json", &mut candidates);
    assert!(matches!(
        detect_format(&request("/data"), true, candidates),
        Err(DetectionError::Ambiguous(_))
    ));
}

#[test]
fn nothing_found_is_reported_as_unknown() {
    let detected = select_candidate(CandidateAccumulator::new()).unwrap();
    assert_eq!(detected.format, SourceFormat::Unknown);
    assert_eq!(
        detected.evidence,
        vec!["no supported LCA format signature found".to_owned()]
    );
}

#[test]
fn directory_prefers_dominant_package_and_caps_evidence() {
    let mut candidates = CandidateAccumulator::new();
    scan_csv(b"{SimaPro 9.5}\\n{processes}", "guide.csv", &mut candidates);
    for index in 0..30 {
        candidates.push(candidate(
            SourceFormat::Ecospold2,
            DetectionConfidence::High,
            format!("{index}.spold: file extension"),
        ));
    }
    let detected = select_candidate(candidates).unwrap();
    assert_eq!(detected.format, SourceFormat::Ecospold2);
    assert!(detected.evidence.len() <= EVIDENCE_LIMIT + 2);
}

#[test]
fn format_names_are_stable() {
    assert_eq!(SourceFormat::OpenlcaProcessXlsx.as_str(), "openlca-process-xlsx");
    assert_eq!(SourceFormat::UnsupportedZolca.as_str(), "unsupported-zolca");
    assert_eq!(DetectionConfidence::Medium.max(DetectionConfidence::High), DetectionConfidence::High);
    assert_eq!(DetectionConfidence::Low.score(), 1);
}

#[test]
fn format_names_are_distinct_and_kebab_case() {
    let formats = [
        SourceFormat::Ecospold1,
        SourceFormat::Ecospold2,
        SourceFormat::SimaproCsv,
        SourceFormat::OpenlcaJsonld,
        SourceFormat::OpenlcaProcessXlsx,
        SourceFormat::Ilcd,
        SourceFormat::UnsupportedZolca,
        SourceFormat::Unknown,
    ];
    for (i, a) in formats.iter().enumerate() {
        for (j, b) in formats.iter().enumerate() {
            assert_eq!(i == j, a.as_str() == b.as_str());
        }
    }
    assert_eq!(SourceFormat::SimaproCsv.as_str(), "simapro-csv");
    assert_eq!(SourceFormat::OpenlcaProcessXlsx.as_str(), "openlca-process-xlsx");
    assert_eq!(SourceFormat::UnsupportedZolca.as_str(), "unsupported-zolca");
}
