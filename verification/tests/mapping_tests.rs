use tidas_tools::json::JsonValue;
use tidas_tools::mapping::{
    MappingCsvError, csv_row, entity_rows, exchange_row, mapping_csv_columns,
};
use tidas_tools::model::CanonicalEntity;

fn text(value: &str) -> JsonValue {
    JsonValue::String(value.to_owned())
}

fn object(members: Vec<(&str, JsonValue)>) -> JsonValue {
    JsonValue::Object(
        members
            .into_iter()
            .map(|(key, value)| (key.to_owned(), value))
            .collect(),
    )
}

fn entity(entity_type: &str, id: &str, external: Option<&str>, name: Option<&str>) -> CanonicalEntity {
    CanonicalEntity {
        entity_type: entity_type.to_owned(),
        internal_id: id.to_owned(),
        external_id: external.map(str::to_owned),
        name: name.map(str::to_owned),
        category_path: Vec::new(),
        raw: object(Vec::new()),
    }
}

fn csv_of(rows: &[Vec<String>]) -> String {
    rows.iter().map(csv_row).collect()
}

#[test]
fn csv_fields_with_separators_quotes_or_breaks_are_quoted() {
    let row = vec![
        "plain".to_owned(),
        "Process, quoted \"name\"".to_owned(),
        "line\nbreak".to_owned(),
        "carriage\rreturn".to_owned(),
        String::new(),
    ];
    assert_eq!(
        csv_row(&row),
        "plain,\"Process, quoted \"\"name\"\"\",\"line\nbreak\",\"carriage\rreturn\",\n"
    );
    assert_eq!(csv_row(&Vec::new()), "\n");
}

#[test]
fn mapping_columns_are_the_expert_table_header() {
    let columns = mapping_csv_columns();
    assert_eq!(columns.len(), 24);
    assert_eq!(columns[0], "row_id");
    assert_eq!(columns[9], "source_value");
    assert_eq!(columns[23], "reviewer_notes");
    let header: Vec<String> = columns.iter().map(|c| (*c).to_owned()).collect();
    assert!(csv_row(&header).starts_with("row_id,source_format,source_object,"));
}

#[test]
fn exchange_rows_use_internal_id_or_position_and_amount_or_zero() {
    let with_id = object(vec![("internalId", text("7")), ("amount", text("1.25"))]);
    let row = exchange_row("fixture", "process", "Process", "tidas/processes/process.json", 3, 0, &with_id);
    assert_eq!(row.len(), 24);
    assert_eq!(row[0], "3");
    assert_eq!(row[6], "7");
    assert_eq!(row[9], "1.25");
    assert_eq!(row[15], "exchanges.exchange[0].meanAmount");
    assert_eq!(row[17], "1.25");
    assert_eq!(row[22], "false");
    let bare = object(Vec::new());
    let row = exchange_row("fixture", "process", "Process", "t", 4, 41, &bare);
    assert_eq!(row[6], "42");
    assert_eq!(row[9], "0");
    assert_eq!(row[15], "exchanges.exchange[41].meanAmount");
}

#[test]
fn expert_rows_keep_cas_classification_trace_and_placeholder_classes() {
    let mut flow = entity("flows", "flow", Some("external-flow"), Some("Carbon dioxide"));
    flow.category_path = vec!["Elementary flows".to_owned(), "air".to_owned()];
    flow.raw = object(vec![
        ("CASNumber", text("124-38-9")),
        ("flowType", text("ELEMENTARY_FLOW")),
    ]);
    let rows = entity_rows("fixture", &flow, 0).unwrap();
    assert_eq!(rows.len(), 3);
    assert_eq!(rows[0][0], "1");
    assert_eq!(rows[0][18], "formal");
    assert_eq!(rows[0][13], "tidas/flows/flow.json");
    assert_eq!(rows[1][0], "2");
    assert_eq!(rows[2][0], "3");
    assert_eq!(rows[2][9], "Elementary flows/air");
    let csv = csv_of(&rows);
    assert!(csv.contains("CASNumber,124-38-9"));
    assert!(csv.contains("trace_only,classification,,TIDAS_IMPORT_TRACE_V1,true"));

    let process = entity("processes", "process", Some("external-process"), Some("Process"));
    let rows = entity_rows("fixture", &process, 10).unwrap();
    assert_eq!(rows.len(), 2);
    assert_eq!(rows[0][0], "11");
    assert_eq!(rows[1][0], "12");
    assert!(csv_of(&rows).contains("placeholder,metadata,SOURCE_PRODUCTION_VOLUME_UNAVAILABLE,,true"));
}

#[test]
fn generated_identifiers_need_review_and_flow_type_stands_for_a_missing_path() {
    let mut source = entity("sources", "source", None, None);
    source.raw = object(vec![
        ("flowType", JsonValue::Bool(true)),
        ("referenceYear", JsonValue::Number("2020".to_owned())),
    ]);
    let rows = entity_rows("fixture", &source, 0).unwrap();
    assert_eq!(rows.len(), 3);
    assert_eq!(rows[0][4], "source");
    assert_eq!(rows[0][5], "");
    assert_eq!(rows[0][18], "generated");
    assert_eq!(rows[0][22], "true");
    assert_eq!(rows[1][9], "2020");
    assert_eq!(rows[1][19], "time");
    assert_eq!(rows[2][9], "true");
}

#[test]
fn row_numbers_past_the_counter_limit_are_refused() {
    let process = entity("processes", "process", Some("p"), None);
    assert!(matches!(
        entity_rows("fixture", &process, u64::MAX - 1),
        Err(MappingCsvError::SizeOverflow)
    ));
    assert_eq!(entity_rows("fixture", &process, u64::MAX - 2).unwrap().len(), 2);
}
