use std::io::Write;

use tidas_tools::workbook_import::read_workbook;
use tidas_tools::workbook_reader::WorkbookError;

fn archive(entries: &[(&str, &str)]) -> Vec<u8> {
    let mut writer = zip::ZipWriter::new(std::io::Cursor::new(Vec::new()));
    for (name, content) in entries {
        writer.start_file(*name, zip::write::SimpleFileOptions::default()).unwrap();
        writer.write_all(content.as_bytes()).unwrap();
    }
    writer.finish().unwrap().into_inner()
}

const WORKBOOK: &str = r#"<workbook xmlns:r="urn:r"><sheets><sheet name="General information" r:id="rId1"/><sheet name="Flows" r:id="rId2"/><sheet name="Outputs" r:id="rId3"/><sheet name="Inputs" r:id="rId4"/></sheets></workbook>"#;
const RELATIONSHIPS: &str = r#"<Relationships><Relationship Id="rId1" Target="worksheets/sheet1.xml"/><Relationship Id="rId2" Target="worksheets/sheet2.xml"/><Relationship Id="rId3" Target="worksheets/sheet3.xml"/><Relationship Id="rId4" Target="worksheets/sheet4.xml"/></Relationships>"#;
const GENERAL: &str = r#"<worksheet><sheetData><row><c r="A1" t="inlineStr"><is><t>General information</t></is></c></row><row><c r="A2" t="inlineStr"><is><t>Name</t></is></c><c r="B2" t="inlineStr"><is><t>Steel making</t></is></c></row></sheetData></worksheet>"#;
const FLOWS: &str = r#"<worksheet><sheetData><row><c r="A1" t="inlineStr"><is><t>Name</t></is></c><c r="B1" t="inlineStr"><is><t>Category</t></is></c></row><row><c r="A2" t="inlineStr"><is><t>Steel</t></is></c><c r="B2" t="inlineStr"><is><t>metals</t></is></c></row></sheetData></worksheet>"#;
const OUTPUTS: &str = r#"<worksheet><sheetData><row><c r="A1" t="inlineStr"><is><t>Flow</t></is></c><c r="B1" t="inlineStr"><is><t>Category</t></is></c><c r="C1" t="inlineStr"><is><t>Amount</t></is></c></row><row><c r="A2" t="inlineStr"><is><t>Steel</t></is></c><c r="B2" t="inlineStr"><is><t>metals</t></is></c><c r="C2" t="inlineStr"><is><t>2</t></is></c></row></sheetData></worksheet>"#;
const INPUTS: &str = r#"<worksheet><sheetData><row><c r="A1" t="inlineStr"><is><t>Flow</t></is></c></row><row><c r="A2" t="inlineStr"><is><t>Water</t></is></c></row></sheetData></worksheet>"#;

fn book(general: &str) -> Vec<u8> {
    archive(&[
        ("xl/workbook.xml", WORKBOOK),
        ("xl/_rels/workbook.xml.rels", RELATIONSHIPS),
        ("xl/worksheets/sheet1.xml", general),
        ("xl/worksheets/sheet2.xml", FLOWS),
        ("xl/worksheets/sheet3.xml", OUTPUTS),
        ("xl/worksheets/sheet4.xml", INPUTS),
    ])
}

#[test]
fn workbook_gives_process_flows_and_exchanges() {
    let import = read_workbook(&book(GENERAL), "book.xlsx", 1 << 20, &Vec::new()).unwrap();
    let process = import.process.unwrap();
    assert_eq!(process.name.as_deref(), Some("Steel making"));
    assert_eq!(import.flows.len(), 3);
    assert_eq!(import.flows[0].name.as_deref(), Some("Steel"));
    // The output row finds the flow of the Flows sheet by its key.
    assert_eq!(import.flows[1].internal_id, import.flows[0].internal_id);
    assert_eq!(import.flows[2].name.as_deref(), Some("Water"));
    assert_ne!(import.flows[2].internal_id, import.flows[0].internal_id);
    assert_eq!(import.exchanges.len(), 2);
    let output = &import.exchanges[0];
    assert!(matches!(output.get("isInput"), Some(tidas_tools::json::JsonValue::Bool(false))));
    assert!(matches!(output.get("amount"), Some(tidas_tools::json::JsonValue::String(s)) if s == "2"));
    assert!(matches!(import.exchanges[1].get("isInput"), Some(tidas_tools::json::JsonValue::Bool(true))));
}

#[test]
fn workbook_without_general_fields_imports_nothing() {
    let general = r#"<worksheet><sheetData><row><c r="A1" t="inlineStr"><is><t>Other</t></is></c></row></sheetData></worksheet>"#;
    let import = read_workbook(&book(general), "book.xlsx", 1 << 20, &Vec::new()).unwrap();
    assert!(import.process.is_none());
    assert!(import.flows.is_empty());
    assert!(import.exchanges.is_empty());
}

#[test]
fn workbook_errors_name_the_failing_step() {
    let missing = archive(&[("xl/workbook.xml", WORKBOOK)]);
    assert!(matches!(read_workbook(&missing, "book.xlsx", 1 << 20, &Vec::new()), Err(WorkbookError::Zip(_))));
    let no_general = archive(&[
        ("xl/workbook.xml", r#"<workbook><sheets/></workbook>"#),
        ("xl/_rels/workbook.xml.rels", RELATIONSHIPS),
    ]);
    assert!(matches!(
        read_workbook(&no_general, "book.xlsx", 1 << 20, &Vec::new()),
        Err(WorkbookError::MissingGeneralInformation)
    ));
    let broken = archive(&[("xl/workbook.xml", "<workbook>"), ("xl/_rels/workbook.xml.rels", RELATIONSHIPS)]);
    assert!(matches!(read_workbook(&broken, "book.xlsx", 1 << 20, &Vec::new()), Err(WorkbookError::Xml(_))));
    assert!(matches!(read_workbook(&book(GENERAL), "book.xlsx", 10, &Vec::new()), Err(WorkbookError::EntryTooLarge)));
}
