use std::io::Write;

use tidas_tools::workbook_reader::{
    WorkbookError, general_information, read_workbook_entry, shared_strings, sheet_rows, table_rows,
    workbook_layout,
};
use tidas_tools::xml::XmlNode;

fn archive(entries: &[(&str, &str)]) -> Vec<u8> {
    let mut writer = zip::ZipWriter::new(std::io::Cursor::new(Vec::new()));
    for (name, content) in entries {
        writer.start_file(*name, zip::write::SimpleFileOptions::default()).unwrap();
        writer.write_all(content.as_bytes()).unwrap();
    }
    writer.finish().unwrap().into_inner()
}

const WORKBOOK: &str = r#"<workbook xmlns:r="urn:r"><sheets><sheet name="General information" r:id="rId1"/><sheet name="Flows" r:id="rId2"/><sheet name="Orphan" r:id="rId9"/></sheets></workbook>"#;
const RELATIONSHIPS: &str = r#"<Relationships><Relationship Id="rId1" Target="worksheets/sheet1.xml"/><Relationship Id="rId2" Target="/xl/worksheets/sheet2.xml"/></Relationships>"#;
const SHARED: &str = r#"<sst><si><t> General information </t></si><si><r><t>Na</t></r><r><t>me</t></r></si><si><t>Steel</t></si></sst>"#;
const GENERAL: &str = r#"<worksheet><sheetData><row><c r="A1" t="s"><v>0</v></c></row><row><c r="A2" t="s"><v>1</v></c><c r="B2" t="s"><v>2</v></c></row><row><c r="A3" t="inlineStr"><is><t>UUID</t></is></c><c r="C3"><v>x</v></c></row><row><c r="A4"><v>Category</v></c><c r="B4"><v> a/b </v></c></row></sheetData></worksheet>"#;

#[test]
fn workbook_entries_layout_and_shared_strings_are_read() {
    let bytes = archive(&[
        ("xl/workbook.xml", WORKBOOK),
        ("xl/_rels/workbook.xml.rels", RELATIONSHIPS),
        ("xl/sharedStrings.xml", SHARED),
    ]);
    let workbook = XmlNode::parse(&read_workbook_entry(&bytes, "xl/workbook.xml", 1 << 20).unwrap()).unwrap();
    let relationships =
        XmlNode::parse(&read_workbook_entry(&bytes, "xl/_rels/workbook.xml.rels", 1 << 20).unwrap()).unwrap();
    let layout = workbook_layout(&workbook, &relationships).unwrap();
    assert_eq!(layout.get("General information").map(String::as_str), Some("xl/worksheets/sheet1.xml"));
    assert_eq!(layout.get("Flows").map(String::as_str), Some("xl/worksheets/sheet2.xml"));
    assert!(layout.get("Orphan").is_none());
    let shared = shared_strings(&XmlNode::parse(&read_workbook_entry(&bytes, "xl/sharedStrings.xml", 1 << 20).unwrap()).unwrap());
    assert_eq!(shared, vec!["General information".to_owned(), "Name".to_owned(), "Steel".to_owned()]);
    assert!(matches!(read_workbook_entry(&bytes, "xl/missing.xml", 1 << 20), Err(WorkbookError::Zip(_))));
    assert!(matches!(read_workbook_entry(&bytes, "xl/workbook.xml", 10), Err(WorkbookError::EntryTooLarge)));
}

#[test]
fn unsafe_sheet_targets_are_refused() {
    let workbook = XmlNode::parse(WORKBOOK.as_bytes()).unwrap();
    let relationships =
        XmlNode::parse(br#"<Relationships><Relationship Id="rId1" Target="../secret.xml"/></Relationships>"#).unwrap();
    assert!(matches!(workbook_layout(&workbook, &relationships), Err(WorkbookError::UnsafeTarget)));
}

#[test]
fn sheet_rows_resolve_cells_by_column_and_type() {
    let shared = vec!["General information".to_owned(), "Name".to_owned(), "Steel".to_owned()];
    let rows = sheet_rows(GENERAL.as_bytes(), &shared).unwrap();
    assert_eq!(rows.len(), 4);
    assert_eq!(rows[0], vec![Some("General information".to_owned())]);
    assert_eq!(rows[1], vec![Some("Name".to_owned()), Some("Steel".to_owned())]);
    assert_eq!(rows[2], vec![Some("UUID".to_owned()), None, Some("x".to_owned())]);
    assert_eq!(rows[3], vec![Some("Category".to_owned()), Some("a/b".to_owned())]);
    let general = general_information(&rows);
    assert_eq!(general.get("name").map(String::as_str), Some("Steel"));
    assert_eq!(general.get("category").map(String::as_str), Some("a/b"));
    assert!(general.get("uuid").is_none());
    assert!(sheet_rows(b"<worksheet><row>", &shared).unwrap().is_empty());
    assert!(sheet_rows(b"<worksheet></row>", &shared).is_err());
}

#[test]
fn table_rows_are_keyed_by_the_first_row_with_a_cell() {
    let rows = vec![
        vec![None, None],
        vec![Some(" Flow ".to_owned()), Some("Amount".to_owned()), None],
        vec![None],
        vec![Some("Steel".to_owned()), Some(" 2 ".to_owned()), Some("ignored".to_owned())],
    ];
    let table = table_rows(&rows);
    assert_eq!(table.len(), 1);
    assert_eq!(table[0].get("flow").map(String::as_str), Some("Steel"));
    assert_eq!(table[0].get("amount").map(String::as_str), Some("2"));
    assert!(table[0].get("").is_none());
}
