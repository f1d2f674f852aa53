use tidas_tools::json::JsonValue;
use tidas_tools::simapro::{
    decode_export, exchange, exchange_indexes, first, flow_entity, flow_type, lines_of,
    process_blocks, process_entity, separator,
};
use tidas_tools::writers::stable_id;

const FIXTURE: &[u8] = b"{SimaPro 9.5}\n{CSV separator: semicolon}\n\nProcess\n\nProcess name\nSteel production\n\nComment\nfixture\n\nProducts\nSteel;kg;1\n\nEmissions to air\nCarbon dioxide;air;kg;2.5\n\nEnd\n";

#[test]
fn export_text_is_split_into_lines_like_str_lines() {
    let text = decode_export(b"a\r\nb\rc\n\nd\n");
    assert_eq!(lines_of(&text), vec!["a", "b\rc", "", "d"]);
    assert_eq!(lines_of(""), Vec::<String>::new());
    assert_eq!(lines_of("x\r"), vec!["x\r"]);
    assert_eq!(decode_export(b"caf\xe9"), "caf\u{e9}");
}

#[test]
fn separator_comes_from_the_first_declaration() {
    let lines = |text: &str| lines_of(text);
    assert_eq!(separator(&lines("{CSV separator: Comma}\n")), ',');
    assert_eq!(separator(&lines("{CSV separator: semicolon}\n")), ';');
    assert_eq!(separator(&lines("{CSV separator:}\n{CSV separator: Tab}\n")), 'T');
    assert_eq!(separator(&lines("header\n")), ';');
    let mut late = "x\n".repeat(30);
    late.push_str("{CSV separator: comma}\n");
    assert_eq!(separator(&lines(&late)), ';');
}

#[test]
fn fixture_blocks_sections_and_exchanges() {
    let text = decode_export(FIXTURE);
    let lines = lines_of(&text);
    assert_eq!(separator(&lines), ';');
    let blocks = process_blocks(&lines);
    assert_eq!(blocks.len(), 1);
    let block = &blocks[0];
    assert_eq!(block.index, 1);
    let names: Vec<&str> = block.sections.iter().map(|section| section.name.as_str()).collect();
    assert_eq!(names, vec!["Process name", "Comment", "Products", "Emissions to air"]);
    assert_eq!(first(&block.sections, "Process name"), Some("Steel production"));

    let products = &block.sections[2];
    let steel = exchange(&products.name, &products.rows[0], ';', 1).unwrap();
    assert_eq!(steel.flow_name, "Steel");
    assert_eq!(steel.amount_text, "1");
    assert_eq!(steel.unit_name, Some("kg".to_owned()));
    assert!(!steel.is_input);
    let air = &block.sections[3];
    let co2 = exchange(&air.name, &air.rows[0], ';', 2).unwrap();
    assert_eq!(co2.amount_text, "2.5");
    assert_eq!(co2.unit_name, Some("kg".to_owned()));
    assert_eq!(co2.internal_id, 2);

    let process = process_entity(&block.sections, "source.csv", block.index);
    assert_eq!(process.name.as_deref(), Some("Steel production"));
    assert_eq!(process.internal_id, stable_id("simapro/process/source.csv/1/Steel production"));
    assert!(matches!(process.raw.get("description"), Some(JsonValue::String(text)) if text == "fixture"));

    let flow = flow_entity(&air.name, &co2, "source.csv");
    assert_eq!(flow.internal_id, stable_id("simapro/flow/source.csv/Emissions to air/Carbon dioxide"));
    assert_eq!(flow.category_path, vec!["Emissions to air".to_owned()]);
    assert!(matches!(flow.raw.get("flowType"), Some(JsonValue::String(text)) if text == "ELEMENTARY_FLOW"));
}

#[test]
fn blocks_end_at_end_lines_or_the_end_of_text() {
    let lines = lines_of("Process\nProducts\nA;kg;1\nEnd\nnoise\n  Process  \nProducts\nB;kg;2\n\nProducts\nC;kg;3\n");
    let blocks = process_blocks(&lines);
    assert_eq!(blocks.len(), 2);
    assert_eq!(blocks[0].index, 1);
    assert_eq!(blocks[0].sections[0].rows, vec!["A;kg;1".to_owned()]);
    assert_eq!(blocks[1].index, 2);
    assert_eq!(blocks[1].sections.len(), 1);
    assert_eq!(blocks[1].sections[0].rows, vec!["C;kg;3".to_owned()]);
    assert!(process_blocks(&lines_of("{SimaPro 9.5}\n")).is_empty());
    let unnamed = process_entity(&blocks[1].sections, "s", 2);
    assert_eq!(unnamed.name.as_deref(), Some("SimaPro process 2"));
    assert!(matches!(unnamed.raw.get("description"), Some(JsonValue::String(text)) if text == "Imported from SimaPro CSV."));
}

#[test]
fn exchange_layouts_and_flow_types() {
    assert_eq!(exchange_indexes("Resources"), Some((3, 2, true)));
    assert_eq!(exchange_indexes("Avoided products"), Some((2, 1, false)));
    assert_eq!(exchange_indexes("Comment"), None);
    assert_eq!(flow_type("Waste to treatment"), "WASTE_FLOW");
    assert_eq!(flow_type("Social issues"), "ELEMENTARY_FLOW");
    assert_eq!(flow_type("Products"), "PRODUCT_FLOW");
    assert!(exchange("Comment", "x;y", ';', 1).is_none());
    assert!(exchange("Products", " ;kg;1", ';', 1).is_none());
    let short = exchange("Materials/fuels", "Coal", ';', 3).unwrap();
    assert_eq!(short.amount_text, "0");
    assert_eq!(short.unit_name, None);
    assert!(short.is_input);
    let multiline = exchange("Products", " Steel\u{7f}bar ,kg,4", ',', 1).unwrap();
    assert_eq!(multiline.flow_name, "Steel\nbar");
}
