use tidas_tools::json::JsonValue;
use tidas_tools::model::CanonicalEntity;
use tidas_tools::openlca_workbook::{
    column_index, exchange_flow_key, exchange_from_row, flow_from_row, flow_key, flow_type, process_entity,
    resolve_cell, resolve_xl_target, split_path, truthy,
};
use tidas_tools::table::TextMap;
use tidas_tools::writers::stable_id;

fn row(cells: &[(&str, &str)]) -> TextMap<String> {
    let mut map = TextMap::new();
    for (k, v) in cells {
        map.insert((*k).to_owned(), (*v).to_owned());
    }
    map
}

fn member<'a>(value: &'a JsonValue, key: &str) -> Option<&'a JsonValue> {
    match value {
        JsonValue::Object(members) => members.iter().find(|(k, _)| k == key).map(|(_, v)| v),
        _ => None,
    }
}

fn text_of(value: Option<&JsonValue>) -> Option<&str> {
    match value {
        Some(JsonValue::String(s)) => Some(s.as_str()),
        _ => None,
    }
}

#[test]
fn cells_columns_and_targets_are_read_as_the_workbook_writes_them() {
    assert_eq!(column_index("A1"), 0);
    assert_eq!(column_index("Z9"), 25);
    assert_eq!(column_index("AA10"), 26);
    assert_eq!(column_index("ab3"), 27);
    assert_eq!(column_index("17"), 0);
    let shared = vec!["zero".to_owned(), "one".to_owned()];
    assert_eq!(resolve_cell("s", " 1 ", &shared), Some("one".to_owned()));
    assert_eq!(resolve_cell("s", "7", &shared), None);
    assert_eq!(resolve_cell("s", "x", &shared), None);
    assert_eq!(resolve_cell("b", "1", &shared), Some("true".to_owned()));
    assert_eq!(resolve_cell("b", "0", &shared), Some("false".to_owned()));
    assert_eq!(resolve_cell("n", " 2.5 ", &shared), Some("2.5".to_owned()));
    assert_eq!(resolve_cell("n", "   ", &shared), None);
    assert_eq!(resolve_xl_target("/xl/worksheets/sheet1.xml").unwrap(), "xl/worksheets/sheet1.xml");
    assert_eq!(resolve_xl_target("worksheets/sheet2.xml").unwrap(), "xl/worksheets/sheet2.xml");
    assert!(resolve_xl_target("../secret.xml").is_err());
}

#[test]
fn keys_types_flags_and_paths() {
    assert_eq!(flow_key(" Steel ", " Metals/Iron "), "steel|metals/iron");
    assert_eq!(flow_type(Some(" waste flow")), "WASTE_FLOW");
    assert_eq!(flow_type(Some("Product")), "PRODUCT_FLOW");
    assert_eq!(flow_type(Some("Elementary")), "ELEMENTARY_FLOW");
    assert_eq!(flow_type(None), "ELEMENTARY_FLOW");
    assert!(truthy(" Yes "));
    assert!(truthy("x"));
    assert!(!truthy("no"));
    assert_eq!(split_path(" a / /b/"), vec!["a".to_owned(), "b".to_owned()]);
}

#[test]
fn the_general_information_becomes_the_process() {
    let info = row(&[("name", "Steel making"), ("uuid", "not-a-uuid"), ("category", "Metals/Steel")]);
    let process = process_entity(&info, "book.xlsx");
    assert_eq!(process.entity_type, "processes");
    assert_eq!(process.internal_id, stable_id("openlca-process-xlsx/book.xlsx/Steel making"));
    assert_eq!(process.external_id, None);
    assert_eq!(process.category_path, vec!["Metals".to_owned(), "Steel".to_owned()]);
    assert_eq!(text_of(member(&process.raw, "description")), Some("Imported from openLCA XLSX."));
    let declared = process_entity(&row(&[("uuid", "11111111-1111-4111-8111-111111111111")]), "book.xlsx");
    assert_eq!(declared.internal_id, "11111111-1111-4111-8111-111111111111");
    assert_eq!(declared.name.as_deref(), Some("openLCA process"));
}

#[test]
fn flows_rows_and_exchange_rows_are_mapped() {
    let flows_row = row(&[("name", "Steel"), ("category", "Metals"), ("type", "Product flow"), ("mix and location types", "at plant"), ("flow properties", "  ")]);
    let flow = flow_from_row(&flows_row, "book.xlsx").unwrap();
    assert_eq!(flow.external_id.as_deref(), Some("steel|metals"));
    assert_eq!(text_of(member(&flow.raw, "flowType")), Some("PRODUCT_FLOW"));
    let name = member(&flow.raw, "flowName").unwrap();
    assert_eq!(text_of(member(name, "mixAndLocationTypes")), Some("at plant"));
    assert!(member(name, "flowProperties").is_none());
    assert!(flow_from_row(&row(&[("category", "x")]), "book.xlsx").is_none());

    let exchange_row = row(&[("flow", "Steel"), ("category", "Metals"), ("amount", "2"), ("unit", "kg"), ("is reference?", "yes")]);
    assert_eq!(exchange_flow_key(&exchange_row).as_deref(), Some("steel|metals"));
    let (known_flow, x) = exchange_from_row(&exchange_row, "book.xlsx", false, 1, Some(flow)).unwrap();
    assert_eq!(text_of(member(&known_flow.raw, "unitName")), Some("kg"));
    assert!(matches!(x.get("internalId"), Some(JsonValue::Number(n)) if n == "1"));
    assert_eq!(text_of(x.get("flowRefId")), Some(known_flow.internal_id.as_str()));
    assert_eq!(text_of(x.get("flowName")), Some("Steel"));
    assert_eq!(text_of(x.get("amount")), Some("2"));
    assert!(matches!(x.get("isQuantitativeReference"), Some(JsonValue::Bool(true))));
    assert!(matches!(x.get("isInput"), Some(JsonValue::Bool(false))));

    let (new_flow, y) = exchange_from_row(&row(&[("flow", "Water")]), "book.xlsx", true, 2, None).unwrap();
    assert_eq!(new_flow.internal_id, stable_id("openlca-process-xlsx/exchange-flow/book.xlsx/Water/"));
    assert_eq!(text_of(member(&new_flow.raw, "flowType")), Some("PRODUCT_FLOW"));
    assert_eq!(text_of(y.get("amount")), Some("0"));
    assert!(y.get("unitName").is_none());
    let none: Option<CanonicalEntity> = None;
    assert!(exchange_from_row(&row(&[("amount", "1")]), "book.xlsx", true, 3, none).is_none());
}
