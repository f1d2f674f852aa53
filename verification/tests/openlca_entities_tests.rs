use tidas_tools::json::JsonValue;
use tidas_tools::openlca_entities::{openlca_entities, openlca_entity};
use tidas_tools::writers::stable_id;

fn text(value: &str) -> JsonValue {
    JsonValue::String(value.to_owned())
}

fn object(members: Vec<(&str, JsonValue)>) -> JsonValue {
    JsonValue::Object(members.into_iter().map(|(k, v)| (k.to_owned(), v)).collect())
}

fn member<'a>(value: &'a JsonValue, key: &str) -> Option<&'a JsonValue> {
    match value {
        JsonValue::Object(members) => members.iter().find(|(k, _)| k == key).map(|(_, v)| v),
        _ => None,
    }
}

fn text_of(value: Option<&JsonValue>) -> Option<&str> {
    match value {
        Some(JsonValue::String(s)) => Some(s.as_str()),
        _ => None,
    }
}

#[test]
fn flows_keep_type_reference_property_unit_and_name_parts() {
    let flow = object(vec![
        ("@type", text("Flow")),
        ("@id", text("f1")),
        ("name", text("Steel")),
        ("category", text(" metals / / iron ")),
        ("cas", text("7439-89-6")),
        ("refUnit", text("kg")),
        ("mixAndLocationTypes", text("at plant")),
        (
            "flowProperties",
            JsonValue::Array(vec![
                object(vec![("flowProperty", object(vec![("@id", text("vol")), ("name", text("Volume"))]))]),
                object(vec![
                    ("isRefFlowProperty", JsonValue::Bool(true)),
                    ("flowProperty", object(vec![("@id", text("mass")), ("name", text("Mass"))])),
                ]),
            ]),
        ),
    ]);
    let entity = openlca_entity(&flow, "pkg/flows/f1.json").unwrap();
    assert_eq!(entity.entity_type, "flows");
    assert_eq!(entity.internal_id, "f1");
    assert_eq!(entity.external_id.as_deref(), Some("f1"));
    assert_eq!(entity.name.as_deref(), Some("Steel"));
    assert_eq!(entity.category_path, vec!["metals".to_owned(), "iron".to_owned()]);
    assert_eq!(text_of(member(&entity.raw, "flowType")), Some("PRODUCT_FLOW"));
    assert_eq!(text_of(member(&entity.raw, "CASNumber")), Some("7439-89-6"));
    assert_eq!(text_of(member(&entity.raw, "flowPropertyRefId")), Some("mass"));
    assert_eq!(text_of(member(&entity.raw, "flowPropertyName")), Some("Mass"));
    assert_eq!(text_of(member(&entity.raw, "unitName")), Some("kg"));
    let name = member(&entity.raw, "flowName").unwrap();
    assert_eq!(text_of(member(name, "mixAndLocationTypes")), Some("at plant"));
    assert!(member(name, "treatmentStandardsRoutes").is_none());
    let trace = member(&entity.raw, "sourceTrace").unwrap();
    assert_eq!(text_of(member(trace, "sourceObject")), Some("Flow"));
}

#[test]
fn objects_without_an_id_get_a_derived_identity_and_unknown_types_are_skipped() {
    let actor = object(vec![("@type", text("Actor")), ("name", text("ACME")), ("email", text("a@b.c"))]);
    let entity = openlca_entity(&actor, "src").unwrap();
    assert_eq!(entity.entity_type, "contacts");
    assert_eq!(entity.internal_id, stable_id("openlca/Actor/src/ACME"));
    assert_eq!(entity.external_id, None);
    assert_eq!(text_of(member(&entity.raw, "email")), Some("a@b.c"));
    assert!(member(&entity.raw, "description").is_none());
    assert!(openlca_entity(&object(vec![("@type", text("ImpactMethod"))]), "src").is_none());
    assert!(openlca_entity(&object(vec![("name", text("x"))]), "src").is_none());
    let unnamed = openlca_entity(&object(vec![("@type", text("UnitGroup"))]), "src").unwrap();
    assert_eq!(unnamed.name.as_deref(), Some("Unnamed openLCA entity"));
    assert!(matches!(member(&unnamed.raw, "units"), Some(JsonValue::Array(items)) if items.is_empty()));
}

#[test]
fn processes_keep_documentation_year_and_location() {
    let process = object(vec![
        ("@type", text("Process")),
        ("@id", text("p1")),
        ("processType", text("UNIT_PROCESS")),
        ("version", text("01.00.000")),
        (
            "processDocumentation",
            object(vec![
                ("validFrom", text("on 2019-05-01")),
                ("timeDescription", text("survey")),
                ("geographyDescription", text("Swiss")),
            ]),
        ),
        ("location", object(vec![("@id", text("loc")), ("code", text("CH"))])),
    ]);
    let entity = openlca_entity(&process, "src").unwrap();
    assert_eq!(entity.entity_type, "processes");
    let raw = &entity.raw;
    assert_eq!(text_of(member(raw, "description")), Some("Imported from openLCA JSON-LD."));
    assert_eq!(text_of(member(raw, "sourceProcessType")), Some("UNIT_PROCESS"));
    assert_eq!(text_of(member(raw, "version")), Some("01.00.000"));
    assert_eq!(text_of(member(raw, "timeDescription")), Some("survey"));
    assert_eq!(text_of(member(raw, "locationDescription")), Some("Swiss"));
    assert!(matches!(member(raw, "referenceYear"), Some(JsonValue::Number(n)) if n == "2019"));
    assert_eq!(text_of(member(raw, "location")), Some("CH"));
    assert_eq!(text_of(member(raw, "locationRefId")), Some("loc"));
    assert!(member(raw, "exchanges").is_none());
}

#[test]
fn documents_hold_one_object_or_a_list() {
    let list = JsonValue::Array(vec![
        object(vec![("@type", text("Location")), ("@id", text("l")), ("code", text("CH"))]),
        text("ignored"),
        object(vec![("@type", text("FlowProperty")), ("@id", text("fp")), ("unitGroup", object(vec![("@id", text("ug")), ("name", text("Units of mass"))]))]),
    ]);
    let entities = openlca_entities(&list, "src");
    assert_eq!(entities.len(), 2);
    assert_eq!(entities[0].entity_type, "locations");
    assert_eq!(entities[1].entity_type, "flowproperties");
    assert_eq!(text_of(member(&entities[1].raw, "unitGroupRefId")), Some("ug"));
    assert_eq!(openlca_entities(&object(vec![("@type", text("Source")), ("@id", text("s"))]), "src").len(), 1);
    assert!(openlca_entities(&text("x"), "src").is_empty());
}
