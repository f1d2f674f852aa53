use tidas_tools::json::JsonValue;
use tidas_tools::model::CanonicalEntity;
use tidas_tools::openlca::provider_graph_lifecycle_model;

const FLOW: &str = "0b2f6e6a-4a1d-4a8b-9d43-0c1a2f3e4d5c";

fn text(value: &str) -> JsonValue {
    JsonValue::String(value.to_owned())
}

fn object(members: Vec<(&str, JsonValue)>) -> JsonValue {
    JsonValue::Object(
        members
            .into_iter()
            .map(|(key, value)| (key.to_owned(), value))
            .collect(),
    )
}

fn process(id: &str, kind: Option<&str>) -> CanonicalEntity {
    CanonicalEntity {
        entity_type: "processes".to_owned(),
        internal_id: id.to_owned(),
        external_id: Some(id.to_owned()),
        name: if id == "p1" { Some("First".to_owned()) } else { None },
        category_path: Vec::new(),
        raw: match kind {
            Some(kind) => object(vec![("sourceProcessType", text(kind))]),
            None => object(Vec::new()),
        },
    }
}

fn input(provider: &str, flow: &str, is_input: bool) -> JsonValue {
    object(vec![
        ("amount", text("2.5")),
        ("flowRefId", text(flow)),
        ("internalId", JsonValue::Number("3".to_owned())),
        ("isInput", JsonValue::Bool(is_input)),
        ("providerRefId", text(provider)),
    ])
}

fn member<'a>(value: &'a JsonValue, key: &str) -> &'a JsonValue {
    value.get(key).unwrap()
}

fn text_of(value: &JsonValue) -> &str {
    match value {
        JsonValue::String(s) => s.as_str(),
        JsonValue::Number(s) => s.as_str(),
        _ => "",
    }
}

#[test]
fn provider_links_become_connections_of_a_candidate_model() {
    let processes = vec![
        process("p1", Some("UNIT_PROCESS")),
        process("p2", Some("LCI_RESULT")),
        process("p3", None),
    ];
    let exchanges = vec![
        vec![
            input("p2", FLOW, true),
            input("p2", FLOW, false),
            input("elsewhere", FLOW, true),
            input("p3", "not-a-uuid", true),
        ],
        vec![],
        vec![input("p1", &FLOW.to_uppercase(), true)],
    ];
    let model = provider_graph_lifecycle_model(&processes, &exchanges).unwrap();
    assert_eq!(model.entity_type, "lifecyclemodels");
    assert_eq!(model.name.as_deref(), Some("openLCA JSON-LD provider graph"));
    assert!(model.external_id.is_none());
    let expected_id = uuid::Uuid::new_v5(
        &uuid::Uuid::NAMESPACE_URL,
        b"openlca-jsonld/lifecyclemodel/p1/p2/p3",
    )
    .to_string();
    assert_eq!(model.internal_id, expected_id);
    assert_eq!(text_of(member(&model.raw, "referenceProcessId")), "p2");
    let connections = match member(&model.raw, "connections") {
        JsonValue::Array(items) => items,
        _ => panic!("connections are an array"),
    };
    assert_eq!(connections.len(), 2);
    assert_eq!(text_of(member(&connections[0], "providerProcessId")), "p2");
    assert_eq!(text_of(member(&connections[0], "consumerProcessId")), "p1");
    assert_eq!(text_of(member(&connections[0], "amount")), "2.5");
    assert_eq!(text_of(member(&connections[0], "consumerExchangeInternalId")), "3");
    assert!(matches!(member(&connections[0], "location"), JsonValue::Null));
    assert!(matches!(member(&connections[0], "flowName"), JsonValue::Null));
    assert_eq!(text_of(member(&connections[1], "consumerProcessId")), "p3");
    let trace = member(&model.raw, "sourceTrace");
    assert_eq!(text_of(member(trace, "providerConnectionCount")), "2");
    let refs = match member(&model.raw, "processRefs") {
        JsonValue::Array(items) => items,
        _ => panic!("process references are an array"),
    };
    assert_eq!(refs.len(), 3);
    assert_eq!(text_of(member(&refs[0], "name")), "First");
    assert_eq!(text_of(member(&refs[1], "name")), "Process");
    assert!(matches!(member(&refs[2], "processType"), JsonValue::Null));
}

#[test]
fn no_model_without_two_processes_or_a_link() {
    let one = vec![process("p1", None)];
    assert!(provider_graph_lifecycle_model(&one, &vec![vec![input("p1", FLOW, true)]]).is_none());
    let two = vec![process("p1", None), process("p2", None)];
    let unlinked = vec![vec![input("p2", FLOW, false)], vec![input("p9", FLOW, true)]];
    assert!(provider_graph_lifecycle_model(&two, &unlinked).is_none());
    let first_reference = vec![vec![input("p2", FLOW, true)], vec![]];
    let model = provider_graph_lifecycle_model(&two, &first_reference).unwrap();
    assert_eq!(text_of(member(&model.raw, "referenceProcessId")), "p1");
}
