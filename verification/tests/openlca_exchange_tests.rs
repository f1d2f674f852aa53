use tidas_tools::json::JsonValue;
use tidas_tools::openlca_exchange::{data_quality_indicators, exchange, process_exchanges, uncertainty_dispersion};

fn text(value: &str) -> JsonValue {
    JsonValue::String(value.to_owned())
}

fn number(value: &str) -> JsonValue {
    JsonValue::Number(value.to_owned())
}

fn object(members: Vec<(&str, JsonValue)>) -> JsonValue {
    JsonValue::Object(members.into_iter().map(|(k, v)| (k.to_owned(), v)).collect())
}

fn member<'a>(value: &'a JsonValue, key: &str) -> Option<&'a JsonValue> {
    match value {
        JsonValue::Object(members) => members.iter().find(|(k, _)| k == key).map(|(_, v)| v),
        _ => None,
    }
}

fn text_of(value: Option<&JsonValue>) -> Option<&str> {
    match value {
        Some(JsonValue::String(s)) => Some(s.as_str()),
        _ => None,
    }
}

fn source_exchange(internal_id: &str, input: bool, flow: &str, amount: &str) -> JsonValue {
    object(vec![
        ("internalId", number(internal_id)),
        ("isInput", JsonValue::Bool(input)),
        ("flow", object(vec![("@id", text(flow)), ("name", text(flow))])),
        ("amount", number(amount)),
    ])
}

fn factor(exchange_id: &str, product: &str, value: &str) -> JsonValue {
    object(vec![
        ("exchange", object(vec![("internalId", number(exchange_id))])),
        ("product", object(vec![("@id", text(product))])),
        ("value", number(value)),
    ])
}

#[test]
fn uncertainty_and_allocation_match_the_frozen_python_rules() {
    assert_eq!(
        uncertainty_dispersion(&object(vec![
            ("distributionType", text("LOG_NORMAL_DISTRIBUTION")),
            ("geomSd", text("1.05")),
        ])),
        Some("1.102".to_owned())
    );
    assert_eq!(
        uncertainty_dispersion(&object(vec![("distributionType", text("NORMAL_DISTRIBUTION")), ("sd", number("3"))])),
        Some("6.000".to_owned())
    );
    assert_eq!(
        uncertainty_dispersion(&object(vec![
            ("distributionType", text("LOG_NORMAL_DISTRIBUTION")),
            ("geomSd", number("11")),
        ])),
        None
    );

    let process = object(vec![
        ("@type", text("Process")),
        ("@id", text("bbbbbbbb-bbbb-4bbb-8bbb-bbbbbbbbbbbb")),
        ("name", text("allocation fixture")),
        (
            "exchanges",
            JsonValue::Array(vec![
                source_exchange("7", true, "in-x", "5"),
                source_exchange("1", false, "prod-a", "1"),
                source_exchange("2", false, "prod-b", "1"),
            ]),
        ),
        (
            "allocationFactors",
            JsonValue::Array(vec![factor("7", "prod-a", "0.6"), factor("7", "prod-b", "0.4"), factor("7", "prod-a", "0")]),
        ),
    ]);
    let exchanges = process_exchanges(&process);
    assert_eq!(exchanges.len(), 3);
    match exchanges[0].get("allocations") {
        Some(JsonValue::Array(items)) => {
            assert_eq!(items.len(), 2);
            assert_eq!(text_of(member(&items[0], "internalReferenceToCoProduct")), Some("2"));
            assert_eq!(text_of(member(&items[0], "allocatedFraction")), Some("60"));
            assert_eq!(text_of(member(&items[1], "internalReferenceToCoProduct")), Some("3"));
            assert_eq!(text_of(member(&items[1], "allocatedFraction")), Some("40"));
        }
        _ => panic!("the input exchange is allocated"),
    }
    assert!(exchanges[1].get("allocations").is_none());

    let indicators = data_quality_indicators(
        "(2;1)",
        &object(vec![(
            "indicators",
            JsonValue::Array(vec![
                object(vec![("position", number("1")), ("name", text("Process Review"))]),
                object(vec![("position", number("2")), ("name", text("Process Completeness"))]),
            ]),
        )]),
    );
    assert_eq!(indicators.len(), 2);
    assert_eq!(text_of(member(&indicators[0], "@name")), Some("Methodological appropriateness and consistency"));
    assert_eq!(text_of(member(&indicators[0], "@value")), Some("Good"));
    assert_eq!(text_of(member(&indicators[1], "@name")), Some("Completeness"));
    assert_eq!(text_of(member(&indicators[1], "@value")), Some("Very good"));
}

#[test]
fn exchanges_read_flow_unit_property_provider_location_and_uncertainty() {
    let source = object(vec![
        ("flow", object(vec![("@id", text("f")), ("refUnit", text("kg"))])),
        ("amount", number("2.5")),
        ("description", text("note")),
        ("flowProperty", object(vec![("@id", text("p")), ("name", text("Mass"))])),
        ("defaultProvider", object(vec![("@id", text("prov"))])),
        ("location", object(vec![("code", text("CN"))])),
        (
            "uncertainty",
            object(vec![
                ("distributionType", text("TRIANGLE_DISTRIBUTION")),
                ("minimum", number("1")),
                ("maximum", text("4")),
            ]),
        ),
    ]);
    let x = exchange(&source, 4).unwrap();
    assert!(matches!(x.get("internalId"), Some(JsonValue::Number(n)) if n == "5"));
    assert_eq!(text_of(x.get("flowRefId")), Some("f"));
    assert_eq!(text_of(x.get("flowName")), Some("Flow"));
    assert!(matches!(x.get("isInput"), Some(JsonValue::Bool(false))));
    assert_eq!(text_of(x.get("amount")), Some("2.5"));
    assert_eq!(text_of(x.get("generalComment")), Some("note"));
    assert_eq!(text_of(x.get("unitName")), Some("kg"));
    assert_eq!(text_of(x.get("flowPropertyRefId")), Some("p"));
    assert_eq!(text_of(x.get("flowPropertyName")), Some("Mass"));
    assert_eq!(text_of(x.get("providerRefId")), Some("prov"));
    assert_eq!(text_of(x.get("location")), Some("CN"));
    assert!(x.get("sourceLocation").is_some());
    assert_eq!(text_of(x.get("uncertaintyDistributionType")), Some("triangular"));
    assert_eq!(text_of(x.get("minimumAmount")), Some("1"));
    assert_eq!(text_of(x.get("maximumAmount")), Some("4"));
    assert!(x.get("relativeStandardDeviation95In").is_none());
    let trace = x.get("sourceTrace").unwrap();
    assert_eq!(text_of(member(trace, "format")), Some("openlca-jsonld"));
    assert!(exchange(&object(vec![("flow", object(vec![("name", text("x"))]))]), 0).is_none());
    assert!(exchange(&text("not an exchange"), 0).is_none());
}

#[test]
fn quality_scores_keep_the_first_rating_of_each_indicator() {
    let system = object(vec![(
        "indicators",
        JsonValue::Array(vec![
            object(vec![("position", number("1")), ("name", text("Reliability"))]),
            object(vec![("position", number("2")), ("name", text("Temporal correlation"))]),
            object(vec![("position", number("3")), ("name", text("Time span"))]),
        ]),
    )]);
    let indicators = data_quality_indicators(" (1; x ;3;4;9) ", &system);
    let pairs: Vec<(&str, &str)> = indicators
        .iter()
        .map(|v| (text_of(member(v, "@name")).unwrap(), text_of(member(v, "@value")).unwrap()))
        .collect();
    assert_eq!(pairs, vec![("Precision", "Very good"), ("Time representativeness", "Fair")]);
    assert!(data_quality_indicators("", &system).is_empty());
}

#[test]
fn deviations_beyond_the_decimal_limits_give_no_dispersion() {
    assert_eq!(
        uncertainty_dispersion(&object(vec![
            ("distributionType", text("NORMAL_DISTRIBUTION")),
            ("sd", text("1E-2000000")),
        ])),
        None
    );
    assert_eq!(
        uncertainty_dispersion(&object(vec![("distributionType", text("NORMAL_DISTRIBUTION")), ("sd", text("50"))])),
        Some("100.000".to_owned())
    );
    assert_eq!(
        uncertainty_dispersion(&object(vec![("distributionType", text("NORMAL_DISTRIBUTION")), ("sd", text("50.001"))])),
        None
    );
}
