use pgml_bridge::config::PipelineSyncData;
use pgml_bridge::value::{BridgeError, HostValue, Json, Number};

fn s(x: &str) -> String {
    x.to_string()
}

#[test]
fn config_round_trips_through_host_form() {
    let mut c = PipelineSyncData::new();
    c.insert(s("model"), Json::String(s("intfloat/e5-small")));
    c.insert(s("chunk_size"), Json::Number(Number::Int(1500)));
    let h = c.into_py();
    let back = PipelineSyncData::extract(&h).unwrap();
    assert_eq!(
        back.entries,
        vec![
            (s("model"), Json::String(s("intfloat/e5-small"))),
            (s("chunk_size"), Json::Number(Number::Int(1500))),
        ]
    );
}

#[test]
fn config_insert_replaces_in_place() {
    let mut c = PipelineSyncData::new();
    c.insert(s("a"), Json::Number(Number::Int(1)));
    c.insert(s("b"), Json::Number(Number::Int(2)));
    c.insert(s("a"), Json::Bool(true));
    assert_eq!(
        c.entries,
        vec![(s("a"), Json::Bool(true)), (s("b"), Json::Number(Number::Int(2)))]
    );
}

#[test]
fn config_from_non_object_is_rejected() {
    assert_eq!(
        PipelineSyncData::extract(&HostValue::List(vec![])),
        Err(BridgeError::UnsupportedType)
    );
    assert_eq!(
        PipelineSyncData::from_json(Json::Null),
        Err(BridgeError::UnsupportedType)
    );
}

#[test]
fn config_extract_passes_conversion_errors_on() {
    let h = HostValue::Dict(vec![(
        HostValue::Str(s("x")),
        HostValue::Float(f64::NAN.to_bits()),
    )]);
    assert_eq!(PipelineSyncData::extract(&h), Err(BridgeError::InvalidNumber));
}

#[test]
fn config_into_json_is_object() {
    let mut c = PipelineSyncData::new();
    c.insert(s("k"), Json::Null);
    assert_eq!(c.into_json(), Json::Object(vec![(s("k"), Json::Null)]));
}
