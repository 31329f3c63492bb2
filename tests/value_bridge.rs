use pgml_bridge::value::{from_host, to_host, BridgeError, HostValue, Json, Number};

fn s(x: &str) -> String {
    x.to_string()
}

fn obj(entries: Vec<(&str, Json)>) -> Json {
    Json::Object(entries.into_iter().map(|(k, v)| (s(k), v)).collect())
}

#[test]
fn scalars_convert_to_host() {
    assert_eq!(to_host(&Json::Null), HostValue::Nil);
    assert_eq!(to_host(&Json::Bool(true)), HostValue::Bool(true));
    assert_eq!(to_host(&Json::Number(Number::Int(-7))), HostValue::Int(-7));
    let bits = 2.5f64.to_bits();
    assert_eq!(to_host(&Json::Number(Number::Float(bits))), HostValue::Float(bits));
    assert_eq!(to_host(&Json::String(s("hi"))), HostValue::Str(s("hi")));
}

#[test]
fn object_round_trip_keeps_key_order() {
    let v = obj(vec![
        ("a", Json::Number(Number::Int(1))),
        ("b", Json::Number(Number::Int(2))),
    ]);
    let h = to_host(&v);
    assert_eq!(
        h,
        HostValue::Dict(vec![
            (HostValue::Str(s("a")), HostValue::Int(1)),
            (HostValue::Str(s("b")), HostValue::Int(2)),
        ])
    );
    assert_eq!(from_host(&h), Ok(v));
}

#[test]
fn object_with_keys_out_of_alphabetical_order_round_trips() {
    let v = obj(vec![
        ("z", Json::Bool(false)),
        ("a", Json::Null),
        ("m", Json::String(s("x"))),
    ]);
    assert_eq!(from_host(&to_host(&v)), Ok(v));
}

#[test]
fn nested_array_round_trips() {
    let v = Json::Array(vec![
        Json::Number(Number::Int(1)),
        Json::Array(vec![Json::Number(Number::Int(2)), Json::Number(Number::Int(3))]),
        obj(vec![("x", Json::Number(Number::Int(4)))]),
    ]);
    let h = to_host(&v);
    assert_eq!(
        h,
        HostValue::List(vec![
            HostValue::Int(1),
            HostValue::List(vec![HostValue::Int(2), HostValue::Int(3)]),
            HostValue::Dict(vec![(HostValue::Str(s("x")), HostValue::Int(4))]),
        ])
    );
    assert_eq!(from_host(&h), Ok(v));
}

#[test]
fn empty_containers_round_trip() {
    let a = Json::Array(vec![]);
    assert_eq!(from_host(&to_host(&a)), Ok(Json::Array(vec![])));
    let o = Json::Object(vec![]);
    assert_eq!(from_host(&to_host(&o)), Ok(Json::Object(vec![])));
}

#[test]
fn float_round_trips_with_its_tag() {
    let bits = 0.1f64.to_bits();
    let v = Json::Number(Number::Float(bits));
    assert_eq!(from_host(&to_host(&v)), Ok(v));
    let whole = 3.0f64.to_bits();
    assert_eq!(
        from_host(&HostValue::Float(whole)),
        Ok(Json::Number(Number::Float(whole)))
    );
}

#[test]
fn unsupported_object_is_rejected() {
    assert_eq!(
        from_host(&HostValue::Other(s("set"))),
        Err(BridgeError::UnsupportedType)
    );
}

#[test]
fn unsupported_object_nested_in_list_is_rejected() {
    let h = HostValue::List(vec![HostValue::Int(1), HostValue::Other(s("bytes"))]);
    assert_eq!(from_host(&h), Err(BridgeError::UnsupportedType));
}

#[test]
fn non_string_key_is_rejected() {
    let h = HostValue::Dict(vec![(HostValue::Int(1), HostValue::Nil)]);
    assert_eq!(from_host(&h), Err(BridgeError::UnsupportedType));
}

#[test]
fn nan_and_infinity_are_invalid_numbers() {
    assert_eq!(
        from_host(&HostValue::Float(f64::NAN.to_bits())),
        Err(BridgeError::InvalidNumber)
    );
    assert_eq!(
        from_host(&HostValue::Float(f64::INFINITY.to_bits())),
        Err(BridgeError::InvalidNumber)
    );
    assert_eq!(
        from_host(&HostValue::Float(f64::NEG_INFINITY.to_bits())),
        Err(BridgeError::InvalidNumber)
    );
}

#[test]
fn integer_range_edges() {
    assert_eq!(
        from_host(&HostValue::Int(i64::MAX as i128)),
        Ok(Json::Number(Number::Int(i64::MAX)))
    );
    assert_eq!(
        from_host(&HostValue::Int(i64::MIN as i128)),
        Ok(Json::Number(Number::Int(i64::MIN)))
    );
    assert_eq!(
        from_host(&HostValue::Int(i64::MAX as i128 + 1)),
        Err(BridgeError::InvalidNumber)
    );
    assert_eq!(
        from_host(&HostValue::Int(i64::MIN as i128 - 1)),
        Err(BridgeError::InvalidNumber)
    );
}

#[test]
fn first_error_in_order_wins() {
    let h = HostValue::List(vec![
        HostValue::Float(f64::NAN.to_bits()),
        HostValue::Other(s("set")),
    ]);
    assert_eq!(from_host(&h), Err(BridgeError::InvalidNumber));
    let h = HostValue::Dict(vec![(HostValue::Nil, HostValue::Other(s("set")))]);
    assert_eq!(from_host(&h), Err(BridgeError::UnsupportedType));
}

#[test]
fn repeated_host_key_keeps_first_place_and_last_value() {
    let h = HostValue::Dict(vec![
        (HostValue::Str(s("a")), HostValue::Int(1)),
        (HostValue::Str(s("b")), HostValue::Int(2)),
        (HostValue::Str(s("a")), HostValue::Int(3)),
    ]);
    assert_eq!(
        from_host(&h),
        Ok(obj(vec![
            ("a", Json::Number(Number::Int(3))),
            ("b", Json::Number(Number::Int(2))),
        ]))
    );
}

#[test]
fn string_is_copied_through() {
    assert_eq!(
        from_host(&HostValue::Str(s("This is a document"))),
        Ok(Json::String(s("This is a document")))
    );
}

#[test]
fn float_constructor_rejects_non_finite() {
    assert_eq!(Number::float(1.25f64.to_bits()), Some(Number::Float(1.25f64.to_bits())));
    assert_eq!(Number::float(f64::NAN.to_bits()), None);
    assert_eq!(Number::float(f64::INFINITY.to_bits()), None);
    assert_eq!(Number::float(f64::MAX.to_bits()), Some(Number::Float(f64::MAX.to_bits())));
}
