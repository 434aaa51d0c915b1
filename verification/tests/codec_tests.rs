use convex_bridge::codec::{decode, encode, value_eq, ConversionError};
use convex_bridge::value::{HostValue, TypedValue};

fn sample_object() -> TypedValue {
    // keys in ascending order, as a well-formed object requires
    TypedValue::Object(vec![
        ("alpha".to_string(), TypedValue::Boolean(true)),
        ("beta".to_string(), TypedValue::Array(vec![
            TypedValue::Int64(-7),
            TypedValue::Null,
            TypedValue::Text("hi".to_string()),
        ])),
        ("gamma".to_string(), TypedValue::Bytes(vec![0, 255, 3])),
    ])
}

#[test]
fn round_trip_scalars() {
    let values = vec![
        TypedValue::Null,
        TypedValue::Boolean(false),
        TypedValue::Int64(i64::MIN),
        TypedValue::Int64(i64::MAX),
        TypedValue::Float64(1.5f64.to_bits()),
        TypedValue::Text(String::new()),
        TypedValue::Text("héllo wörld".to_string()),
        TypedValue::Bytes(vec![]),
        TypedValue::Bytes(vec![1, 2, 3]),
    ];
    for v in values {
        let back = decode(&encode(&v)).expect("round trip must decode");
        assert!(value_eq(&back, &v));
    }
}

#[test]
fn round_trip_nested() {
    let v = TypedValue::Array(vec![
        sample_object(),
        TypedValue::Array(vec![TypedValue::Array(vec![])]),
        TypedValue::Object(vec![]),
    ]);
    let back = decode(&encode(&v)).expect("round trip must decode");
    assert!(value_eq(&back, &v));
}

#[test]
fn round_trip_nan_stays_float() {
    // NaN payloads are carried as bits, so the round trip is exact at the
    // bit level and the value stays tagged as a float.
    let v = TypedValue::Float64(f64::NAN.to_bits());
    let h = encode(&v);
    assert!(matches!(h, HostValue::Float(bits) if f64::from_bits(bits).is_nan()));
    let back = decode(&h).expect("round trip must decode");
    assert!(value_eq(&back, &v));
}

#[test]
fn encode_is_total_on_every_variant() {
    // every constructible typed value encodes; spot the exact host tags
    assert!(matches!(encode(&TypedValue::Null), HostValue::Nil));
    assert!(matches!(encode(&TypedValue::Boolean(true)), HostValue::Bool(true)));
    assert!(matches!(encode(&TypedValue::Int64(-3)), HostValue::Int(-3)));
    let bits = 2.25f64.to_bits();
    assert!(matches!(encode(&TypedValue::Float64(bits)), HostValue::Float(b) if b == bits));
    match encode(&TypedValue::Text("abc".to_string())) {
        HostValue::Text(s) => assert_eq!(s, "abc"),
        _ => panic!("expected a host string"),
    }
    match encode(&sample_object()) {
        HostValue::Dict(pairs) => assert_eq!(pairs.len(), 3),
        _ => panic!("expected a host map"),
    }
}

#[test]
fn decode_rejects_opaque_tags() {
    let r = decode(&HostValue::Opaque(24));
    assert_eq!(r.unwrap_err(), ConversionError::UnsupportedHostType(24));
}

#[test]
fn decode_opaque_inside_map_aborts_whole_decode() {
    let host = HostValue::Dict(vec![
        (
            HostValue::Text("good".to_string()),
            HostValue::Int(1),
        ),
        (
            HostValue::Text("bad".to_string()),
            HostValue::Opaque(99),
        ),
    ]);
    let r = decode(&host);
    assert_eq!(r.unwrap_err(), ConversionError::UnsupportedHostType(99));
}

#[test]
fn decode_rejects_non_string_map_key() {
    let host = HostValue::Dict(vec![(HostValue::Int(1), HostValue::Nil)]);
    assert_eq!(decode(&host).unwrap_err(), ConversionError::InvalidKey);
}

#[test]
fn decode_orders_keys_and_overwrites_duplicates() {
    let host = HostValue::Dict(vec![
        (HostValue::Text("b".to_string()), HostValue::Int(2)),
        (HostValue::Text("a".to_string()), HostValue::Int(1)),
        (HostValue::Text("b".to_string()), HostValue::Int(5)),
    ]);
    match decode(&host).expect("decodes") {
        TypedValue::Object(entries) => {
            assert_eq!(entries.len(), 2);
            assert_eq!(entries[0].0, "a");
            assert!(matches!(entries[0].1, TypedValue::Int64(1)));
            assert_eq!(entries[1].0, "b");
            assert!(matches!(entries[1].1, TypedValue::Int64(5)));
        }
        _ => panic!("expected an object"),
    }
}

#[test]
fn decode_is_key_order_independent() {
    let one = HostValue::Dict(vec![
        (HostValue::Text("x".to_string()), HostValue::Int(1)),
        (HostValue::Text("y".to_string()), HostValue::Bool(true)),
        (HostValue::Text("z".to_string()), HostValue::Text("s".to_string())),
    ]);
    let two = HostValue::Dict(vec![
        (HostValue::Text("z".to_string()), HostValue::Text("s".to_string())),
        (HostValue::Text("x".to_string()), HostValue::Int(1)),
        (HostValue::Text("y".to_string()), HostValue::Bool(true)),
    ]);
    let a = decode(&one).expect("decodes");
    let b = decode(&two).expect("decodes");
    assert!(value_eq(&a, &b));
}

#[test]
fn value_eq_separates_unequal_values() {
    assert!(!value_eq(&TypedValue::Null, &TypedValue::Boolean(false)));
    assert!(!value_eq(&TypedValue::Int64(1), &TypedValue::Int64(2)));
    assert!(!value_eq(
        &TypedValue::Text("a".to_string()),
        &TypedValue::Text("b".to_string()),
    ));
    assert!(!value_eq(
        &TypedValue::Array(vec![TypedValue::Null]),
        &TypedValue::Array(vec![]),
    ));
}
