use convex_bridge::args::{decode_args, encode_args};
use convex_bridge::codec::ConversionError;
use convex_bridge::value::{HostValue, TypedValue};

#[test]
fn decode_args_sorts_keys_whatever_the_host_order() {
    let entries = vec![
        (HostValue::Text("zeta".to_string()), HostValue::Int(1)),
        (HostValue::Text("alpha".to_string()), HostValue::Int(2)),
        (HostValue::Text("mid".to_string()), HostValue::Int(3)),
    ];
    let m = decode_args(&entries).expect("decodes");
    let keys: Vec<&str> = m.iter().map(|e| e.0.as_str()).collect();
    assert_eq!(keys, vec!["alpha", "mid", "zeta"]);
}

#[test]
fn decode_args_conflicting_keys_overwrite() {
    let entries = vec![
        (HostValue::Text("k".to_string()), HostValue::Int(1)),
        (HostValue::Text("k".to_string()), HostValue::Int(2)),
    ];
    let m = decode_args(&entries).expect("decodes");
    assert_eq!(m.len(), 1);
    assert!(matches!(m[0].1, TypedValue::Int64(2)));
}

#[test]
fn decode_args_fails_on_non_string_key_without_partial_output() {
    let entries = vec![
        (HostValue::Text("ok".to_string()), HostValue::Int(1)),
        (HostValue::Bool(true), HostValue::Int(2)),
    ];
    assert_eq!(decode_args(&entries).unwrap_err(), ConversionError::InvalidKey);
}

#[test]
fn decode_args_propagates_the_value_error() {
    let entries = vec![(HostValue::Text("k".to_string()), HostValue::Opaque(17))];
    assert_eq!(
        decode_args(&entries).unwrap_err(),
        ConversionError::UnsupportedHostType(17)
    );
}

#[test]
fn encode_args_emits_one_pair_per_entry_in_key_order() {
    let m = vec![
        ("a".to_string(), TypedValue::Int64(1)),
        ("b".to_string(), TypedValue::Text("two".to_string())),
    ];
    let entries = encode_args(&m);
    assert_eq!(entries.len(), 2);
    match &entries[0] {
        (HostValue::Text(k), HostValue::Int(1)) => assert_eq!(k, "a"),
        _ => panic!("wrong first pair"),
    }
    match &entries[1] {
        (HostValue::Text(k), HostValue::Text(v)) => {
            assert_eq!(k, "b");
            assert_eq!(v, "two");
        }
        _ => panic!("wrong second pair"),
    }
}

#[test]
fn args_round_trip() {
    let entries = vec![
        (HostValue::Text("n".to_string()), HostValue::Int(4)),
        (HostValue::Text("b".to_string()), HostValue::Bool(false)),
    ];
    let m = decode_args(&entries).expect("decodes");
    let back = encode_args(&m);
    let again = decode_args(&back).expect("decodes again");
    assert_eq!(m.len(), again.len());
    for (x, y) in m.iter().zip(again.iter()) {
        assert_eq!(x.0, y.0);
        assert!(convex_bridge::codec::value_eq(&x.1, &y.1));
    }
}
