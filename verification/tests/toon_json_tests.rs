use crabcache::protocol::toon::json::{JsonNumber, JsonValue, ToonTypeUtils};
use crabcache::protocol::toon::ToonType;

fn narrow(bits: u64) -> Option<u32> {
    let v = f64::from_bits(bits);
    let f = v as f32;
    if ((f as f64) - v).abs() < f32::EPSILON as f64 {
        Some(f.to_bits())
    } else {
        None
    }
}

fn widen(bits: u32) -> u64 {
    (f32::from_bits(bits) as f64).to_bits()
}

#[test]
fn json_numbers_become_narrow_toon_values() {
    let t = |v: JsonValue| ToonTypeUtils::from_json_value(&v, &narrow);
    assert_eq!(t(JsonValue::Number(JsonNumber::PosInt(42))), ToonType::Int8(42));
    assert_eq!(t(JsonValue::Number(JsonNumber::NegInt(-300))), ToonType::Int16(-300));
    assert_eq!(
        t(JsonValue::Number(JsonNumber::PosInt(u64::MAX))),
        ToonType::UInt64(u64::MAX)
    );
    assert_eq!(
        t(JsonValue::Number(JsonNumber::Float(1.5f64.to_bits()))),
        ToonType::Float32(1.5f32.to_bits())
    );
    assert_eq!(
        t(JsonValue::Number(JsonNumber::Float(0.1f64.to_bits()))),
        ToonType::Float32(0.1f32.to_bits())
    );
    assert_eq!(t(JsonValue::Null), ToonType::Null);
    assert_eq!(t(JsonValue::Bool(true)), ToonType::Bool(true));
}

#[test]
fn json_structures_convert_member_by_member() {
    let v = JsonValue::Object(vec![
        ("a".to_string(), JsonValue::Array(vec![JsonValue::Number(JsonNumber::PosInt(70000))])),
        ("b".to_string(), JsonValue::String("x".to_string())),
    ]);
    let t = ToonTypeUtils::from_json_value(&v, &narrow);
    assert_eq!(
        t,
        ToonType::Object(vec![
            ("a".to_string(), ToonType::Array(vec![ToonType::Int32(70000)])),
            ("b".to_string(), ToonType::String("x".to_string())),
        ])
    );
}

#[test]
fn toon_values_become_json() {
    let j = |t: ToonType| ToonTypeUtils::to_json_value(&t, &widen);
    match j(ToonType::Int8(-5)) {
        JsonValue::Number(n) => assert_eq!(n, JsonNumber::NegInt(-5)),
        other => panic!("unexpected {:?}", other),
    }
    match j(ToonType::UInt16(7)) {
        JsonValue::Number(n) => assert_eq!(n, JsonNumber::PosInt(7)),
        other => panic!("unexpected {:?}", other),
    }
    match j(ToonType::Float32(2.5f32.to_bits())) {
        JsonValue::Number(n) => assert_eq!(n, JsonNumber::Float(2.5f64.to_bits())),
        other => panic!("unexpected {:?}", other),
    }
    match j(ToonType::Float64(f64::NAN.to_bits())) {
        JsonValue::Number(n) => assert_eq!(n, JsonNumber::PosInt(0)),
        other => panic!("unexpected {:?}", other),
    }
    match j(ToonType::Float64(f64::INFINITY.to_bits())) {
        JsonValue::Number(n) => assert_eq!(n, JsonNumber::PosInt(0)),
        other => panic!("unexpected {:?}", other),
    }
    match j(ToonType::Bytes(b"hello".to_vec())) {
        JsonValue::String(s) => assert_eq!(s, "aGVsbG8="),
        other => panic!("unexpected {:?}", other),
    }
    match j(ToonType::InternedString(3)) {
        JsonValue::String(s) => assert_eq!(s, "INTERNED_STRING"),
        other => panic!("unexpected {:?}", other),
    }
    match j(ToonType::Array(vec![ToonType::Null, ToonType::Bool(false)])) {
        JsonValue::Array(items) => {
            assert_eq!(items.len(), 2);
            assert!(matches!(items[0], JsonValue::Null));
            assert!(matches!(items[1], JsonValue::Bool(false)));
        }
        other => panic!("unexpected {:?}", other),
    }
}

#[test]
fn bytes_become_padded_standard_base64() {
    let j = |v: ToonType| ToonTypeUtils::to_json_value(&v, &widen);
    let cases: Vec<(&[u8], &str)> = vec![
        (b"", ""),
        (b"f", "Zg=="),
        (b"fo", "Zm8="),
        (b"foo", "Zm9v"),
        (&[0xFB, 0xFF, 0xBF], "+/+/"),
    ];
    for (bytes, text) in cases {
        match j(ToonType::Bytes(bytes.to_vec())) {
            JsonValue::String(s) => assert_eq!(s, text),
            other => panic!("unexpected {:?}", other),
        }
    }
}
