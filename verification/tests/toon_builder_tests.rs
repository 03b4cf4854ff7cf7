use crabcache::protocol::toon::types::{
    ToonArrayBuilder, ToonObjectBuilder, ToonTypeAnalyzer, ToonValueBuilder,
};
use crabcache::protocol::toon::ToonType;

fn field<'a>(fields: &'a [(String, ToonType)], key: &str) -> &'a ToonType {
    &fields.iter().find(|(k, _)| k == key).unwrap().1
}

#[test]
fn test_value_builder() {
    let value = ToonValueBuilder::integer(42).build();
    assert_eq!(value, ToonType::Int8(42));
    let value = ToonValueBuilder::string("hello".to_string()).build();
    assert_eq!(value, ToonType::String("hello".to_string()));
}

#[test]
fn test_array_builder() {
    let array = ToonArrayBuilder::new()
        .push_int(1)
        .push_int(2)
        .push_string("test".to_string())
        .build();
    match array {
        ToonType::Array(arr) => {
            assert_eq!(arr.len(), 3);
            assert_eq!(arr[0], ToonType::Int8(1));
            assert_eq!(arr[1], ToonType::Int8(2));
            assert_eq!(arr[2], ToonType::String("test".to_string()));
        }
        _ => panic!("Expected array"),
    }
}

#[test]
fn test_object_builder() {
    let obj = ToonObjectBuilder::new()
        .field_string("name".to_string(), "Alice".to_string())
        .field_int("age".to_string(), 30)
        .field_bool("active".to_string(), true)
        .build();
    match obj {
        ToonType::Object(map) => {
            assert_eq!(map.len(), 3);
            assert_eq!(*field(&map, "name"), ToonType::String("Alice".to_string()));
            assert_eq!(*field(&map, "age"), ToonType::Int8(30));
            assert_eq!(*field(&map, "active"), ToonType::Bool(true));
        }
        _ => panic!("Expected object"),
    }
}

#[test]
fn builders_narrow_and_replace() {
    assert_eq!(ToonValueBuilder::uint(70000).build(), ToonType::UInt32(70000));
    assert_eq!(ToonValueBuilder::integer(-40000).build(), ToonType::Int32(-40000));
    assert_eq!(ToonValueBuilder::new().build(), ToonType::Null);
    assert_eq!(ToonValueBuilder::bytes(vec![1]).build(), ToonType::Bytes(vec![1]));
    let keep = |_: u64| -> Option<u32> { None };
    let a = ToonValueBuilder::array().push(ToonType::UInt64(3), &keep).push_null().push_bool(false).build();
    assert_eq!(a, ToonType::Array(vec![ToonType::UInt8(3), ToonType::Null, ToonType::Bool(false)]));
    let o = ToonValueBuilder::object()
        .field_int("k".to_string(), 1)
        .field_null("z".to_string())
        .field("k".to_string(), ToonType::Int64(300), &keep)
        .field_bytes("b".to_string(), vec![7])
        .build();
    assert_eq!(
        o,
        ToonType::Object(vec![
            ("k".to_string(), ToonType::Int16(300)),
            ("z".to_string(), ToonType::Null),
            ("b".to_string(), ToonType::Bytes(vec![7])),
        ])
    );
    let _ = ToonTypeAnalyzer::should_intern_string("abc", 2);
}
