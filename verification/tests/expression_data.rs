use lib::expression_data::{ExpressionData, ExpressionDataType};
use std::collections::hash_map::DefaultHasher;
use std::hash::{Hash, Hasher};

#[test]
fn get_data_type_expression_data() {
    let d = ExpressionData::unit();

    assert_eq!(d.get_type(), ExpressionDataType::Unit);
}

#[test]
fn integer_expression_data() {
    let d = ExpressionData::integer(1234567890);

    assert_eq!(d.get_type(), ExpressionDataType::Integer);
    assert_eq!(d.get_bytes().as_slice(), 1234567890i64.to_le_bytes());
}

#[test]
fn reference_expression_data() {
    let d = ExpressionData::reference(1234567890);

    assert_eq!(d.get_type(), ExpressionDataType::Reference);
    assert_eq!(d.get_bytes().as_slice(), 1234567890usize.to_le_bytes());
}

#[test]
fn expression_data_as_integer() {
    assert_eq!(ExpressionData::integer(1234567890).as_integer().unwrap(), 1234567890)
}

#[test]
fn symbol() {
    let d = ExpressionData::symbol(&"false".to_string(), 0);

    assert_eq!(d.get_type(), ExpressionDataType::Symbol);
    assert_eq!(d.get_bytes().as_slice(), 0u64.to_le_bytes());
    assert_eq!(d.get_symbol(&"false".to_string()).unwrap(), 0);
}

#[test]
fn symbol_from_string() {
    let d = ExpressionData::symbol_from_string(&"my_symbol".to_string());

    let mut h = DefaultHasher::new();
    "my_symbol".hash(&mut h);
    let hv = h.finish();

    assert_eq!(d.get_type(), ExpressionDataType::Symbol);
    assert_eq!(d.get_bytes().as_slice(), hv.to_le_bytes());
    assert_eq!(d.get_symbol(&"my_symbol".to_string()).unwrap(), hv);
}

#[test]
fn negative_integer_round_trips() {
    let d = ExpressionData::integer(-42);
    assert_eq!(d.as_integer().unwrap(), -42);
    assert_eq!(d.get_bytes().as_slice(), (-42i64).to_le_bytes());
}

#[test]
fn reference_round_trips() {
    assert_eq!(ExpressionData::reference(77).as_reference().unwrap(), 77);
}

#[test]
fn unit_has_no_bytes_or_symbols() {
    let d = ExpressionData::unit();
    assert!(d.get_bytes().is_empty());
    assert_eq!(d.get_symbol(&"anything".to_string()), None);
}

#[test]
fn symbol_with_other_name_is_absent() {
    let d = ExpressionData::symbol(&"true".to_string(), 1);
    assert_eq!(d.get_symbol(&"false".to_string()), None);
    assert_eq!(d.get_symbol(&"true".to_string()), Some(1));
}
