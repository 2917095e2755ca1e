use immutable_json::api::{is_finite_decimal, Number, Value};
use immutable_json::array::Array;
use immutable_json::object::Object;

#[test]
fn value_accessors() {
    let array = Value::Array(Array::new().add_integer(1));
    let object = Value::Object(Object::new().add_bool("a", true));
    let decimal = Value::Number(Number::Decimal(1.5f64.to_bits()));
    let integer = Value::Number(Number::Integer(-4));
    let text = Value::String("t".to_string());

    assert_eq!(Some(Array::new().add_integer(1)), array.as_array());
    assert_eq!(None, object.as_array());
    assert_eq!(Some(Object::new().add_bool("a", true)), object.as_object());
    assert_eq!(None, array.as_object());
    assert_eq!(Some(true), Value::Bool(true).as_bool());
    assert_eq!(None, Value::Null.as_bool());
    assert_eq!(Some(1.5f64.to_bits()), decimal.as_decimal());
    assert_eq!(None, integer.as_decimal());
    assert_eq!(Some(-4), integer.as_integer());
    assert_eq!(None, decimal.as_integer());
    assert_eq!(Some(Number::Integer(-4)), integer.as_number());
    assert_eq!(None, text.as_number());
    assert_eq!(Some("t".to_string()), text.as_string());
    assert_eq!(None, integer.as_string());
}

#[test]
fn value_kinds() {
    let values = vec![
        Value::Array(Array::new()),
        Value::Bool(false),
        Value::Null,
        Value::Number(Number::Decimal(0)),
        Value::Number(Number::Integer(0)),
        Value::Object(Object::new()),
        Value::String(String::new()),
    ];
    let kinds: Vec<(bool, bool, bool, bool, bool, bool, bool, bool, bool, bool, bool)> = values
        .iter()
        .map(|v| {
            (
                v.is_array(),
                v.is_bool(),
                v.is_decimal(),
                v.is_integer(),
                v.is_null(),
                v.is_number(),
                v.is_object(),
                v.is_scalar(),
                v.is_string(),
                v.is_structure(),
                v.is_scalar() != v.is_structure(),
            )
        })
        .collect();

    assert_eq!(
        vec![
            (true, false, false, false, false, false, false, false, false, true, true),
            (false, true, false, false, false, false, false, true, false, false, true),
            (false, false, false, false, true, false, false, true, false, false, true),
            (false, false, true, false, false, true, false, true, false, false, true),
            (false, false, false, true, false, true, false, true, false, false, true),
            (false, false, false, false, false, false, true, false, false, true, true),
            (false, false, false, false, false, false, false, true, true, false, true),
        ],
        kinds
    );
}

#[test]
fn number_accessors() {
    assert_eq!(Some(2.5f64.to_bits()), Number::Decimal(2.5f64.to_bits()).as_decimal());
    assert_eq!(None, Number::Integer(2).as_decimal());
    assert_eq!(Some(2), Number::Integer(2).as_integer());
    assert_eq!(None, Number::Decimal(0).as_integer());
    assert!(Number::Decimal(0).is_decimal());
    assert!(!Number::Decimal(0).is_integer());
    assert!(Number::Integer(0).is_integer());
    assert!(!Number::Integer(0).is_decimal());
}

#[test]
fn number_equality_is_that_of_binary64() {
    let nan = Number::Decimal(f64::NAN.to_bits());

    assert!(nan != nan);
    assert!(Number::Decimal(0.0f64.to_bits()) == Number::Decimal((-0.0f64).to_bits()));
    assert!(Number::Decimal(1.0f64.to_bits()) == Number::Decimal(1.0f64.to_bits()));
    assert!(Number::Decimal(1.0f64.to_bits()) != Number::Integer(1));
    assert!(Number::Integer(1) == Number::Integer(1));
    assert!(Number::Integer(1) != Number::Integer(2));
}

#[test]
fn finite_decimals() {
    assert!(is_finite_decimal(1.0f64.to_bits()));
    assert!(is_finite_decimal(f64::MAX.to_bits()));
    assert!(!is_finite_decimal(f64::INFINITY.to_bits()));
    assert!(!is_finite_decimal(f64::NEG_INFINITY.to_bits()));
    assert!(!is_finite_decimal(f64::NAN.to_bits()));
}

#[test]
fn value_duplicate_is_equal() {
    let value = Value::Object(Object::new().add_array("a", Array::new().add_string("x")));

    assert_eq!(value, value.duplicate());
}
