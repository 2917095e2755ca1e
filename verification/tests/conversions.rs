use immutable_json::api::{Number, Value};
use immutable_json::array::Array;
use immutable_json::bson::{
    from_bson, from_date_time, from_timestamp, to_bson, try_date_time, BsonValue,
};
use immutable_json::error::Error;
use immutable_json::jaq::{self, JaqNumber, JaqValue};
use immutable_json::object::Object;
use immutable_json::serde::{from_value, to_value, JsonNumber, JsonValue};

fn json(v: &serde_json::Value) -> JsonValue {
    match v {
        serde_json::Value::Null => JsonValue::Null,
        serde_json::Value::Bool(b) => JsonValue::Bool(*b),
        serde_json::Value::Number(n) => JsonValue::Number(match (n.as_u64(), n.as_i64()) {
            (Some(u), _) => JsonNumber::PosInt(u),
            (None, Some(i)) => JsonNumber::NegInt(i),
            _ => JsonNumber::Float(n.as_f64().unwrap().to_bits()),
        }),
        serde_json::Value::String(s) => JsonValue::String(s.clone()),
        serde_json::Value::Array(a) => JsonValue::Array(a.iter().map(json).collect()),
        serde_json::Value::Object(o) => {
            JsonValue::Object(o.iter().map(|(k, v)| (k.clone(), json(v))).collect())
        }
    }
}

fn unjson(v: &JsonValue) -> serde_json::Value {
    match v {
        JsonValue::Null => serde_json::Value::Null,
        JsonValue::Bool(b) => serde_json::Value::Bool(*b),
        JsonValue::Number(JsonNumber::PosInt(u)) => serde_json::Value::from(*u),
        JsonValue::Number(JsonNumber::NegInt(i)) => serde_json::Value::from(*i),
        JsonValue::Number(JsonNumber::Float(b)) => serde_json::Value::from(f64::from_bits(*b)),
        JsonValue::String(s) => serde_json::Value::String(s.clone()),
        JsonValue::Array(a) => serde_json::Value::Array(a.iter().map(unjson).collect()),
        JsonValue::Object(o) => {
            serde_json::Value::Object(o.iter().map(|(k, v)| (k.clone(), unjson(v))).collect())
        }
    }
}

fn parse(text: &str) -> Value {
    Value::from_parsed(serde_json::from_str::<serde_json::Value>(text).map(|v| json(&v))).unwrap()
}

const DATA: &str = r#"
    {
        "string": "string",
        "int": 43,
        "float": 5.8,
        "boolean": true,
        "object": {"test": "test"},
        "array": ["string", 1, 3.0, false, {"test": "test"}, [1]]
    }"#;

#[test]
fn serde_round_trip_of_json() {
    let v: serde_json::Value = serde_json::from_str(DATA).unwrap();

    assert_eq!(Some(v.clone()), from_value(&json(&v)).and_then(|f| to_value(&f)).map(|j| unjson(&j)));
}

#[test]
fn serde_round_trip_of_values() {
    let v = parse(DATA);

    assert_eq!(Some(v.clone()), to_value(&v).and_then(|j| from_value(&j)));
}

#[test]
fn serde_numbers() {
    assert_eq!(
        Some(JsonValue::Number(JsonNumber::NegInt(-3))),
        to_value(&Value::Number(Number::Integer(-3)))
    );
    assert_eq!(
        Some(JsonValue::Number(JsonNumber::PosInt(u64::MAX))),
        to_value(&Value::Number(Number::Integer(u64::MAX as i128)))
    );
    assert_eq!(None, to_value(&Value::Number(Number::Integer(u64::MAX as i128 + 1))));
    assert_eq!(None, to_value(&Value::Number(Number::Integer(i64::MIN as i128 - 1))));
    assert_eq!(None, to_value(&Value::Number(Number::Decimal(f64::NAN.to_bits()))));
    assert_eq!(
        Some(Value::Number(Number::Decimal(1.5f64.to_bits()))),
        from_value(&JsonValue::Number(JsonNumber::Float(1.5f64.to_bits())))
    );
}

#[test]
fn serde_leaves_out_what_has_no_form() {
    let v = Value::Array(
        Array::new()
            .add_integer(1)
            .add_decimal(f64::INFINITY.to_bits())
            .add_integer(2),
    );
    let o = Value::Object(Object::new().add_integer("a", 1).add_decimal("b", f64::NAN.to_bits()));

    assert_eq!(
        Some(JsonValue::Array(vec![
            JsonValue::Number(JsonNumber::PosInt(1)),
            JsonValue::Number(JsonNumber::PosInt(2)),
        ])),
        to_value(&v)
    );
    assert_eq!(
        Some(JsonValue::Object(vec![("a".to_string(), JsonValue::Number(JsonNumber::PosInt(1)))])),
        to_value(&o)
    );
}

#[test]
fn serde_object_last_field_wins() {
    let j = JsonValue::Object(vec![
        ("a".to_string(), JsonValue::Bool(true)),
        ("a".to_string(), JsonValue::Bool(false)),
    ]);

    assert_eq!(Some(Value::Object(Object::new().add_bool("a", false))), from_value(&j));
}

#[test]
fn serde_conversion_errors() {
    assert!(matches!(
        Value::Number(Number::Decimal(f64::NAN.to_bits())).try_into_json(),
        Err(Error::ConvertTo)
    ));
    assert_eq!(Value::Null, Value::try_from_json(&JsonValue::Null).unwrap());
    assert_eq!(
        JsonValue::Bool(true),
        Value::Bool(true).try_into_json().unwrap()
    );
    match Value::from_parsed(serde_json::from_str::<serde_json::Value>("{").map(|v| json(&v))) {
        Err(Error::SerdeJson(_)) => {}
        _ => panic!("a broken JSON text was read"),
    }
}

#[test]
fn bson_round_trip() {
    let v = parse(
        r#"
        {
            "string": "string",
            "int": 43,
            "float": 5.8,
            "boolean": true,
            "object": {"test": "test"},
            "timestamp": "2026-07-16T11:26:00.123Z",
            "array": ["string", 1, 3.0, false, {"test": "test"}, [1]]
        }"#,
    );
    let to = to_bson(&v);

    match &to {
        Some(BsonValue::Document(fields)) => {
            assert!(fields
                .iter()
                .any(|(k, b)| k == "timestamp" && *b == BsonValue::DateTime(1784201160123)));
        }
        _ => panic!("the object did not become a document"),
    }
    assert_eq!(Some(v.clone()), to.and_then(|f| from_bson(&f)));
}

#[test]
fn bson_dates_and_times() {
    assert_eq!(Some(1784201160123), try_date_time("2026-07-16T11:26:00.123Z"));
    assert_eq!(None, try_date_time("yesterday"));
    assert_eq!("1970-01-01T00:00:00.000Z", from_date_time(0));
    assert_eq!("2026-07-16T11:26:00.123Z", from_date_time(1784201160123));
    assert_eq!(Some("2023-11-14T22:13:20Z".to_string()), from_timestamp(1700000000));
    assert_eq!(Some("1970-01-01T00:00:00Z".to_string()), from_timestamp(0));
}

#[test]
fn bson_kinds_without_counterpart() {
    assert_eq!(None, from_bson(&BsonValue::Undefined));
    assert_eq!(None, from_bson(&BsonValue::ObjectId));
    assert_eq!(
        Some(Value::Array(Array::new().add_integer(7))),
        from_bson(&BsonValue::Array(vec![BsonValue::MinKey, BsonValue::Int32(7), BsonValue::Symbol]))
    );
    assert_eq!(
        Some(Value::Object(Object::new().add_integer("b", 2))),
        from_bson(&BsonValue::Document(vec![
            ("a".to_string(), BsonValue::Binary),
            ("b".to_string(), BsonValue::Int64(2)),
        ]))
    );
    assert_eq!(
        Some(Value::String("1970-01-01T00:00:10Z".to_string())),
        from_bson(&BsonValue::Timestamp { time: 10, increment: 1 })
    );
    assert!(matches!(Value::try_from_bson(&BsonValue::MaxKey), Err(Error::ConvertFrom)));
}

#[test]
fn bson_numbers() {
    assert_eq!(Some(BsonValue::Int64(-5)), to_bson(&Value::Number(Number::Integer(-5))));
    assert_eq!(None, to_bson(&Value::Number(Number::Integer(i64::MAX as i128 + 1))));
    assert_eq!(
        Some(BsonValue::Double(2.5f64.to_bits())),
        to_bson(&Value::Number(Number::Decimal(2.5f64.to_bits())))
    );
    assert_eq!(
        Some(BsonValue::String("plain".to_string())),
        to_bson(&Value::String("plain".to_string()))
    );
    assert!(matches!(
        Value::Number(Number::Integer(i128::MAX)).try_into_bson(),
        Err(Error::ConvertTo)
    ));
}

#[test]
fn jaq_round_trip() {
    let v = parse(DATA);

    assert_eq!(Some(v.clone()), jaq::from_value(&jaq::to_value(&v)));
}

#[test]
fn jaq_values() {
    assert_eq!(
        JaqValue::TStr("héllo".as_bytes().to_vec()),
        jaq::to_value(&Value::String("héllo".to_string()))
    );
    assert_eq!(
        JaqValue::Num(JaqNumber::Int(5)),
        jaq::to_value(&Value::Number(Number::Integer(5)))
    );
    assert_eq!(
        JaqValue::Num(JaqNumber::Int(-1)),
        jaq::to_value(&Value::Number(Number::Integer(u64::MAX as i128)))
    );
    assert_eq!(None, jaq::from_value(&JaqValue::TStr(vec![0xff, 0xfe])));
    assert_eq!(
        Some(Value::String("b".to_string())),
        jaq::from_value(&JaqValue::BStr(vec![b'b']))
    );
    assert_eq!(
        Some(Value::Number(Number::Integer(i128::MIN))),
        jaq::from_value(&JaqValue::Num(JaqNumber::BigInt(
            "-170141183460469231731687303715884105728".to_string()
        )))
    );
    assert_eq!(
        None,
        jaq::from_value(&JaqValue::Num(JaqNumber::BigInt(
            "170141183460469231731687303715884105728".to_string()
        )))
    );
    assert_eq!(None, jaq::from_value(&JaqValue::Num(JaqNumber::Dec(None))));
    assert_eq!(
        Some(Value::Number(Number::Decimal(0.25f64.to_bits()))),
        jaq::from_value(&JaqValue::Num(JaqNumber::Dec(Some(0.25f64.to_bits()))))
    );
}

#[test]
fn jaq_objects() {
    let j = JaqValue::Obj(vec![
        (JaqValue::Num(JaqNumber::Int(1)), JaqValue::Bool(true)),
        (JaqValue::TStr(b"k".to_vec()), JaqValue::TStr(vec![0xc0])),
        (JaqValue::TStr(b"m".to_vec()), JaqValue::Null),
    ]);

    assert_eq!(
        Some(Value::Object(Object::new().add_bool("", true).add("m", Value::Null))),
        jaq::from_value(&j)
    );
    assert_eq!(
        JaqValue::Obj(vec![(JaqValue::TStr(b"a".to_vec()), JaqValue::Null)]),
        jaq::to_value(&Value::Object(Object::new().add("a", Value::Null)))
    );
}

#[test]
fn jaq_run_outcomes() {
    assert!(matches!(jaq::run_outcome(None), Err(Error::JaqNoResult)));
    match jaq::run_outcome(Some(Err("boom".to_string()))) {
        Err(Error::JaqException(e)) => assert_eq!("boom", e),
        _ => panic!("an exception was not reported"),
    }
    assert!(matches!(
        jaq::run_outcome(Some(Ok(JaqValue::TStr(vec![0xff])))),
        Err(Error::ConvertFrom)
    ));
    assert_eq!(Value::Bool(true), jaq::run_outcome(Some(Ok(JaqValue::Bool(true)))).unwrap());
}
