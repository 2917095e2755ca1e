use immutable_json::api::{Number, Value};
use immutable_json::array::Array;
use immutable_json::error::JsonIndexError;
use immutable_json::object::Object;

#[test]
fn array_add() {
    assert_eq!(Some(true), Array::new().add(&Value::Bool(true)).get_bool(0).ok().flatten());
}

#[test]
fn array_add_array() {
    assert_eq!(
        Some(0),
        Array::new()
            .add_array(&Array::new().add_integer(0))
            .get_array(0)
            .ok()
            .flatten()
            .and_then(|a| a.get_integer(0).ok().flatten())
    );
}

#[test]
fn array_add_bool() {
    assert_eq!(Some(true), Array::new().add_bool(true).get_bool(0).ok().flatten());
}

#[test]
fn array_add_decimal() {
    assert_eq!(
        Some(2.0f64.to_bits()),
        Array::new().add_decimal(2.0f64.to_bits()).get_decimal(0).ok().flatten()
    );
}

#[test]
fn array_add_integer() {
    assert_eq!(Some(0), Array::new().add_integer(0).get_integer(0).ok().flatten());
}

#[test]
fn array_add_number() {
    assert_eq!(
        Some(Number::Integer(0)),
        Array::new().add_number(Number::Integer(0)).get_number(0).ok().flatten()
    );
}

#[test]
fn array_add_object() {
    assert_eq!(
        Some(0),
        Array::new()
            .add_object(&Object::new().add_integer("test", 0))
            .get_object(0)
            .ok()
            .flatten()
            .and_then(|o| o.get_integer("test"))
    );
}

#[test]
fn array_add_string() {
    assert_eq!(
        Some("test".to_string()),
        Array::new().add_string("test").get_string(0).ok().flatten()
    );
}

#[test]
fn array_get_number() {
    let array = Array::new().add_number(Number::Integer(0));

    assert_eq!(Some(Number::Integer(0)), array.get_number(0).ok().flatten());
    assert_eq!(None, array.get_string(0).ok().flatten());
    assert_eq!(Some(JsonIndexError { index: 1, len: 1 }), array.get_number(1).err());
}

#[test]
fn array_get_bool() {
    let array = Array::new().add_bool(true);

    assert_eq!(Some(true), array.get_bool(0).ok().flatten());
    assert_eq!(None, array.get_string(0).ok().flatten());
    assert_eq!(Some(JsonIndexError { index: 1, len: 1 }), array.get_bool(1).err());
}

#[test]
fn array_get_decimal() {
    let array = Array::new().add_decimal(2.0f64.to_bits());

    assert_eq!(Some(2.0f64.to_bits()), array.get_decimal(0).ok().flatten());
    assert_eq!(None, array.get_string(0).ok().flatten());
    assert_eq!(Some(JsonIndexError { index: 1, len: 1 }), array.get_decimal(1).err());
}

#[test]
fn array_get_integer() {
    let array = Array::new().add_integer(0);

    assert_eq!(Some(0), array.get_integer(0).ok().flatten());
    assert_eq!(None, array.get_string(0).ok().flatten());
    assert_eq!(Some(JsonIndexError { index: 1, len: 1 }), array.get_integer(1).err());
}

#[test]
fn array_get_object() {
    let array = Array::new().add_object(&Object::new().add_integer("test", 0));

    assert_eq!(
        Some(0),
        array.get_object(0).ok().flatten().and_then(|o| o.get_integer("test"))
    );
    assert_eq!(None, array.get_string(0).ok().flatten());
    assert_eq!(Some(JsonIndexError { index: 1, len: 1 }), array.get_object(1).err());
}

#[test]
fn array_get_string() {
    let array = Array::new().add_string("test");

    assert_eq!(Some("test".to_string()), array.get_string(0).ok().flatten());
    assert_eq!(None, array.get_integer(0).ok().flatten());
    assert_eq!(Some(JsonIndexError { index: 1, len: 1 }), array.get_string(1).err());
}

#[test]
fn array_get_value_and_array() {
    let array = Array::new().add_array(&Array::new().add_bool(false)).add_integer(7);

    assert_eq!(Ok(Value::Number(Number::Integer(7))), array.get(1));
    assert_eq!(Some(Array::new().add_bool(false)), array.get_array(0).ok().flatten());
    assert_eq!(None, array.get_array(1).ok().flatten());
    assert_eq!(Err(JsonIndexError { index: 5, len: 2 }), array.get(5));
}

#[test]
fn array_insert() {
    assert_eq!(
        Some(true),
        Array::new().insert(0, &Value::Bool(true)).unwrap().get_bool(0).ok().flatten()
    );
}

#[test]
fn array_insert_array() {
    assert_eq!(
        Some(0),
        Array::new()
            .insert_array(0, &Array::new().insert_integer(0, 0).unwrap())
            .unwrap()
            .get_array(0)
            .ok()
            .flatten()
            .and_then(|a| a.get_integer(0).ok().flatten())
    );
}

#[test]
fn array_insert_bool() {
    assert_eq!(Some(true), Array::new().insert_bool(0, true).unwrap().get_bool(0).ok().flatten());
}

#[test]
fn array_insert_decimal() {
    assert_eq!(
        Some(2.0f64.to_bits()),
        Array::new()
            .insert_decimal(0, 2.0f64.to_bits())
            .unwrap()
            .get_decimal(0)
            .ok()
            .flatten()
    );
}

#[test]
fn array_insert_integer() {
    assert_eq!(Some(0), Array::new().insert_integer(0, 0).unwrap().get_integer(0).ok().flatten());
}

#[test]
fn array_insert_number() {
    assert_eq!(
        Some(Number::Integer(0)),
        Array::new().insert_number(0, Number::Integer(0)).unwrap().get_number(0).ok().flatten()
    );
}

#[test]
fn array_insert_object() {
    assert_eq!(
        Some(0),
        Array::new()
            .insert_object(0, &Object::new().add_integer("test", 0))
            .unwrap()
            .get_object(0)
            .ok()
            .flatten()
            .and_then(|o| o.get_integer("test"))
    );
}

#[test]
fn array_insert_string() {
    assert_eq!(
        Some("test".to_string()),
        Array::new().insert_string(0, "test").unwrap().get_string(0).ok().flatten()
    );
}

#[test]
fn array_insert_positions() {
    let array = Array::new().add_integer(1).add_integer(3);
    let inserted = array.insert_integer(1, 2).unwrap();

    assert_eq!(Array::new().add_integer(1).add_integer(2).add_integer(3), inserted);
    assert_eq!(
        Array::new().add_integer(1).add_integer(3).add_integer(4),
        array.insert_integer(2, 4).unwrap()
    );
    assert_eq!(Some(JsonIndexError { index: 3, len: 2 }), array.insert_integer(3, 4).err());
}

#[test]
fn array_is_empty() {
    assert_eq!(true, Array::new().is_empty());
    assert_eq!(false, Array::new().add_integer(0).is_empty());
}

#[test]
fn array_iter() {
    let array = Array::new().add_string("test").add_integer(1);

    assert_eq!(array, Array::from_iter(array.iter()));
    assert_eq!(
        vec![Value::String("test".to_string()), Value::Number(Number::Integer(1))],
        array.iter()
    );
}

#[test]
fn array_len() {
    assert_eq!(0, Array::new().len());
    assert_eq!(1, Array::new().add_integer(0).len());
}

#[test]
fn array_remove() {
    assert_eq!(Some(0), Array::new().add_integer(0).remove(0).ok().map(|a| a.len()));
    assert_eq!(Some(JsonIndexError { index: 1, len: 0 }), Array::new().remove(1).err());
}

#[test]
fn array_remove_middle() {
    let array = Array::new().add_integer(1).add_integer(2).add_integer(3);

    assert_eq!(Ok(Array::new().add_integer(1).add_integer(3)), array.remove(1));
    assert_eq!(3, array.len());
}

#[test]
fn array_set_array() {
    let array = Array::new().add_bool(true);

    assert_eq!(
        Some(0),
        array
            .set_array(0, &Array::new().add_integer(0))
            .ok()
            .and_then(|a| a.get_array(0).ok().flatten().and_then(|a| a.get_integer(0).ok().flatten()))
    );
    assert_eq!(Some(JsonIndexError { index: 1, len: 1 }), array.set_bool(1, false).err());
}

#[test]
fn array_set_bool() {
    let array = Array::new().add_bool(true);

    assert_eq!(Some(false), array.set_bool(0, false).ok().and_then(|a| a.get_bool(0).ok().flatten()));
    assert_eq!(Some(JsonIndexError { index: 1, len: 1 }), array.set_bool(1, false).err());
}

#[test]
fn array_set_decimal() {
    let array = Array::new().add_bool(true);

    assert_eq!(
        Some(3.0f64.to_bits()),
        array.set_decimal(0, 3.0f64.to_bits()).ok().and_then(|a| a.get_decimal(0).ok().flatten())
    );
    assert_eq!(
        Some(JsonIndexError { index: 1, len: 1 }),
        array.set_decimal(1, 1.0f64.to_bits()).err()
    );
}

#[test]
fn array_set_integer() {
    let array = Array::new().add_bool(true);

    assert_eq!(Some(3), array.set_integer(0, 3).ok().and_then(|a| a.get_integer(0).ok().flatten()));
    assert_eq!(Some(JsonIndexError { index: 1, len: 1 }), array.set_integer(1, 1).err());
}

#[test]
fn array_set_number() {
    let array = Array::new().add_bool(true);

    assert_eq!(
        Some(Number::Decimal(3.0f64.to_bits())),
        array
            .set_number(0, Number::Decimal(3.0f64.to_bits()))
            .ok()
            .and_then(|a| a.get_number(0).ok().flatten())
    );
    assert_eq!(
        Some(JsonIndexError { index: 1, len: 1 }),
        array.set_number(1, Number::Decimal(1.0f64.to_bits())).err()
    );
}

#[test]
fn array_set_object() {
    let array = Array::new().add_bool(true);

    assert_eq!(
        Some("test".to_string()),
        array
            .set_object(0, &Object::new().add_string("test", "test"))
            .ok()
            .and_then(|a| a.get_object(0).ok().flatten().and_then(|o| o.get_string("test")))
    );
    assert_eq!(Some(JsonIndexError { index: 1, len: 1 }), array.set_object(1, &Object::new()).err());
}

#[test]
fn array_set_string() {
    let array = Array::new().add_bool(true);

    assert_eq!(
        Some("test".to_string()),
        array.set_string(0, "test").ok().and_then(|a| a.get_string(0).ok().flatten())
    );
    assert_eq!(Some(JsonIndexError { index: 1, len: 1 }), array.set_string(1, "test").err());
}

#[test]
fn array_changes_leave_the_array_as_it_was() {
    let array = Array::new().add_integer(1);
    let changed = array.set_integer(0, 2).unwrap().add_integer(3);

    assert_eq!(Some(1), array.get_integer(0).ok().flatten());
    assert_eq!(1, array.len());
    assert_eq!(2, changed.len());
}

#[test]
fn array_default_is_empty() {
    assert_eq!(Array::new(), Array::default());
}

#[test]
fn array_law_get_after_set() {
    let array = Array::new().add_integer(1).add_integer(2);
    let set = array.set_string(1, "x").unwrap();

    assert_eq!(Ok(Value::String("x".to_string())), set.get(1));
    assert_eq!(array.get(0), set.get(0));
}

#[test]
fn array_law_remove_after_insert() {
    let array = Array::new().add_integer(1).add_integer(2);

    assert_eq!(Ok(array.clone()), array.insert_bool(1, true).unwrap().remove(1));
}

#[test]
fn array_law_insert_at_end_appends() {
    let array = Array::new().add_integer(1).add_string("x");

    assert_eq!(Ok(array.add_bool(true)), array.insert_bool(array.len(), true));
    assert_eq!(Ok(Array::new().add_integer(5)), Array::new().insert_integer(0, 5));
}
