use immutable_json::api::{Number, Value};
use immutable_json::array::Array;
use immutable_json::object::Object;

#[test]
fn object_add() {
    assert_eq!(
        Some("test".to_string()),
        Object::new().add("test", Value::String("test".to_string())).get_string("test")
    );
}

#[test]
fn object_add_array() {
    assert_eq!(
        Some(1),
        Object::new()
            .add_array("test", Array::new().add_integer(1))
            .get_array("test")
            .and_then(|a| a.get_integer(0).ok()?)
    );
}

#[test]
fn object_add_bool() {
    assert_eq!(Some(true), Object::new().add_bool("test", true).get_bool("test"));
}

#[test]
fn object_add_decimal() {
    assert_eq!(
        Some(3.0f64.to_bits()),
        Object::new().add_decimal("test", 3.0f64.to_bits()).get_decimal("test")
    );
}

#[test]
fn object_add_integer() {
    assert_eq!(Some(3), Object::new().add_integer("test", 3).get_integer("test"));
}

#[test]
fn object_add_number() {
    assert_eq!(
        Some(3),
        Object::new()
            .add_number("test", Number::Integer(3))
            .get_number("test")
            .and_then(|n| n.as_integer())
    );
}

#[test]
fn object_add_object() {
    assert_eq!(
        Some(1),
        Object::new()
            .add_object("test", Object::new().add_integer("test", 1))
            .get_object("test")
            .and_then(|o| o.get_integer("test"))
    );
}

#[test]
fn object_add_string() {
    assert_eq!(Some("test".to_string()), Object::new().add_string("test", "test").get_string("test"));
}

#[test]
fn object_add_replaces() {
    let object = Object::new().add_integer("a", 1).add_integer("a", 2);

    assert_eq!(Some(2), object.get_integer("a"));
    assert_eq!(1, object.iter().len());
}

#[test]
fn object_get() {
    let object = Object::new().add_string("test1", "test");

    assert_eq!(Some(&Value::String("test".to_string())), object.get("test1"));
    assert_eq!(None, object.get("test2"));
}

#[test]
fn object_get_string() {
    let object = Object::new().add_string("test1", "test");

    assert_eq!(Some("test".to_string()), object.get_string("test1"));
    assert_eq!(None, object.get_string("test2"));
}

#[test]
fn object_get_array() {
    let object = Object::new().add_array("test1", Array::new().add_integer(3)).add_integer("test2", 3);

    assert_eq!(Some(3), object.get_array("test1").and_then(|a| a.get_integer(0).ok()?));
    assert_eq!(None, object.get_array("test2"));
}

#[test]
fn object_get_bool() {
    let object = Object::new().add_bool("test1", true).add_integer("test2", 3);

    assert_eq!(Some(true), object.get_bool("test1"));
    assert_eq!(None, object.get_string("test2"));
}

#[test]
fn object_get_decimal() {
    let object = Object::new().add_decimal("test1", 3.0f64.to_bits()).add_integer("test2", 3);

    assert_eq!(Some(3.0f64.to_bits()), object.get_decimal("test1"));
    assert_eq!(None, object.get_string("test2"));
    assert_eq!(None, object.get_decimal("test2"));
}

#[test]
fn object_get_integer() {
    let object = Object::new().add_decimal("test1", 3.0f64.to_bits()).add_integer("test2", 3);

    assert_eq!(Some(3), object.get_integer("test2"));
    assert_eq!(None, object.get_integer("test1"));
}

#[test]
fn object_get_number() {
    let object = Object::new()
        .add_number("test1", Number::Decimal(3.0f64.to_bits()))
        .add_integer("test2", 3);

    assert_eq!(
        Some(3.0f64.to_bits()),
        object.get_number("test1").and_then(|n| n.as_decimal())
    );
    assert_eq!(None, object.get_string("test2"));
}

#[test]
fn object_get_object() {
    let object = Object::new()
        .add_object("test1", Object::new().add_integer("test", 3))
        .add_integer("test2", 3);

    assert_eq!(Some(3), object.get_object("test1").and_then(|a| a.get_integer("test")));
    assert_eq!(None, object.get_array("test2"));
}

#[test]
fn object_get_string_of_other_kind() {
    let object = Object::new().add_string("test1", "test").add_integer("test2", 3);

    assert_eq!(Some("test".to_string()), object.get_string("test1"));
    assert_eq!(None, object.get_string("test2"));
}

#[test]
fn object_has_key() {
    let object = Object::new().add_string("test1", "test");

    assert_eq!(true, object.has_key("test1"));
    assert_eq!(false, object.has_key("test2"));
}

#[test]
fn object_iter() {
    let object = Object::new().add_string("test1", "test1").add_integer("test2", 1);

    assert_eq!(object, Object::from_iter(object.iter()));

    let mut pairs = object.iter();
    pairs.sort_by(|a, b| a.0.cmp(&b.0));
    assert_eq!(
        vec![
            ("test1".to_string(), Value::String("test1".to_string())),
            ("test2".to_string(), Value::Number(Number::Integer(1))),
        ],
        pairs
    );
}

#[test]
fn object_from_iter_last_wins() {
    let object = Object::from_iter(vec![
        ("a".to_string(), Value::Bool(true)),
        ("a".to_string(), Value::Bool(false)),
    ]);

    assert_eq!(Some(false), object.get_bool("a"));
}

#[test]
fn object_remove() {
    let object = Object::new().add_string("test", "test");

    assert_eq!(true, object.has_key("test"));
    assert_eq!(false, object.remove("test").has_key("test"));
    assert_eq!(true, object.has_key("test"));
    assert_eq!(object, object.remove("other"));
}

#[test]
fn object_default_is_empty() {
    assert_eq!(Object::new(), Object::default());
}
