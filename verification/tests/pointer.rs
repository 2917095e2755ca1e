use immutable_json::api::{Number, Value};
use immutable_json::array::Array;
use immutable_json::error::Error;
use immutable_json::object::Object;
use immutable_json::pointer::{escape, unescape, JsonPointer};
use immutable_json::serde::{JsonNumber, JsonValue};

fn json(v: &serde_json::Value) -> JsonValue {
    match v {
        serde_json::Value::Null => JsonValue::Null,
        serde_json::Value::Bool(b) => JsonValue::Bool(*b),
        serde_json::Value::Number(n) => JsonValue::Number(match (n.as_u64(), n.as_i64()) {
            (Some(u), _) => JsonNumber::PosInt(u),
            (None, Some(i)) => JsonNumber::NegInt(i),
            _ => JsonNumber::Float(n.as_f64().unwrap().to_bits()),
        }),
        serde_json::Value::String(s) => JsonValue::String(s.clone()),
        serde_json::Value::Array(a) => JsonValue::Array(a.iter().map(json).collect()),
        serde_json::Value::Object(o) => {
            JsonValue::Object(o.iter().map(|(k, v)| (k.clone(), json(v))).collect())
        }
    }
}

fn parse(text: &str) -> Value {
    Value::from_parsed(serde_json::from_str::<serde_json::Value>(text).map(|v| json(&v))).unwrap()
}

fn pointer(text: &str) -> JsonPointer {
    JsonPointer::parse(text).unwrap()
}

#[test]
fn pointer_to_string_round_trip() {
    let p = "/a/b~1c/~0d";

    assert_eq!(p, JsonPointer::parse(p).unwrap().to_string());
    assert_eq!(p, p.parse::<JsonPointer>().unwrap().to_string());
}

#[test]
fn pointer_parse_rejects_text_without_slash() {
    match JsonPointer::parse("a/b") {
        Err(Error::JsonPointer(s)) => assert_eq!("a/b", s),
        _ => panic!("a pointer without a leading slash was accepted"),
    }
    assert!(JsonPointer::parse("").is_err());
}

#[test]
fn pointer_parse_skips_empty_segments() {
    assert_eq!("", pointer("/").to_string());
    assert_eq!("/a/b", pointer("//a//b/").to_string());
    assert_eq!(JsonPointer::new(), pointer("/"));
}

#[test]
fn pointer_order() {
    assert!(pointer("/a") == pointer("/a"));
    assert!(pointer("/a/b") < pointer("/a/c"));
    assert!(pointer("/a/b/0") < pointer("/a/b/1"));
    assert!(pointer("/a/b/10") > pointer("/a/b/2"));
    assert!(pointer("/a/b/-") > pointer("/a/b/2"));
    assert!(pointer("/a/b/1") < pointer("/a/b/-"));
    assert!(pointer("/a") < pointer("/a/b"));
    assert!(pointer("/a/b") > pointer("/a"));
}

#[test]
fn pointer_add() {
    let array = parse(r#"["string", {"test": "test"}, ["string"]]"#).as_array().unwrap();

    assert_eq!(
        array.insert_string(0, "string2").ok().map(Value::Array),
        JsonPointer::parse("/0")
            .ok()
            .and_then(|p| p.add(&Value::Array(array.clone()), &Value::String("string2".to_string())))
    );
    assert_eq!(
        None,
        JsonPointer::parse("/4")
            .ok()
            .and_then(|p| p.add(&Value::Array(array.clone()), &Value::String("string2".to_string())))
    );
    assert_eq!(
        array.insert_integer(3, 0).ok().map(Value::Array),
        JsonPointer::parse("/-")
            .ok()
            .and_then(|p| p.add(&Value::Array(array.clone()), &Value::Number(Number::Integer(0))))
    );
    assert_eq!(
        array
            .set_object(1, &Object::new().add_string("test", "test").add_string("test2", "test2"))
            .ok()
            .map(Value::Array),
        JsonPointer::parse("/1/test2")
            .ok()
            .and_then(|p| p.add(&Value::Array(array.clone()), &Value::String("test2".to_string())))
    );
}

#[test]
fn pointer_get() {
    let object = parse(
        r#"{
            "string": "string",
            "int": 43,
            "float": 5.8,
            "boolean": true,
            "object": {"test": "test"},
            "array": ["string", 1, 3.0, false, {"test": "test"}, [1]],
            "es/cape": true
        }"#,
    );

    assert_eq!(
        Some(Value::String("string".to_string())),
        JsonPointer::parse("/string").ok().and_then(|p| p.get(&object))
    );
    assert_eq!(
        Some(Value::String("test".to_string())),
        JsonPointer::parse("/object/test").ok().and_then(|p| p.get(&object))
    );
    assert_eq!(None, JsonPointer::parse("/object/test2").ok().and_then(|p| p.get(&object)));
    assert_eq!(None, JsonPointer::parse("/object2/test").ok().and_then(|p| p.get(&object)));
    assert_eq!(
        Some(Value::String("test".to_string())),
        JsonPointer::parse("/array/4/test").ok().and_then(|p| p.get(&object))
    );
    assert_eq!(None, JsonPointer::parse("/array/3/test").ok().and_then(|p| p.get(&object)));
    assert_eq!(None, JsonPointer::parse("/array2/4/test").ok().and_then(|p| p.get(&object)));
    assert_eq!(
        Some(Value::Bool(true)),
        JsonPointer::parse("/es~1cape").ok().and_then(|p| p.get(&object))
    );
    assert_eq!(Some(object.clone()), JsonPointer::parse("/").ok().and_then(|p| p.get(&object)));
}

#[test]
fn pointer_get_typed() {
    let object = parse(r#"{"a": [1, 2.5, "x", true, {"b": null}, [3]]}"#);

    assert_eq!(Some(1), JsonPointer::get_integer("/a/0", &object));
    assert_eq!(Some(2.5f64.to_bits()), JsonPointer::get_decimal("/a/1", &object));
    assert_eq!(Some(Number::Integer(1)), JsonPointer::get_number("/a/0", &object));
    assert_eq!(Some("x".to_string()), JsonPointer::get_string("/a/2", &object));
    assert_eq!(Some(true), JsonPointer::get_bool("/a/3", &object));
    assert_eq!(Some(Object::new().add("b", Value::Null)), JsonPointer::get_object("/a/4", &object));
    assert_eq!(Some(Array::new().add_integer(3)), JsonPointer::get_array("/a/5", &object));
    assert_eq!(None, JsonPointer::get_string("/a/0", &object));
    assert_eq!(None, JsonPointer::get_integer("a/0", &object));
    assert_eq!(None, JsonPointer::get_integer("/a/9", &object));
}

#[test]
fn pointer_get_from_scalar() {
    assert_eq!(None, pointer("/").get(&Value::Bool(true)));
    assert_eq!(None, pointer("/a").get(&Value::Null));
}

#[test]
fn pointer_remove() {
    let array = parse(r#"["string", {"test": "test", "test2": "test2"}, ["string"]]"#)
        .as_array()
        .unwrap();

    assert_eq!(
        array.remove(0).ok().map(Value::Array),
        JsonPointer::parse("/0").ok().and_then(|p| p.remove(&Value::Array(array.clone())))
    );
    assert_eq!(
        None,
        JsonPointer::parse("/4").ok().and_then(|p| p.remove(&Value::Array(array.clone())))
    );
    assert_eq!(
        array.set_object(1, &Object::new().add_string("test", "test")).ok().map(Value::Array),
        JsonPointer::parse("/1/test2").ok().and_then(|p| p.remove(&Value::Array(array.clone())))
    );
}

#[test]
fn pointer_set() {
    let array = parse(r#"["string", {"test": "test"}, ["string"]]"#).as_array().unwrap();

    assert_eq!(
        array.set_string(0, "string2").ok().map(Value::Array),
        JsonPointer::parse("/0")
            .ok()
            .and_then(|p| p.set(&Value::Array(array.clone()), &Value::String("string2".to_string())))
    );
    assert_eq!(
        None,
        JsonPointer::parse("/4")
            .ok()
            .and_then(|p| p.set(&Value::Array(array.clone()), &Value::String("string2".to_string())))
    );
    assert_eq!(
        array.set_object(1, &Object::new().add_string("test", "test2")).ok().map(Value::Array),
        JsonPointer::parse("/1/test")
            .ok()
            .and_then(|p| p.set(&Value::Array(array.clone()), &Value::String("test2".to_string())))
    );
}

#[test]
fn pointer_root_cannot_be_changed() {
    let object = Value::Object(Object::new().add_integer("a", 1));

    assert_eq!(None, pointer("/").add(&object, &Value::Null));
    assert_eq!(None, pointer("/").set(&object, &Value::Null));
    assert_eq!(None, pointer("/").remove(&object));
    assert_eq!(None, pointer("/a").set(&Value::Bool(true), &Value::Null));
}

#[test]
fn pointer_typed_add_and_set() {
    let target = Value::Object(Object::new());

    assert_eq!(
        Some(Value::Object(Object::new().add_integer("n", 5))),
        JsonPointer::add_integer("/n", &target, 5)
    );
    assert_eq!(
        Some(Value::Object(Object::new().add_bool("b", true))),
        JsonPointer::add_bool("/b", &target, true)
    );
    assert_eq!(
        Some(Value::Object(Object::new().add_decimal("d", 0.5f64.to_bits()))),
        JsonPointer::add_decimal("/d", &target, 0.5f64.to_bits())
    );
    assert_eq!(
        Some(Value::Object(Object::new().add_string("s", "x"))),
        JsonPointer::add_string("/s", &target, "x")
    );
    assert_eq!(
        Some(Value::Object(Object::new().add_number("n", Number::Integer(2)))),
        JsonPointer::add_number("/n", &target, Number::Integer(2))
    );
    assert_eq!(
        Some(Value::Object(Object::new().add_array("a", Array::new()))),
        JsonPointer::add_array("/a", &target, &Array::new())
    );
    assert_eq!(
        Some(Value::Object(Object::new().add_object("o", Object::new()))),
        JsonPointer::add_object("/o", &target, &Object::new())
    );
    assert_eq!(None, JsonPointer::add_integer("n", &target, 5));

    let array = Value::Array(Array::new().add_integer(1));
    assert_eq!(
        Some(Value::Array(Array::new().add_string("x"))),
        JsonPointer::set_string("/0", &array, "x")
    );
    assert_eq!(
        Some(Value::Array(Array::new().add_bool(false))),
        JsonPointer::set_bool("/0", &array, false)
    );
    assert_eq!(
        Some(Value::Array(Array::new().add_integer(9))),
        JsonPointer::set_integer("/0", &array, 9)
    );
    assert_eq!(
        Some(Value::Array(Array::new().add_decimal(1.5f64.to_bits()))),
        JsonPointer::set_decimal("/0", &array, 1.5f64.to_bits())
    );
    assert_eq!(
        Some(Value::Array(Array::new().add_number(Number::Integer(3)))),
        JsonPointer::set_number("/0", &array, Number::Integer(3))
    );
    assert_eq!(
        Some(Value::Array(Array::new().add_array(&Array::new()))),
        JsonPointer::set_array("/0", &array, &Array::new())
    );
    assert_eq!(
        Some(Value::Array(Array::new().add_object(&Object::new()))),
        JsonPointer::set_object("/0", &array, &Object::new())
    );
    assert_eq!(None, JsonPointer::set_integer("/1", &array, 9));
    assert_eq!(None, JsonPointer::set_integer("/-", &array, 9));
}

#[test]
fn pointer_child_parent_and_index() {
    let p = JsonPointer::new().child("a").child("3");

    assert_eq!("/a/3", p.to_string());
    assert_eq!(Some(3), p.array_index());
    assert_eq!(None, JsonPointer::new().child("a").array_index());
    assert_eq!(None, JsonPointer::new().array_index());
    assert_eq!("/a", p.parent().to_string());
    assert_eq!(JsonPointer::new(), JsonPointer::new().parent());
    assert_eq!(p.parent().child("3"), p);
    assert_eq!("/a~1b", JsonPointer::new().child("a/b").to_string());
}

#[test]
fn pointer_escape_and_unescape() {
    assert_eq!("a~1b~0c", escape("a/b~c"));
    assert_eq!("a/b~c", unescape("a~1b~0c"));
    assert_eq!("~1", unescape("~01"));
    assert_eq!("x/y~z", unescape(&escape("x/y~z")));
    assert_eq!("", escape(""));
}

#[test]
fn pointer_default_is_root() {
    assert_eq!(JsonPointer::new(), JsonPointer::default());
    assert_eq!("", JsonPointer::default().to_string());
}

#[test]
fn pointer_law_get_after_set_and_remove() {
    let target = parse(r#"{"a": {"b": [1, 2]}}"#);
    let set = pointer("/a/b/1").set(&target, &Value::Bool(true)).unwrap();

    assert_eq!(Some(Value::Bool(true)), pointer("/a/b/1").get(&set));
    assert_eq!(Some(Value::Number(Number::Integer(1))), pointer("/a/b/0").get(&set));

    let added = pointer("/a/c").add(&target, &Value::Null).unwrap();
    assert_eq!(Some(Value::Null), pointer("/a/c").get(&added));

    let removed = pointer("/a/b").remove(&target).unwrap();
    assert_eq!(None, pointer("/a/b").get(&removed));
}

#[test]
fn pointer_law_get_through_child() {
    let target = parse(r#"{"a": {"b": [10, 20]}, "c": 1}"#);
    let p = pointer("/a/b");

    assert_eq!(Some(Value::Number(Number::Integer(20))), p.child("1").get(&target));
    assert_eq!(None, p.child("2").get(&target));
    assert_eq!(None, pointer("/c").child("x").get(&target));
    assert_eq!(
        pointer("/a").get(&target).and_then(|w| w.as_object()).and_then(|o| o.get("b").cloned()),
        pointer("/a").child("b").get(&target)
    );
}

#[test]
fn pointer_law_remove_after_add() {
    let target = parse(r#"{"a": {"b": [10, 20]}}"#);

    for p in ["/a/b/0", "/a/b/2", "/a/new", "/new"] {
        let p = pointer(p);
        let added = p.add(&target, &Value::Bool(true)).unwrap();
        assert_eq!(Some(target.clone()), p.remove(&added));
    }
    let dash = pointer("/a/b/-");
    let added = dash.add(&target, &Value::Bool(true)).unwrap();
    assert_eq!(None, dash.remove(&added));
}
