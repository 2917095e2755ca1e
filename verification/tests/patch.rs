use immutable_json::api::Value;
use immutable_json::array::Array;
use immutable_json::object::Object;
use immutable_json::patch::{
    apply_array_outcome, apply_input, apply_object_outcome, apply_outcome, array_to_patch,
    diff_input, object_to_path_operation, patch_operation_to_object, patch_to_array,
    PatchOperation,
};
use immutable_json::serde::{JsonNumber, JsonValue};

fn json(v: &serde_json::Value) -> JsonValue {
    match v {
        serde_json::Value::Null => JsonValue::Null,
        serde_json::Value::Bool(b) => JsonValue::Bool(*b),
        serde_json::Value::Number(n) => JsonValue::Number(match (n.as_u64(), n.as_i64()) {
            (Some(u), _) => JsonNumber::PosInt(u),
            (None, Some(i)) => JsonNumber::NegInt(i),
            _ => JsonNumber::Float(n.as_f64().unwrap().to_bits()),
        }),
        serde_json::Value::String(s) => JsonValue::String(s.clone()),
        serde_json::Value::Array(a) => JsonValue::Array(a.iter().map(json).collect()),
        serde_json::Value::Object(o) => {
            JsonValue::Object(o.iter().map(|(k, v)| (k.clone(), json(v))).collect())
        }
    }
}

fn unjson(v: &JsonValue) -> serde_json::Value {
    match v {
        JsonValue::Null => serde_json::Value::Null,
        JsonValue::Bool(b) => serde_json::Value::Bool(*b),
        JsonValue::Number(JsonNumber::PosInt(u)) => serde_json::Value::from(*u),
        JsonValue::Number(JsonNumber::NegInt(i)) => serde_json::Value::from(*i),
        JsonValue::Number(JsonNumber::Float(b)) => serde_json::Value::from(f64::from_bits(*b)),
        JsonValue::String(s) => serde_json::Value::String(s.clone()),
        JsonValue::Array(a) => serde_json::Value::Array(a.iter().map(unjson).collect()),
        JsonValue::Object(o) => {
            serde_json::Value::Object(o.iter().map(|(k, v)| (k.clone(), unjson(v))).collect())
        }
    }
}

fn parse(text: &str) -> Value {
    Value::from_parsed(serde_json::from_str::<serde_json::Value>(text).map(|v| json(&v))).unwrap()
}

fn pointer(s: &str) -> json_patch::jsonptr::PointerBuf {
    json_patch::jsonptr::PointerBuf::parse(s).unwrap()
}

fn outside_operation(op: &PatchOperation) -> json_patch::PatchOperation {
    match op {
        PatchOperation::Add { path, value } => json_patch::PatchOperation::Add(json_patch::AddOperation {
            path: pointer(path),
            value: unjson(value),
        }),
        PatchOperation::Copy { from, path } => json_patch::PatchOperation::Copy(json_patch::CopyOperation {
            from: pointer(from),
            path: pointer(path),
        }),
        PatchOperation::Move { from, path } => json_patch::PatchOperation::Move(json_patch::MoveOperation {
            from: pointer(from),
            path: pointer(path),
        }),
        PatchOperation::Remove { path } => {
            json_patch::PatchOperation::Remove(json_patch::RemoveOperation { path: pointer(path) })
        }
        PatchOperation::Replace { path, value } => {
            json_patch::PatchOperation::Replace(json_patch::ReplaceOperation {
                path: pointer(path),
                value: unjson(value),
            })
        }
        PatchOperation::Test { path, value } => json_patch::PatchOperation::Test(json_patch::TestOperation {
            path: pointer(path),
            value: unjson(value),
        }),
    }
}

fn own_operation(op: &json_patch::PatchOperation) -> PatchOperation {
    match op {
        json_patch::PatchOperation::Add(o) => PatchOperation::Add {
            path: o.path.to_string(),
            value: json(&o.value),
        },
        json_patch::PatchOperation::Copy(o) => PatchOperation::Copy {
            from: o.from.to_string(),
            path: o.path.to_string(),
        },
        json_patch::PatchOperation::Move(o) => PatchOperation::Move {
            from: o.from.to_string(),
            path: o.path.to_string(),
        },
        json_patch::PatchOperation::Remove(o) => PatchOperation::Remove { path: o.path.to_string() },
        json_patch::PatchOperation::Replace(o) => PatchOperation::Replace {
            path: o.path.to_string(),
            value: json(&o.value),
        },
        json_patch::PatchOperation::Test(o) => PatchOperation::Test {
            path: o.path.to_string(),
            value: json(&o.value),
        },
    }
}

fn diff(source: &Value, target: &Value) -> Array {
    let (s, t) = diff_input(source, target);
    let operations = json_patch::diff(&unjson(&s), &unjson(&t));
    patch_to_array(&operations.0.iter().map(own_operation).collect())
}

fn applied(source: &Value, patch: &Array) -> Result<JsonValue, String> {
    let (document, operations) = apply_input(source, patch);
    let mut document = unjson(&document);
    let operations: Vec<json_patch::PatchOperation> = operations.iter().map(outside_operation).collect();
    match json_patch::patch(&mut document, &operations) {
        Ok(()) => Ok(json(&document)),
        Err(e) => Err(e.to_string()),
    }
}

#[test]
fn patch_diff_then_apply_array() {
    let s = parse(r#"["string", 1, 3.0, false, {"test": "test", "obj": {"test2": "test"}}, [1]]"#)
        .as_array()
        .unwrap();
    let t = parse(
        r#"["string", 3.0, 3.0, false, {"test": "test2", "obj": {"test2": "test2"}}, 1, [1]]"#,
    )
    .as_array()
    .unwrap();
    let patch = diff(&Value::Array(s.clone()), &Value::Array(t.clone()));
    let outcome = applied(&Value::Array(s.clone()), &patch);

    assert_eq!(t, apply_array_outcome(&s, &patch, outcome).unwrap());
}

#[test]
fn patch_diff_then_apply_object() {
    let s = parse(
        r#"{
            "string": "string",
            "int": 43,
            "float": 5.8,
            "boolean": true,
            "object": {"test": "test", "obj": {"test2": "test"}},
            "array": ["string", 1, 3.0, false, {"test": "test", "obj": {"test2": "test"}}, [1]]
        }"#,
    )
    .as_object()
    .unwrap();
    let t = parse(
        r#"{
            "string": "string",
            "int": 44,
            "boolean": false,
            "object": {"test": "test"},
            "array": ["string", 3.0, 3.0, false, {"test": "test2", "obj": {"test2": "test2"}}, 1, [1]],
            "float": 5.8
        }"#,
    )
    .as_object()
    .unwrap();
    let patch = diff(&Value::Object(s.clone()), &Value::Object(t.clone()));
    let outcome = applied(&Value::Object(s.clone()), &patch);

    assert_eq!(t, apply_object_outcome(&s, &patch, outcome).unwrap());
}

#[test]
fn patch_objects_describe_operations() {
    let patch = parse(
        r#"[
            {"op": "add", "path": "/a", "value": 1},
            {"op": "copy", "from": "/a", "path": "/b"},
            {"op": "move", "from": "/b", "path": "/c"},
            {"op": "remove", "path": "/a"},
            {"op": "replace", "path": "/c", "value": [true]},
            {"op": "test", "path": "/c", "value": [true]},
            {"op": "add", "path": "no slash", "value": 1},
            {"op": "add", "path": "/x"},
            {"op": "jump", "path": "/x"},
            {"op": "remove", "path": "/a~2"},
            7
        ]"#,
    )
    .as_array()
    .unwrap();

    assert_eq!(
        vec![
            PatchOperation::Add {
                path: "/a".to_string(),
                value: JsonValue::Number(JsonNumber::PosInt(1)),
            },
            PatchOperation::Copy { from: "/a".to_string(), path: "/b".to_string() },
            PatchOperation::Move { from: "/b".to_string(), path: "/c".to_string() },
            PatchOperation::Remove { path: "/a".to_string() },
            PatchOperation::Replace {
                path: "/c".to_string(),
                value: JsonValue::Array(vec![JsonValue::Bool(true)]),
            },
            PatchOperation::Test {
                path: "/c".to_string(),
                value: JsonValue::Array(vec![JsonValue::Bool(true)]),
            },
        ],
        array_to_patch(&patch)
    );
}

#[test]
fn patch_operation_objects() {
    let op = PatchOperation::Move { from: "/x".to_string(), path: "/y".to_string() };
    let object = patch_operation_to_object(&op);

    assert_eq!(
        Object::new().add_string("op", "move").add_string("from", "/x").add_string("path", "/y"),
        object
    );
    assert_eq!(Some(op), object_to_path_operation(&object));
    assert_eq!(None, object_to_path_operation(&Object::new().add_string("op", "remove")));
    assert_eq!(
        Some(PatchOperation::Remove { path: String::new() }),
        object_to_path_operation(&Object::new().add_string("op", "remove").add_string("path", ""))
    );
}

#[test]
fn patch_array_of_operations_round_trip() {
    let operations = vec![
        PatchOperation::Add { path: "/a/0".to_string(), value: JsonValue::String("v".to_string()) },
        PatchOperation::Remove { path: "/b".to_string() },
        PatchOperation::Test { path: "/c".to_string(), value: JsonValue::Null },
    ];
    let array = patch_to_array(&operations);

    assert_eq!(3, array.len());
    assert_eq!(operations, array_to_patch(&array));
}

#[test]
fn patch_failures() {
    let source = Array::new().add_integer(1);
    let patch = Array::new();

    let error = apply_array_outcome(&source, &patch, Err("broken".to_string())).unwrap_err();
    assert_eq!("broken", error.error);
    assert_eq!(Value::Array(source.clone()), *error.source);
    assert_eq!(patch, *error.patch);

    let error = apply_array_outcome(&source, &patch, Ok(JsonValue::Null)).unwrap_err();
    assert_eq!("the result is not an array", error.error);

    let error =
        apply_object_outcome(&Object::new(), &patch, Ok(JsonValue::Bool(true))).unwrap_err();
    assert_eq!("the result is not an object", error.error);
    assert_eq!(Value::Object(Object::new()), *error.source);

    assert_eq!(
        Value::Bool(true),
        apply_outcome(&Value::Null, &patch, Ok(JsonValue::Bool(true))).unwrap()
    );
}

#[test]
fn patch_input_of_values_without_json_form() {
    let source = Value::Number(immutable_json::api::Number::Decimal(f64::NAN.to_bits()));

    assert_eq!(JsonValue::Null, apply_input(&source, &Array::new()).0);
    assert_eq!((JsonValue::Null, JsonValue::Bool(true)), diff_input(&source, &Value::Bool(true)));
}
