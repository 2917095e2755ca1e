//! JSON patches (RFC 6902) written as JSON arrays, and the decisions around applying and
//! computing them.
//!
//! A patch is an array of objects such as `{"op": "add", "path": "/a", "value": 1}`. The
//! operations that `json_patch` applies are held, one for one, in `PatchOperation`; paths are
//! kept as the text of a valid `jsonptr` pointer.
use crate::api::{is_string_of, Value};
use crate::array::Array;
use crate::error::JsonPatchError;
use crate::object::Object;
use crate::serde::{from_value, json_kept, to_value, value_from_json, value_to_json, JsonValue};
use vstd::prelude::*;

verus! {

broadcast use vstd::string::group_string_axioms;

/// An operation of a JSON patch, as `json_patch::PatchOperation` holds it.
#[derive(Debug, PartialEq)]
pub enum PatchOperation {
    Add { path: String, value: JsonValue },
    Copy { from: String, path: String },
    Move { from: String, path: String },
    Remove { path: String },
    Replace { path: String, value: JsonValue },
    Test { path: String, value: JsonValue },
}

/// The escapes of a pointer text are valid: every `~` is followed by `0` or `1`.
pub open spec fn escapes_valid(s: Seq<char>) -> bool
    decreases s.len(),
{
    if s.len() == 0 {
        true
    } else if s[0] == '~' {
        s.len() >= 2 && (s[1] == '0' || s[1] == '1') && escapes_valid(s.skip(2))
    } else {
        escapes_valid(s.skip(1))
    }
}

/// What `jsonptr` accepts as a pointer: the empty text, or a text that starts with `/` and has
/// valid escapes.
pub open spec fn pointer_buf_valid(s: Seq<char>) -> bool {
    s.len() == 0 || (s[0] == '/' && escapes_valid(s))
}

/// `jsonptr::PointerBuf::parse` (through `str::parse`): whether the text is a valid pointer.
/// The source's `validate` accepts the empty text, and otherwise asks for a leading `/` and for
/// every `~` to be followed by `0` or `1`; these are ASCII characters, so checking bytes and
/// checking characters agree.
#[verifier::external_body]
fn pointer_buf_parses(s: &str) -> (r: bool)
    ensures
        r == pointer_buf_valid(s@),
{
    s.parse::<json_patch::jsonptr::PointerBuf>().is_ok()
}

/// The two texts are equal.
fn same_text(a: &str, b: &str) -> (r: bool)
    ensures
        r == (a@ == b@),
{
    a.to_owned() == b.to_owned()
}

/// The text of the field, if the object has that field and it is a string.
pub open spec fn string_field(o: Map<Seq<char>, Value>, field: Seq<char>) -> Option<Seq<char>> {
    if o.contains_key(field) && o[field] is String {
        Some(o[field]->String_0@)
    } else {
        None
    }
}

/// The text of the field, if it is a string that is a valid pointer.
pub open spec fn path_field(o: Map<Seq<char>, Value>, field: Seq<char>) -> Option<Seq<char>> {
    match string_field(o, field) {
        Some(p) => if pointer_buf_valid(p) {
            Some(p)
        } else {
            None
        },
        None => None,
    }
}

/// The object has a field `value` that converts to `serde_json`.
pub open spec fn value_field_kept(o: Map<Seq<char>, Value>) -> bool {
    o.contains_key("value"@) && json_kept(o["value"@], usize::MAX as nat)
}

/// The object describes an operation: its `op` names one, and it has the fields that the
/// operation needs (`path`, and `from` or `value`).
pub open spec fn operation_defined(o: Map<Seq<char>, Value>) -> bool {
    match string_field(o, "op"@) {
        Some(name) => if name == "add"@ {
            path_field(o, "path"@) is Some && value_field_kept(o)
        } else if name == "copy"@ || name == "move"@ {
            path_field(o, "from"@) is Some && path_field(o, "path"@) is Some
        } else if name == "remove"@ {
            path_field(o, "path"@) is Some
        } else if name == "replace"@ || name == "test"@ {
            path_field(o, "path"@) is Some && value_field_kept(o)
        } else {
            false
        },
        None => false,
    }
}

/// `op` is the operation that the object describes.
pub open spec fn operation_of_object(o: Map<Seq<char>, Value>, op: PatchOperation) -> bool {
    let name = string_field(o, "op"@);
    match op {
        PatchOperation::Add { path, value } => name == Some("add"@) && path_field(o, "path"@)
            == Some(path@) && value_to_json(o["value"@], value, usize::MAX as nat),
        PatchOperation::Copy { from, path } => name == Some("copy"@) && path_field(o, "from"@)
            == Some(from@) && path_field(o, "path"@) == Some(path@),
        PatchOperation::Move { from, path } => name != Some("copy"@) && name == Some("move"@)
            && path_field(o, "from"@) == Some(from@) && path_field(o, "path"@) == Some(path@),
        PatchOperation::Remove { path } => name == Some("remove"@) && path_field(o, "path"@)
            == Some(path@),
        PatchOperation::Replace { path, value } => name == Some("replace"@) && path_field(
            o,
            "path"@,
        ) == Some(path@) && value_to_json(o["value"@], value, usize::MAX as nat),
        PatchOperation::Test { path, value } => name != Some("replace"@) && name == Some("test"@)
            && path_field(o, "path"@) == Some(path@) && value_to_json(
            o["value"@],
            value,
            usize::MAX as nat,
        ),
    }
}

/// The pointer text of a field of an object, if it is a string that is a valid pointer.
fn get_path(object: &Object, field: &str) -> (r: Option<String>)
    ensures
        r matches Some(p) ==> path_field(object@, field@) == Some(p@),
        r is None ==> path_field(object@, field@) is None,
{
    match object.get_string(field) {
        Some(v) => if pointer_buf_parses(v.as_str()) {
            Some(v)
        } else {
            None
        },
        None => None,
    }
}

/// The `serde_json` form of the field `value` of an object, if it has one.
fn get_value(object: &Object) -> (r: Option<JsonValue>)
    ensures
        r is Some <==> value_field_kept(object@),
        r matches Some(j) ==> value_to_json(object@["value"@], j, usize::MAX as nat),
{
    match object.get("value") {
        Some(v) => to_value(v),
        None => None,
    }
}

fn add_operation(object: &Object) -> (r: Option<PatchOperation>)
    requires
        string_field(object@, "op"@) == Some("add"@),
    ensures
        r is Some <==> operation_defined(object@),
        r matches Some(op) ==> operation_of_object(object@, op),
{
    match (get_path(object, "path"), get_value(object)) {
        (Some(p), Some(v)) => Some(PatchOperation::Add { path: p, value: v }),
        (_, _) => None,
    }
}

fn copy_operation(object: &Object) -> (r: Option<PatchOperation>)
    requires
        string_field(object@, "op"@) == Some("copy"@),
        string_field(object@, "op"@) != Some("add"@),
    ensures
        r is Some <==> operation_defined(object@),
        r matches Some(op) ==> operation_of_object(object@, op),
{
    match (get_path(object, "from"), get_path(object, "path")) {
        (Some(f), Some(p)) => Some(PatchOperation::Copy { from: f, path: p }),
        (_, _) => None,
    }
}

fn move_operation(object: &Object) -> (r: Option<PatchOperation>)
    requires
        string_field(object@, "op"@) == Some("move"@),
        string_field(object@, "op"@) != Some("add"@),
        string_field(object@, "op"@) != Some("copy"@),
    ensures
        r is Some <==> operation_defined(object@),
        r matches Some(op) ==> operation_of_object(object@, op),
{
    match (get_path(object, "from"), get_path(object, "path")) {
        (Some(f), Some(p)) => Some(PatchOperation::Move { from: f, path: p }),
        (_, _) => None,
    }
}

fn remove_operation(object: &Object) -> (r: Option<PatchOperation>)
    requires
        string_field(object@, "op"@) == Some("remove"@),
        string_field(object@, "op"@) != Some("add"@),
        string_field(object@, "op"@) != Some("copy"@),
        string_field(object@, "op"@) != Some("move"@),
    ensures
        r is Some <==> operation_defined(object@),
        r matches Some(op) ==> operation_of_object(object@, op),
{
    match get_path(object, "path") {
        Some(p) => Some(PatchOperation::Remove { path: p }),
        None => None,
    }
}

fn replace_operation(object: &Object) -> (r: Option<PatchOperation>)
    requires
        string_field(object@, "op"@) == Some("replace"@),
        string_field(object@, "op"@) != Some("add"@),
        string_field(object@, "op"@) != Some("copy"@),
        string_field(object@, "op"@) != Some("move"@),
        string_field(object@, "op"@) != Some("remove"@),
    ensures
        r is Some <==> operation_defined(object@),
        r matches Some(op) ==> operation_of_object(object@, op),
{
    match (get_path(object, "path"), get_value(object)) {
        (Some(p), Some(v)) => Some(PatchOperation::Replace { path: p, value: v }),
        (_, _) => None,
    }
}

fn test_operation(object: &Object) -> (r: Option<PatchOperation>)
    requires
        string_field(object@, "op"@) == Some("test"@),
        string_field(object@, "op"@) != Some("add"@),
        string_field(object@, "op"@) != Some("copy"@),
        string_field(object@, "op"@) != Some("move"@),
        string_field(object@, "op"@) != Some("remove"@),
        string_field(object@, "op"@) != Some("replace"@),
    ensures
        r is Some <==> operation_defined(object@),
        r matches Some(op) ==> operation_of_object(object@, op),
{
    match (get_path(object, "path"), get_value(object)) {
        (Some(p), Some(v)) => Some(PatchOperation::Test { path: p, value: v }),
        (_, _) => None,
    }
}

/// The operation that an object describes, if it describes one.
pub fn object_to_path_operation(object: &Object) -> (r: Option<PatchOperation>)
    ensures
        r is Some <==> operation_defined(object@),
        r matches Some(op) ==> operation_of_object(object@, op),
{
    match object.get_string("op") {
        Some(s) => {
            let name = s.as_str();
            if same_text(name, "add") {
                add_operation(object)
            } else if same_text(name, "copy") {
                copy_operation(object)
            } else if same_text(name, "move") {
                move_operation(object)
            } else if same_text(name, "remove") {
                remove_operation(object)
            } else if same_text(name, "replace") {
                replace_operation(object)
            } else if same_text(name, "test") {
                test_operation(object)
            } else {
                None
            }
        },
        None => None,
    }
}

/// The positions of the elements of a patch array that describe operations, in order.
pub open spec fn operation_positions(a: Seq<Value>) -> Seq<int>
    decreases a.len(),
{
    if a.len() == 0 {
        Seq::empty()
    } else if a.last() matches Value::Object(o) && operation_defined(o@) {
        operation_positions(a.drop_last()).push(a.len() - 1)
    } else {
        operation_positions(a.drop_last())
    }
}

/// The operations of a patch array: one for each element that is an object describing an
/// operation, in order; other elements are ignored.
pub fn array_to_patch(array: &Array) -> (r: Vec<PatchOperation>)
    ensures
        r@.len() == operation_positions(array@).len(),
        forall|k: int|
            0 <= k < r@.len() ==> operation_of_object(
                array@[#[trigger] operation_positions(array@)[k]]->Object_0@,
                r@[k],
            ),
{
    let items = array.iter();
    let mut r: Vec<PatchOperation> = Vec::new();
    let mut i: usize = 0;
    while i < items.len()
        invariant
            i <= items@.len(),
            items@ == array@,
            r@.len() == operation_positions(array@.take(i as int)).len(),
            forall|k: int|
                0 <= k < r@.len() ==> operation_of_object(
                    array@[#[trigger] operation_positions(array@.take(i as int))[k]]->Object_0@,
                    r@[k],
                ),
        decreases items.len() - i,
    {
        assert(array@.take(i + 1).drop_last() == array@.take(i as int));
        assert(array@.take(i + 1).last() == array@[i as int]);
        let ghost before = operation_positions(array@.take(i as int));
        match &items[i] {
            Value::Object(o) => match object_to_path_operation(o) {
                Some(op) => {
                    r.push(op);
                    assert(operation_positions(array@.take(i + 1)) == before.push(i as int));
                },
                None => {
                    assert(operation_positions(array@.take(i + 1)) == before);
                },
            },
            _ => {
                assert(operation_positions(array@.take(i + 1)) == before);
            },
        }
        i = i + 1;
    }
    assert(array@.take(items@.len() as int) == array@);
    r
}

/// `o` is the object that describes the operation: the field `op` names it, and the fields
/// `from`, `path` and `value` that it has hold its pointers and its value.
pub open spec fn object_of_operation(op: PatchOperation, o: Map<Seq<char>, Value>) -> bool {
    match op {
        PatchOperation::Add { path, value } => {
            &&& o.dom() == set!["op"@, "path"@, "value"@]
            &&& is_string_of(o["op"@], "add"@)
            &&& is_string_of(o["path"@], path@)
            &&& value_from_json(value, o["value"@])
        },
        PatchOperation::Copy { from, path } => {
            &&& o.dom() == set!["op"@, "from"@, "path"@]
            &&& is_string_of(o["op"@], "copy"@)
            &&& is_string_of(o["from"@], from@)
            &&& is_string_of(o["path"@], path@)
        },
        PatchOperation::Move { from, path } => {
            &&& o.dom() == set!["op"@, "from"@, "path"@]
            &&& is_string_of(o["op"@], "move"@)
            &&& is_string_of(o["from"@], from@)
            &&& is_string_of(o["path"@], path@)
        },
        PatchOperation::Remove { path } => {
            &&& o.dom() == set!["op"@, "path"@]
            &&& is_string_of(o["op"@], "remove"@)
            &&& is_string_of(o["path"@], path@)
        },
        PatchOperation::Replace { path, value } => {
            &&& o.dom() == set!["op"@, "path"@, "value"@]
            &&& is_string_of(o["op"@], "replace"@)
            &&& is_string_of(o["path"@], path@)
            &&& value_from_json(value, o["value"@])
        },
        PatchOperation::Test { path, value } => {
            &&& o.dom() == set!["op"@, "path"@, "value"@]
            &&& is_string_of(o["op"@], "test"@)
            &&& is_string_of(o["path"@], path@)
            &&& value_from_json(value, o["value"@])
        },
    }
}

/// An object with the fields `op`, `path` and `value`.
fn op_path_value(name: &str, path: &str, value: &JsonValue) -> (r: Object)
    ensures
        r@.dom() == set!["op"@, "path"@, "value"@],
        is_string_of(r@["op"@], name@),
        is_string_of(r@["path"@], path@),
        value_from_json(*value, r@["value"@]),
{
    proof {
        reveal_strlit("op");
        reveal_strlit("path");
        reveal_strlit("value");
    }
    let converted = match from_value(value) {
        Some(v) => v,
        None => Value::Null,
    };
    let a = Object::new().add_string("op", name);
    let b = a.add_string("path", path);
    let r = b.add("value", converted);
    assert("op"@.len() == 2 && "path"@.len() == 4 && "value"@.len() == 5);
    assert(b@.remove("path"@).contains_key("op"@) && b@.remove("path"@)["op"@] == a@.remove(
        "path"@,
    )["op"@]);
    assert(b@["op"@] == a@["op"@]);
    assert(r@["op"@] == b@["op"@]);
    assert(r@["path"@] == b@["path"@]);
    assert(r@.dom() =~= set!["op"@, "path"@, "value"@]);
    r
}

/// An object with the fields `op`, `from` and `path`.
fn op_from_path(name: &str, from: &str, path: &str) -> (r: Object)
    ensures
        r@.dom() == set!["op"@, "from"@, "path"@],
        is_string_of(r@["op"@], name@),
        is_string_of(r@["from"@], from@),
        is_string_of(r@["path"@], path@),
{
    proof {
        reveal_strlit("op");
        reveal_strlit("from");
        reveal_strlit("path");
    }
    let a = Object::new().add_string("op", name);
    let b = a.add_string("from", from);
    let r = b.add_string("path", path);
    assert("op"@.len() == 2 && "from"@.len() == 4 && "path"@.len() == 4);
    assert("from"@[0] != "path"@[0]);
    assert(b@.remove("from"@)["op"@] == a@.remove("from"@)["op"@]);
    assert(b@["op"@] == a@["op"@]);
    assert(r@.remove("path"@)["op"@] == b@.remove("path"@)["op"@]);
    assert(r@["op"@] == b@["op"@]);
    assert(r@.remove("path"@)["from"@] == b@.remove("path"@)["from"@]);
    assert(r@["from"@] == b@["from"@]);
    assert(r@.dom() =~= set!["op"@, "from"@, "path"@]);
    r
}

/// The object that describes an operation.
pub fn patch_operation_to_object(op: &PatchOperation) -> (r: Object)
    ensures
        object_of_operation(*op, r@),
{
    match op {
        PatchOperation::Add { path, value } => op_path_value("add", path.as_str(), value),
        PatchOperation::Copy { from, path } => op_from_path("copy", from.as_str(), path.as_str()),
        PatchOperation::Move { from, path } => op_from_path("move", from.as_str(), path.as_str()),
        PatchOperation::Remove { path } => {
            proof {
                reveal_strlit("op");
                reveal_strlit("path");
            }
            let a = Object::new().add_string("op", "remove");
            let r = a.add_string("path", path.as_str());
            assert("op"@.len() == 2 && "path"@.len() == 4);
            assert(r@.remove("path"@)["op"@] == a@.remove("path"@)["op"@]);
            assert(r@["op"@] == a@["op"@]);
            assert(r@.dom() =~= set!["op"@, "path"@]);
            r
        },
        PatchOperation::Replace { path, value } => op_path_value("replace", path.as_str(), value),
        PatchOperation::Test { path, value } => op_path_value("test", path.as_str(), value),
    }
}

/// The patch array of a list of operations: one object per operation, in order.
pub fn patch_to_array(patch: &Vec<PatchOperation>) -> (r: Array)
    ensures
        r@.len() == patch@.len(),
        forall|k: int|
            0 <= k < patch@.len() ==> #[trigger] r@[k] is Object && object_of_operation(
                patch@[k],
                r@[k]->Object_0@,
            ),
{
    let mut r = Array::new();
    let mut i: usize = 0;
    while i < patch.len()
        invariant
            i <= patch@.len(),
            r@.len() == i,
            forall|k: int|
                0 <= k < i ==> #[trigger] r@[k] is Object && object_of_operation(
                    patch@[k],
                    r@[k]->Object_0@,
                ),
        decreases patch.len() - i,
    {
        let o = patch_operation_to_object(&patch[i]);
        r = r.add_object(&o);
        i = i + 1;
    }
    r
}

/// The `serde_json` document that a value is patched as: its conversion, or null when it has
/// none.
pub open spec fn document_of(source: Value, doc: JsonValue) -> bool {
    if json_kept(source, usize::MAX as nat) {
        value_to_json(source, doc, usize::MAX as nat)
    } else {
        doc is Null
    }
}

/// The document and the operations that applying a patch array to a source hands to
/// `json_patch::patch`.
pub fn apply_input(source: &Value, json_patch: &Array) -> (r: (JsonValue, Vec<PatchOperation>))
    ensures
        document_of(*source, r.0),
        r.1@.len() == operation_positions(json_patch@).len(),
        forall|k: int|
            0 <= k < r.1@.len() ==> operation_of_object(
                json_patch@[#[trigger] operation_positions(json_patch@)[k]]->Object_0@,
                r.1@[k],
            ),
{
    let doc = match to_value(source) {
        Some(j) => j,
        None => JsonValue::Null,
    };
    (doc, array_to_patch(json_patch))
}

/// What applying a patch gives, from the outcome of `json_patch::patch`: the patched document
/// converted back, or the error with the source and the patch.
pub fn apply_outcome(source: &Value, json_patch: &Array, outcome: Result<JsonValue, String>) -> (r:
    Result<Value, JsonPatchError>)
    ensures
        outcome is Ok ==> (r matches Ok(v) && value_from_json(outcome->Ok_0, v)),
        outcome is Err ==> (r matches Err(p) && p.error == outcome->Err_0 && *p.source
            == *source && *p.patch == *json_patch),
{
    match outcome {
        Ok(j) => match from_value(&j) {
            Some(v) => Ok(v),
            None => Ok(Value::Null),
        },
        Err(e) => Err(
            JsonPatchError {
                source: Box::new(source.duplicate()),
                patch: Box::new(json_patch.duplicate()),
                error: e,
            },
        ),
    }
}

/// What applying a patch to an array gives, from the outcome of `json_patch::patch`: the
/// patched array, or an error when the patch failed or did not give an array.
pub fn apply_array_outcome(
    source: &Array,
    json_patch: &Array,
    outcome: Result<JsonValue, String>,
) -> (r: Result<Array, JsonPatchError>)
    ensures
        outcome is Ok && outcome->Ok_0 is Array ==> (r matches Ok(a) && value_from_json(
            outcome->Ok_0,
            Value::Array(a),
        )),
        outcome is Ok && !(outcome->Ok_0 is Array) ==> (r matches Err(p) && p.error@
            == "the result is not an array"@ && *p.source == Value::Array(*source) && *p.patch
            == *json_patch),
        outcome is Err ==> (r matches Err(p) && p.error == outcome->Err_0 && *p.source
            == Value::Array(*source) && *p.patch == *json_patch),
{
    let whole = Value::Array(source.duplicate());
    match apply_outcome(&whole, json_patch, outcome) {
        Ok(v) => match v.as_array() {
            Some(a) => Ok(a),
            None => Err(
                JsonPatchError {
                    source: Box::new(whole),
                    patch: Box::new(json_patch.duplicate()),
                    error: "the result is not an array".to_owned(),
                },
            ),
        },
        Err(e) => Err(e),
    }
}

/// What applying a patch to an object gives, from the outcome of `json_patch::patch`: the
/// patched object, or an error when the patch failed or did not give an object.
pub fn apply_object_outcome(
    source: &Object,
    json_patch: &Array,
    outcome: Result<JsonValue, String>,
) -> (r: Result<Object, JsonPatchError>)
    ensures
        outcome is Ok && outcome->Ok_0 is Object ==> (r matches Ok(o) && value_from_json(
            outcome->Ok_0,
            Value::Object(o),
        )),
        outcome is Ok && !(outcome->Ok_0 is Object) ==> (r matches Err(p) && p.error@
            == "the result is not an object"@ && *p.source == Value::Object(*source) && *p.patch
            == *json_patch),
        outcome is Err ==> (r matches Err(p) && p.error == outcome->Err_0 && *p.source
            == Value::Object(*source) && *p.patch == *json_patch),
{
    let whole = Value::Object(source.duplicate());
    match apply_outcome(&whole, json_patch, outcome) {
        Ok(v) => match v.as_object() {
            Some(o) => Ok(o),
            None => Err(
                JsonPatchError {
                    source: Box::new(whole),
                    patch: Box::new(json_patch.duplicate()),
                    error: "the result is not an object".to_owned(),
                },
            ),
        },
        Err(e) => Err(e),
    }
}

/// The two documents that computing a patch from a source to a target hands to
/// `json_patch::diff`.
pub fn diff_input(source: &Value, target: &Value) -> (r: (JsonValue, JsonValue))
    ensures
        document_of(*source, r.0),
        document_of(*target, r.1),
{
    let s = match to_value(source) {
        Some(j) => j,
        None => JsonValue::Null,
    };
    let t = match to_value(target) {
        Some(j) => j,
        None => JsonValue::Null,
    };
    (s, t)
}

} // verus!
