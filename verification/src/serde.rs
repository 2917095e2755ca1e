//! Conversions between immutable JSON values and `serde_json`'s values.
//!
//! `JsonValue` holds, one for one, what a `serde_json::Value` holds: its number is one of the
//! three forms that `serde_json` keeps (a non-negative integer, a negative integer, or a finite
//! binary64 number), and its object lists the fields of a `serde_json::Map`.
use crate::api::{decimal_is_finite, is_finite_decimal, Number, Value};
use crate::array::Array;
use crate::error::Error;
use crate::object::{fields_of_pairs, Object};
use vstd::prelude::*;

verus! {

/// A number as `serde_json` holds it.
#[derive(Clone, Copy, Debug, PartialEq, Eq, Structural)]
pub enum JsonNumber {
    /// A non-negative integer.
    PosInt(u64),
    /// A negative integer.
    NegInt(i64),
    /// A finite binary64 number, given by its bits.
    Float(u64),
}

/// A value as `serde_json` holds it.
#[derive(Debug, PartialEq)]
pub enum JsonValue {
    Null,
    Bool(bool),
    Number(JsonNumber),
    String(String),
    Array(Vec<JsonValue>),
    Object(Vec<(String, JsonValue)>),
}

/// The number of the library that a `serde_json` number gives: an integer for both integer
/// forms (`as_i128`), and a decimal for a float (`as_f64`).
pub open spec fn number_from_json(n: JsonNumber) -> Number {
    match n {
        JsonNumber::PosInt(u) => Number::Integer(u as i128),
        JsonNumber::NegInt(i) => Number::Integer(i as i128),
        JsonNumber::Float(b) => Number::Decimal(b),
    }
}

/// The `serde_json` number that a number of the library gives, if there is one: a finite
/// decimal (`Number::from_f64`), or an integer that fits a `u64` or else an `i64`
/// (`Number::from_i128`).
pub open spec fn number_to_json(n: Number) -> Option<JsonNumber> {
    match n {
        Number::Decimal(b) => if decimal_is_finite(b) {
            Some(JsonNumber::Float(b))
        } else {
            None
        },
        Number::Integer(i) => if 0 <= i <= u64::MAX {
            Some(JsonNumber::PosInt(i as u64))
        } else if i64::MIN <= i < 0 {
            Some(JsonNumber::NegInt(i as i64))
        } else {
            None
        },
    }
}

/// The position `i` holds the last field with its key.
pub open spec fn last_of_key(fields: Seq<(String, JsonValue)>, i: int) -> bool {
    forall|j: int| i < j < fields.len() ==> #[trigger] fields[j].0@ != fields[i].0@
}

/// `v` is the value of the library that `j` converts to: the same structure, with every
/// number converted, and an object's field taken from the last pair with its key.
pub open spec fn value_from_json(j: JsonValue, v: Value) -> bool
    decreases j,
{
    match j {
        JsonValue::Null => v is Null,
        JsonValue::Bool(b) => v == Value::Bool(b),
        JsonValue::Number(n) => v == Value::Number(number_from_json(n)),
        JsonValue::String(s) => v == Value::String(s),
        JsonValue::Array(items) => v matches Value::Array(a) && a@.len() == items@.len() && forall|
            i: int,
        |
            0 <= i < items@.len() ==> value_from_json(#[trigger] items@[i], a@[i]),
        JsonValue::Object(fields) => v matches Value::Object(o) && (forall|k: Seq<char>|
            o@.contains_key(k) <==> exists|i: int|
                0 <= i < fields@.len() && #[trigger] fields@[i].0@ == k) && forall|i: int|
            0 <= i < fields@.len() && last_of_key(fields@, i) ==> value_from_json(
                #[trigger] fields@[i].1,
                o@[fields@[i].0@],
            ),
    }
}

/// The value is kept by a conversion to `serde_json` with `fuel` levels of nesting left: a
/// number must have a `serde_json` form, and a structure needs a level.
pub open spec fn json_kept(v: Value, fuel: nat) -> bool {
    match v {
        Value::Number(n) => number_to_json(n) is Some,
        Value::Array(_) => fuel > 0,
        Value::Object(_) => fuel > 0,
        _ => true,
    }
}

/// The positions of the elements that are kept, in order.
pub open spec fn kept_positions(a: Seq<Value>, fuel: nat) -> Seq<int>
    decreases a.len(),
{
    if a.len() == 0 {
        Seq::empty()
    } else if json_kept(a.last(), fuel) {
        kept_positions(a.drop_last(), fuel).push(a.len() - 1)
    } else {
        kept_positions(a.drop_last(), fuel)
    }
}

/// `j` is the `serde_json` value that `v` converts to with `fuel` levels of nesting left: the
/// same structure, where an array keeps, in order, just the elements that are kept, and an
/// object just the fields whose values are kept (in no particular order).
pub open spec fn value_to_json(v: Value, j: JsonValue, fuel: nat) -> bool
    decreases fuel,
{
    match v {
        Value::Null => j is Null,
        Value::Bool(b) => j == JsonValue::Bool(b),
        Value::Number(n) => number_to_json(n) == Some(j->Number_0) && j is Number,
        Value::String(s) => j == JsonValue::String(s),
        Value::Array(a) => fuel > 0 && j is Array && {
            let items = j->Array_0@;
            let ks = kept_positions(a@, (fuel - 1) as nat);
            &&& items.len() == ks.len()
            &&& forall|k: int|
                0 <= k < items.len() ==> value_to_json(
                    a@[#[trigger] ks[k]],
                    items[k],
                    (fuel - 1) as nat,
                )
        },
        Value::Object(o) => fuel > 0 && j is Object && {
            let fields = j->Object_0@;
            &&& forall|i: int|
                0 <= i < fields.len() ==> o@.contains_key(#[trigger] fields[i].0@) && json_kept(
                    o@[fields[i].0@],
                    (fuel - 1) as nat,
                ) && value_to_json(o@[fields[i].0@], fields[i].1, (fuel - 1) as nat)
            &&& forall|i: int|
                0 <= i < fields.len() ==> forall|m: int|
                    i < m < fields.len() ==> #[trigger] fields[i].0@ != #[trigger] fields[m].0@
            &&& forall|k: Seq<char>|
                o@.contains_key(k) && json_kept(#[trigger] o@[k], (fuel - 1) as nat) ==> exists|
                    i: int,
                | 0 <= i < fields.len() && #[trigger] fields[i].0@ == k
        },
    }
}

/// Convert a `serde_json` number to a number of the library.
fn from_number(value: &JsonNumber) -> (r: Option<Number>)
    ensures
        r == Some(number_from_json(*value)),
{
    match value {
        JsonNumber::PosInt(u) => Some(Number::Integer(*u as i128)),
        JsonNumber::NegInt(i) => Some(Number::Integer(*i as i128)),
        JsonNumber::Float(b) => Some(Number::Decimal(*b)),
    }
}

/// Convert a `serde_json` array to an array of the library.
fn from_array(array: &Vec<JsonValue>) -> (r: Array)
    ensures
        value_from_json(JsonValue::Array(*array), Value::Array(r)),
    decreases array, 0nat,
{
    let mut result = Array::new();
    let mut i: usize = 0;
    while i < array.len()
        invariant
            i <= array@.len(),
            result@.len() == i,
            forall|k: int| 0 <= k < i ==> value_from_json(#[trigger] array@[k], result@[k]),
        decreases array.len() - i,
    {
        assert(decreases_to!(*array => array@[i as int]));
        match from_value(&array[i]) {
            Some(v) => {
                result = result.add(&v);
            },
            None => {
                assert(false);
            },
        }
        i = i + 1;
    }
    result
}

/// Convert the fields of a `serde_json` object to an object of the library.
fn from_object(object: &Vec<(String, JsonValue)>) -> (r: Object)
    ensures
        value_from_json(JsonValue::Object(*object), Value::Object(r)),
    decreases object, 0nat,
{
    let mut pairs: Vec<(String, Value)> = Vec::new();
    let mut i: usize = 0;
    while i < object.len()
        invariant
            i <= object@.len(),
            pairs@.len() == i,
            forall|k: int|
                0 <= k < i ==> (#[trigger] pairs@[k]).0 == object@[k].0 && value_from_json(
                    object@[k].1,
                    pairs@[k].1,
                ),
        decreases object.len() - i,
    {
        let (key, json) = &object[i];
        assert(decreases_to!(*object => object@[i as int]));
        assert(decreases_to!(object@[i as int] => object@[i as int].1));
        match from_value(json) {
            Some(v) => {
                pairs.push((key.clone(), v));
            },
            None => {
                assert(false);
            },
        }
        i = i + 1;
    }
    let r = Object::from_iter(pairs);
    proof {
        lemma_fields_of_pairs(pairs@, object@);
        assert(r@ == fields_of_pairs(pairs@));
        assert(forall|k: Seq<char>|
            r@.contains_key(k) <==> exists|i: int|
                0 <= i < object@.len() && #[trigger] object@[i].0@ == k);
        assert(forall|i: int|
            0 <= i < object@.len() && last_of_key(object@, i) ==> value_from_json(
                #[trigger] object@[i].1,
                r@[object@[i].0@],
            ));
        let j = JsonValue::Object(*object);
        assert(j->Object_0 == *object);
        assert(value_from_json(j, Value::Object(r)));
    }
    r
}

proof fn lemma_fields_of_pairs(pairs: Seq<(String, Value)>, object: Seq<(String, JsonValue)>)
    requires
        pairs.len() == object.len(),
        forall|k: int|
            0 <= k < pairs.len() ==> (#[trigger] pairs[k]).0 == object[k].0 && value_from_json(
                object[k].1,
                pairs[k].1,
            ),
    ensures
        forall|key: Seq<char>|
            fields_of_pairs(pairs).contains_key(key) <==> exists|i: int|
                0 <= i < object.len() && #[trigger] object[i].0@ == key,
        forall|i: int|
            0 <= i < object.len() && last_of_key(object, i) ==> value_from_json(
                #[trigger] object[i].1,
                fields_of_pairs(pairs)[object[i].0@],
            ),
    decreases pairs.len(),
{
    if pairs.len() > 0 {
        let n = pairs.len() - 1;
        lemma_fields_of_pairs(pairs.drop_last(), object.drop_last());
        let before = fields_of_pairs(pairs.drop_last());
        assert(fields_of_pairs(pairs) == before.insert(pairs[n].0@, pairs[n].1));
        assert(pairs[n].0@ == object[n].0@);
        assert forall|key: Seq<char>|
            fields_of_pairs(pairs).contains_key(key) implies exists|i: int|
                0 <= i < object.len() && #[trigger] object[i].0@ == key by {
            if key == pairs[n].0@ {
                assert(object[n].0@ == key);
            } else {
                assert(before.contains_key(key));
                let i = choose|i: int|
                    0 <= i < object.drop_last().len() && #[trigger] object.drop_last()[i].0@ == key;
                assert(object[i].0@ == key);
            }
        }
        assert forall|key: Seq<char>|
            (exists|i: int| 0 <= i < object.len() && #[trigger] object[i].0@ == key) implies
            fields_of_pairs(pairs).contains_key(key) by {
            let i = choose|i: int| 0 <= i < object.len() && #[trigger] object[i].0@ == key;
            if i < n {
                assert(object.drop_last()[i].0@ == key);
            }
        }
        assert forall|i: int|
            0 <= i < object.len() && last_of_key(object, i) implies value_from_json(
            #[trigger] object[i].1,
            fields_of_pairs(pairs)[object[i].0@],
        ) by {
            if i < n {
                assert(object[n].0@ != object[i].0@);
                assert(last_of_key(object.drop_last(), i)) by {
                    assert forall|j: int| i < j < object.drop_last().len() implies #[trigger] object.drop_last()[j].0@
                        != object.drop_last()[i].0@ by {
                        assert(object[j].0@ != object[i].0@);
                    }
                }
                assert(object.drop_last()[i] == object[i]);
            }
        }
    }
}

/// Convert a `serde_json` value to an immutable JSON value. Every `serde_json` value converts.
pub fn from_value(value: &JsonValue) -> (r: Option<Value>)
    ensures
        r matches Some(v) && value_from_json(*value, v),
    decreases value, 1nat,
{
    match value {
        JsonValue::Array(v) => Some(Value::Array(from_array(v))),
        JsonValue::Bool(v) => Some(Value::Bool(*v)),
        JsonValue::Null => Some(Value::Null),
        JsonValue::Number(v) => match from_number(v) {
            Some(n) => Some(Value::Number(n)),
            None => None,
        },
        JsonValue::Object(v) => Some(Value::Object(from_object(v))),
        JsonValue::String(v) => Some(Value::String(v.clone())),
    }
}

/// Convert a number of the library to a `serde_json` number, if it has such a form.
fn to_number(value: &Number) -> (r: Option<JsonNumber>)
    ensures
        r == number_to_json(*value),
{
    match value {
        Number::Decimal(b) => if is_finite_decimal(*b) {
            Some(JsonNumber::Float(*b))
        } else {
            None
        },
        Number::Integer(i) => if 0 <= *i && *i <= u64::MAX as i128 {
            Some(JsonNumber::PosInt(*i as u64))
        } else if i64::MIN as i128 <= *i && *i < 0 {
            Some(JsonNumber::NegInt(*i as i64))
        } else {
            None
        },
    }
}

proof fn lemma_kept_positions(a: Seq<Value>, fuel: nat, i: int)
    requires
        0 <= i < a.len(),
    ensures
        kept_positions(a.take(i + 1), fuel) == (if json_kept(a[i], fuel) {
            kept_positions(a.take(i), fuel).push(i)
        } else {
            kept_positions(a.take(i), fuel)
        }),
{
    assert(a.take(i + 1).drop_last() == a.take(i));
    assert(a.take(i + 1).last() == a[i]);
}

/// Convert the elements of an array, keeping in order the ones that have a `serde_json` form.
fn to_array(array: &Array, fuel: usize) -> (r: Vec<JsonValue>)
    ensures
        r@.len() == kept_positions(array@, fuel as nat).len(),
        forall|k: int|
            0 <= k < r@.len() ==> value_to_json(
                array@[#[trigger] kept_positions(array@, fuel as nat)[k]],
                r@[k],
                fuel as nat,
            ),
    decreases fuel, 2nat,
{
    let items = array.iter();
    let mut r: Vec<JsonValue> = Vec::new();
    let mut i: usize = 0;
    while i < items.len()
        invariant
            i <= items@.len(),
            items@ == array@,
            r@.len() == kept_positions(array@.take(i as int), fuel as nat).len(),
            forall|k: int|
                0 <= k < r@.len() ==> value_to_json(
                    array@[#[trigger] kept_positions(array@.take(i as int), fuel as nat)[k]],
                    r@[k],
                    fuel as nat,
                ),
        decreases items.len() - i,
    {
        proof {
            lemma_kept_positions(array@, fuel as nat, i as int);
        }
        match to_value_at(&items[i], fuel) {
            Some(j) => {
                r.push(j);
            },
            None => {},
        }
        i = i + 1;
    }
    assert(array@.take(items@.len() as int) == array@);
    r
}

/// Convert the fields of an object, keeping the ones whose values have a `serde_json` form.
fn to_object(object: &Object, fuel: usize) -> (r: Vec<(String, JsonValue)>)
    ensures
        forall|i: int|
            0 <= i < r@.len() ==> object@.contains_key(#[trigger] r@[i].0@) && json_kept(
                object@[r@[i].0@],
                fuel as nat,
            ) && value_to_json(object@[r@[i].0@], r@[i].1, fuel as nat),
        forall|i: int|
            0 <= i < r@.len() ==> forall|m: int|
                i < m < r@.len() ==> #[trigger] r@[i].0@ != #[trigger] r@[m].0@,
        forall|k: Seq<char>|
            object@.contains_key(k) && json_kept(#[trigger] object@[k], fuel as nat) ==> exists|
                i: int,
            | 0 <= i < r@.len() && #[trigger] r@[i].0@ == k,
    decreases fuel, 2nat,
{
    let fields = object.iter();
    let mut r: Vec<(String, JsonValue)> = Vec::new();
    let ghost mut origin: Seq<int> = Seq::empty();
    let mut i: usize = 0;
    assert forall|a: int|
        0 <= a < fields@.len() implies #[trigger] object@.contains_key(fields@[a].0@)
            && object@[fields@[a].0@] == fields@[a].1 by {
        let key = fields@[a].0@;
        assert(object@.contains_key(key));
    }
    while i < fields.len()
        invariant
            i <= fields@.len(),
            fields@.len() == object@.dom().len(),
            forall|a: int|
                0 <= a < fields@.len() ==> #[trigger] object@.contains_key(fields@[a].0@)
                    && object@[fields@[a].0@] == fields@[a].1,
            forall|a: int|
                0 <= a < fields@.len() ==> forall|b: int|
                    a < b < fields@.len() ==> #[trigger] fields@[a].0@ != #[trigger] fields@[b].0@,
            origin.len() == r@.len(),
            forall|m: int|
                0 <= m < r@.len() ==> 0 <= #[trigger] origin[m] < i && r@[m].0 == fields@[origin[m]].0
                    && json_kept(fields@[origin[m]].1, fuel as nat) && value_to_json(
                    fields@[origin[m]].1,
                    r@[m].1,
                    fuel as nat,
                ),
            forall|m: int, n: int| 0 <= m < n < r@.len() ==> origin[m] < origin[n],
            forall|a: int|
                0 <= a < i && json_kept(#[trigger] fields@[a].1, fuel as nat) ==> exists|m: int|
                    0 <= m < r@.len() && origin[m] == a,
        decreases fields.len() - i,
    {
        let (key, value) = &fields[i];
        match to_value_at(value, fuel) {
            Some(j) => {
                let ghost old_origin = origin;
                r.push((key.clone(), j));
                proof {
                    origin = origin.push(i as int);
                    assert forall|a: int|
                        0 <= a < i + 1 && json_kept(#[trigger] fields@[a].1, fuel as nat) implies exists|
                        m: int,
                    | 0 <= m < r@.len() && origin[m] == a by {
                        if a == i {
                            assert(origin[r@.len() - 1] == a);
                        } else {
                            let m = choose|m: int| 0 <= m < old_origin.len() && old_origin[m] == a;
                            assert(origin[m] == a);
                        }
                    }
                }
            },
            None => {},
        }
        i = i + 1;
    }
    assert forall|a: int|
        0 <= a < r@.len() implies object@.contains_key(#[trigger] r@[a].0@) && json_kept(
        object@[r@[a].0@],
        fuel as nat,
    ) && value_to_json(object@[r@[a].0@], r@[a].1, fuel as nat) by {
        assert(object@.contains_key(fields@[origin[a]].0@));
    }
    assert forall|a: int|
        0 <= a < r@.len() implies forall|b: int|
        a < b < r@.len() ==> #[trigger] r@[a].0@ != #[trigger] r@[b].0@ by {
        assert forall|b: int| a < b < r@.len() implies #[trigger] r@[a].0@ != #[trigger] r@[b].0@ by {
            assert(origin[a] < origin[b]);
            assert(fields@[origin[a]].0@ != fields@[origin[b]].0@);
        }
    }
    assert forall|k: Seq<char>|
        object@.contains_key(k) && json_kept(#[trigger] object@[k], fuel as nat) implies exists|
        a: int,
    | 0 <= a < r@.len() && #[trigger] r@[a].0@ == k by {
        let f = choose|f: int| 0 <= f < fields@.len() && #[trigger] fields@[f].0@ == k;
        assert(json_kept(fields@[f].1, fuel as nat));
        let m = choose|m: int| 0 <= m < r@.len() && origin[m] == f;
        assert(r@[m].0@ == k);
    }
    r
}

/// Convert a value with `fuel` levels of nesting left.
fn to_value_at(value: &Value, fuel: usize) -> (r: Option<JsonValue>)
    ensures
        r is Some <==> json_kept(*value, fuel as nat),
        r matches Some(j) ==> value_to_json(*value, j, fuel as nat),
    decreases fuel, 1nat,
{
    match value {
        Value::Array(v) => if fuel == 0 {
            None
        } else {
            let items = to_array(v, fuel - 1);
            let r = JsonValue::Array(items);
            assert(value_to_json(*value, r, fuel as nat));
            Some(r)
        },
        Value::Bool(v) => Some(JsonValue::Bool(*v)),
        Value::Null => Some(JsonValue::Null),
        Value::Number(v) => match to_number(v) {
            Some(n) => Some(JsonValue::Number(n)),
            None => None,
        },
        Value::Object(v) => if fuel == 0 {
            None
        } else {
            let fields = to_object(v, fuel - 1);
            let ghost f = fields@;
            let ghost n = (fuel - 1) as nat;
            assert forall|i: int|
                0 <= i < f.len() implies v@.contains_key(#[trigger] f[i].0@) && json_kept(
                v@[f[i].0@],
                n,
            ) && value_to_json(v@[f[i].0@], f[i].1, n) by {}
            assert forall|k: Seq<char>|
                v@.contains_key(k) && json_kept(#[trigger] v@[k], n) implies exists|i: int|
                0 <= i < f.len() && #[trigger] f[i].0@ == k by {}
            assert forall|i: int|
                0 <= i < f.len() implies forall|m: int|
                i < m < f.len() ==> #[trigger] f[i].0@ != #[trigger] f[m].0@ by {}
            let r = JsonValue::Object(fields);
            assert(r->Object_0@ == f);
            assert(value_to_json(*value, r, fuel as nat));
            Some(r)
        },
        Value::String(v) => Some(JsonValue::String(v.clone())),
    }
}

/// Convert an immutable JSON value to a `serde_json` value. A number without a `serde_json`
/// form (a decimal that is not finite, or an integer beyond the `u64` and `i64` ranges) is not
/// converted, and it is left out of the array or object that holds it. Structures nested
/// `usize::MAX` levels deep are left out likewise; no such value fits in memory.
pub fn to_value(value: &Value) -> (r: Option<JsonValue>)
    ensures
        r is Some <==> json_kept(*value, usize::MAX as nat),
        r matches Some(j) ==> value_to_json(*value, j, usize::MAX as nat),
{
    to_value_at(value, usize::MAX)
}

impl Value {
    /// Converts a `serde_json` value; every one converts.
    pub fn try_from_json(value: &JsonValue) -> (r: Result<Value, Error>)
        ensures
            r matches Ok(v) && value_from_json(*value, v),
    {
        match from_value(value) {
            Some(v) => Ok(v),
            None => Err(Error::ConvertFrom),
        }
    }

    /// Converts to a `serde_json` value; `ConvertTo` where the value has no `serde_json` form.
    pub fn try_into_json(&self) -> (r: Result<JsonValue, Error>)
        ensures
            r is Ok <==> json_kept(*self, usize::MAX as nat),
            r matches Ok(j) ==> value_to_json(*self, j, usize::MAX as nat),
            r is Err ==> r matches Err(Error::ConvertTo),
    {
        match to_value(self) {
            Some(j) => Ok(j),
            None => Err(Error::ConvertTo),
        }
    }

    /// Reads a value from what `serde_json` parsed of a JSON text: the parse error as it is,
    /// or the parsed value converted.
    pub fn from_parsed(parsed: Result<JsonValue, serde_json::Error>) -> (r: Result<Value, Error>)
        ensures
            parsed matches Ok(j) ==> (r matches Ok(v) && value_from_json(j, v)),
            parsed matches Err(e) ==> (r matches Err(Error::SerdeJson(f)) && f == e),
    {
        match parsed {
            Ok(j) => Value::try_from_json(&j),
            Err(e) => Err(Error::SerdeJson(e)),
        }
    }
}

} // verus!
