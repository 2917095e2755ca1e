//! What converting a value to another JSON representation and back gives.
use crate::api::{decimal_is_finite, Number, Value};
use crate::bson::{
    bson_kept, bson_positions, bson_rank, bson_to_kept, last_kept_of_key, millis_rfc3339_text,
    number_to_bson, rfc3339_millis, value_from_bson, value_to_bson, BsonValue,
};
use crate::jaq::{
    jaq_key_text, jaq_kept, jaq_rank, last_kept_key, value_from_jaq, value_to_jaq, JaqValue,
};
use crate::patch::{
    object_of_operation, operation_defined, operation_of_object, operation_positions,
    pointer_buf_valid, value_field_kept, PatchOperation,
};
use crate::serde::{
    json_kept, kept_positions, last_of_key, number_from_json, number_to_json, value_from_json,
    value_to_json, JsonNumber, JsonValue,
};
use vstd::prelude::*;

verus! {

/// The two values are the same JSON value, looked at `fuel` levels deep: the same scalar (a
/// number with the same form and bits, a string with the same characters), arrays with the
/// same elements in order, or objects with the same keys and the same value for each key.
pub open spec fn same_value(a: Value, b: Value, fuel: nat) -> bool
    decreases fuel,
{
    match (a, b) {
        (Value::Null, Value::Null) => true,
        (Value::Bool(x), Value::Bool(y)) => x == y,
        (Value::Number(x), Value::Number(y)) => x == y,
        (Value::String(x), Value::String(y)) => x@ == y@,
        (Value::Array(x), Value::Array(y)) => fuel > 0 && x@.len() == y@.len() && forall|i: int|
            0 <= i < x@.len() ==> same_value(#[trigger] x@[i], y@[i], (fuel - 1) as nat),
        (Value::Object(x), Value::Object(y)) => fuel > 0 && x@.dom() == y@.dom() && forall|
            k: Seq<char>,
        | #[trigger] x@.contains_key(k) ==> same_value(x@[k], y@[k], (fuel - 1) as nat),
        _ => false,
    }
}

/// Every scalar in the value meets `p`, and its structures are nested less than `fuel` levels
/// deep.
pub open spec fn every_scalar(v: Value, p: spec_fn(Value) -> bool, fuel: nat) -> bool
    decreases fuel,
{
    match v {
        Value::Array(a) => fuel > 0 && forall|i: int|
            0 <= i < a@.len() ==> every_scalar(#[trigger] a@[i], p, (fuel - 1) as nat),
        Value::Object(o) => fuel > 0 && forall|k: Seq<char>|
            #[trigger] o@.contains_key(k) ==> every_scalar(o@[k], p, (fuel - 1) as nat),
        _ => p(v),
    }
}

/// The scalar is no integer beyond the range of `isize`.
pub open spec fn fits_isize(v: Value) -> bool {
    v matches Value::Number(Number::Integer(i)) ==> isize::MIN <= i <= isize::MAX
}

proof fn lemma_jaq_rank_all_kept(items: Seq<JaqValue>, i: int)
    requires
        0 <= i <= items.len(),
        forall|k: int| 0 <= k < items.len() ==> jaq_kept(#[trigger] items[k]),
    ensures
        jaq_rank(items, i) == i,
    decreases i,
{
    if i > 0 {
        lemma_jaq_rank_all_kept(items, i - 1);
    }
}

/// Converting a value to a jaq value and back gives the same value, where every integer in it
/// fits an `isize` (a wider one is cut on the way), and nothing is left out on the way back.
pub proof fn law_jaq_round_trip(v: Value, j: JaqValue, w: Value, fuel: nat)
    requires
        value_to_jaq(v, j, fuel),
        every_scalar(v, |s: Value| fits_isize(s), fuel),
        value_from_jaq(j, w),
    ensures
        jaq_kept(j),
        same_value(v, w, fuel),
    decreases fuel,
{
    match v {
        Value::String(s) => {
            vstd::utf8::encode_utf8_valid_utf8(s@);
            vstd::utf8::encode_utf8_decode_utf8(s@);
        },
        Value::Number(n) => {
            assert(fits_isize(v));
        },
        Value::Array(a) => {
            let items = j->Arr_0@;
            let b = w->Array_0;
            assert forall|i: int| 0 <= i < items.len() implies jaq_kept(#[trigger] items[i]) by {
                assert(every_scalar(a@[i], |s: Value| fits_isize(s), (fuel - 1) as nat));
                lemma_jaq_kept(a@[i], items[i], (fuel - 1) as nat);
            }
            lemma_jaq_rank_all_kept(items, items.len() as int);
            assert forall|i: int| 0 <= i < a@.len() implies same_value(
                #[trigger] a@[i],
                b@[i],
                (fuel - 1) as nat,
            ) by {
                lemma_jaq_rank_all_kept(items, i);
                assert(jaq_kept(items[i]));
                assert(every_scalar(a@[i], |s: Value| fits_isize(s), (fuel - 1) as nat));
                law_jaq_round_trip(a@[i], items[i], b@[i], (fuel - 1) as nat);
            }
        },
        Value::Object(o) => {
            let fields = j->Obj_0@;
            let p = w->Object_0;
            assert forall|i: int| 0 <= i < fields.len() implies jaq_kept(#[trigger] fields[i].1) by {
                let k = jaq_key_text(fields[i].0);
                assert(o@.contains_key(k));
                assert(every_scalar(o@[k], |s: Value| fits_isize(s), (fuel - 1) as nat));
                lemma_jaq_kept(o@[k], fields[i].1, (fuel - 1) as nat);
            }
            assert forall|k: Seq<char>| #[trigger] o@.contains_key(k) <==> p@.contains_key(k) by {
                if o@.contains_key(k) {
                    let i = choose|i: int| 0 <= i < fields.len() && #[trigger] jaq_key_text(fields[i].0) == k;
                    assert(jaq_kept(fields[i].1));
                }
                if p@.contains_key(k) {
                    let i = choose|i: int|
                        0 <= i < fields.len() && #[trigger] jaq_key_text(fields[i].0) == k && jaq_kept(
                            fields[i].1,
                        );
                    assert(o@.contains_key(jaq_key_text(fields[i].0)));
                }
            }
            assert(o@.dom() == p@.dom());
            assert forall|k: Seq<char>| #[trigger] o@.contains_key(k) implies same_value(
                o@[k],
                p@[k],
                (fuel - 1) as nat,
            ) by {
                let i = choose|i: int| 0 <= i < fields.len() && #[trigger] jaq_key_text(fields[i].0) == k;
                assert(jaq_kept(fields[i].1));
                assert(last_kept_key(fields, i)) by {
                    assert forall|m: int|
                        i < m < fields.len() && jaq_kept(fields[m].1) implies #[trigger] jaq_key_text(
                        fields[m].0,
                    ) != jaq_key_text(fields[i].0) by {
                        assert(jaq_key_text(fields[i].0) != jaq_key_text(fields[m].0));
                    }
                }
                assert(every_scalar(o@[k], |s: Value| fits_isize(s), (fuel - 1) as nat));
                law_jaq_round_trip(o@[k], fields[i].1, p@[k], (fuel - 1) as nat);
            }
        },
        _ => {},
    }
}

proof fn lemma_jaq_kept(v: Value, j: JaqValue, fuel: nat)
    requires
        value_to_jaq(v, j, fuel),
        every_scalar(v, |s: Value| fits_isize(s), fuel),
    ensures
        jaq_kept(j),
{
    match v {
        Value::String(s) => {
            vstd::utf8::encode_utf8_valid_utf8(s@);
        },
        _ => {},
    }
}

/// The scalar is a number with a `serde_json` form, or no number.
pub open spec fn has_json_form(v: Value) -> bool {
    v matches Value::Number(n) ==> number_to_json(n) is Some
}

proof fn lemma_kept_positions_all(a: Seq<Value>, fuel: nat)
    requires
        forall|i: int| 0 <= i < a.len() ==> json_kept(#[trigger] a[i], fuel),
    ensures
        kept_positions(a, fuel) == Seq::new(a.len(), |i: int| i),
    decreases a.len(),
{
    if a.len() > 0 {
        lemma_kept_positions_all(a.drop_last(), fuel);
        assert(json_kept(a[a.len() - 1], fuel));
        assert(kept_positions(a, fuel) =~= Seq::new(a.len(), |i: int| i));
    }
}

proof fn lemma_json_kept(v: Value, fuel: nat)
    requires
        every_scalar(v, |s: Value| has_json_form(s), fuel),
    ensures
        json_kept(v, fuel),
{
    match v {
        Value::Number(n) => {
            assert(has_json_form(v));
        },
        _ => {},
    }
}

/// Converting a value to a `serde_json` value and back gives the same value, where every
/// number in it has a `serde_json` form (a finite decimal, or an integer within the ranges of
/// `u64` and `i64`).
pub proof fn law_json_round_trip(v: Value, j: JsonValue, w: Value, fuel: nat)
    requires
        value_to_json(v, j, fuel),
        every_scalar(v, |s: Value| has_json_form(s), fuel),
        value_from_json(j, w),
    ensures
        same_value(v, w, fuel),
    decreases fuel,
{
    match v {
        Value::Number(n) => {
            assert(has_json_form(v));
        },
        Value::Array(a) => {
            let items = j->Array_0@;
            let b = w->Array_0;
            let f = (fuel - 1) as nat;
            assert forall|i: int| 0 <= i < a@.len() implies json_kept(#[trigger] a@[i], f) by {
                assert(every_scalar(a@[i], |s: Value| has_json_form(s), f));
                lemma_json_kept(a@[i], f);
            }
            lemma_kept_positions_all(a@, f);
            assert forall|i: int| 0 <= i < a@.len() implies same_value(
                #[trigger] a@[i],
                b@[i],
                f,
            ) by {
                assert(kept_positions(a@, f)[i] == i);
                assert(every_scalar(a@[i], |s: Value| has_json_form(s), f));
                law_json_round_trip(a@[i], items[i], b@[i], f);
            }
        },
        Value::Object(o) => {
            let fields = j->Object_0@;
            let p = w->Object_0;
            let f = (fuel - 1) as nat;
            assert forall|k: Seq<char>| #[trigger] o@.contains_key(k) <==> p@.contains_key(k) by {
                if o@.contains_key(k) {
                    assert(every_scalar(o@[k], |s: Value| has_json_form(s), f));
                    lemma_json_kept(o@[k], f);
                    let i = choose|i: int| 0 <= i < fields.len() && #[trigger] fields[i].0@ == k;
                }
                if p@.contains_key(k) {
                    let i = choose|i: int| 0 <= i < fields.len() && #[trigger] fields[i].0@ == k;
                    assert(o@.contains_key(fields[i].0@));
                }
            }
            assert(o@.dom() == p@.dom());
            assert forall|k: Seq<char>| #[trigger] o@.contains_key(k) implies same_value(
                o@[k],
                p@[k],
                f,
            ) by {
                assert(every_scalar(o@[k], |s: Value| has_json_form(s), f));
                lemma_json_kept(o@[k], f);
                let i = choose|i: int| 0 <= i < fields.len() && #[trigger] fields[i].0@ == k;
                assert(last_of_key(fields, i)) by {
                    assert forall|m: int| i < m < fields.len() implies #[trigger] fields[m].0@
                        != fields[i].0@ by {
                        assert(fields[i].0@ != fields[m].0@);
                    }
                }
                law_json_round_trip(o@[k], fields[i].1, p@[k], f);
            }
        },
        _ => {},
    }
}

/// The scalar converts to BSON and back to itself: a number with a BSON form (every decimal,
/// and an integer within the range of `i64`), and a string that is no RFC 3339 date and time or
/// one that is written back as it was.
pub open spec fn keeps_through_bson(v: Value) -> bool {
    &&& v matches Value::Number(n) ==> number_to_bson(n) is Some
    &&& v matches Value::String(s) ==> (rfc3339_millis(s@) matches Some(ms) ==> millis_rfc3339_text(
        ms,
    ) == s@)
}

proof fn lemma_bson_positions_all(a: Seq<Value>, fuel: nat)
    requires
        forall|i: int| 0 <= i < a.len() ==> bson_to_kept(#[trigger] a[i], fuel),
    ensures
        bson_positions(a, fuel) == Seq::new(a.len(), |i: int| i),
    decreases a.len(),
{
    if a.len() > 0 {
        lemma_bson_positions_all(a.drop_last(), fuel);
        assert(bson_to_kept(a[a.len() - 1], fuel));
        assert(bson_positions(a, fuel) =~= Seq::new(a.len(), |i: int| i));
    }
}

proof fn lemma_bson_rank_all(items: Seq<BsonValue>, i: int)
    requires
        0 <= i <= items.len(),
        forall|k: int| 0 <= k < items.len() ==> bson_kept(#[trigger] items[k]),
    ensures
        bson_rank(items, i) == i,
    decreases i,
{
    if i > 0 {
        lemma_bson_rank_all(items, i - 1);
    }
}

proof fn lemma_bson_kept(v: Value, b: BsonValue, fuel: nat)
    requires
        value_to_bson(v, b, fuel),
        every_scalar(v, |s: Value| keeps_through_bson(s), fuel),
    ensures
        bson_to_kept(v, fuel),
        bson_kept(b),
{
    match v {
        Value::Number(n) => {
            assert(keeps_through_bson(v));
        },
        Value::String(s) => {
            match rfc3339_millis(s@) {
                Some(ms) => {},
                None => {},
            }
        },
        _ => {},
    }
}

/// Converting a value to BSON and back gives the same value, where every number in it has a
/// BSON form and every string that reads as an RFC 3339 date and time is written back as it
/// was.
pub proof fn law_bson_round_trip(v: Value, b: BsonValue, w: Value, fuel: nat)
    requires
        value_to_bson(v, b, fuel),
        every_scalar(v, |s: Value| keeps_through_bson(s), fuel),
        value_from_bson(b, w),
    ensures
        same_value(v, w, fuel),
    decreases fuel,
{
    match v {
        Value::Number(n) => {
            assert(keeps_through_bson(v));
        },
        Value::String(s) => {
            assert(keeps_through_bson(v));
            match rfc3339_millis(s@) {
                Some(ms) => {},
                None => {},
            }
        },
        Value::Array(a) => {
            let items = b->Array_0@;
            let c = w->Array_0;
            let f = (fuel - 1) as nat;
            assert forall|i: int| 0 <= i < a@.len() implies bson_to_kept(#[trigger] a@[i], f) by {
                assert(every_scalar(a@[i], |s: Value| keeps_through_bson(s), f));
                lemma_bson_shape(a@[i], f);
            }
            lemma_bson_positions_all(a@, f);
            assert forall|i: int| 0 <= i < items.len() implies bson_kept(#[trigger] items[i]) by {
                assert(bson_positions(a@, f)[i] == i);
                assert(every_scalar(a@[i], |s: Value| keeps_through_bson(s), f));
                lemma_bson_kept(a@[i], items[i], f);
            }
            lemma_bson_rank_all(items, items.len() as int);
            assert forall|i: int| 0 <= i < a@.len() implies same_value(
                #[trigger] a@[i],
                c@[i],
                f,
            ) by {
                assert(bson_positions(a@, f)[i] == i);
                lemma_bson_rank_all(items, i);
                assert(bson_kept(items[i]));
                assert(every_scalar(a@[i], |s: Value| keeps_through_bson(s), f));
                law_bson_round_trip(a@[i], items[i], c@[i], f);
            }
        },
        Value::Object(o) => {
            let fields = b->Document_0@;
            let p = w->Object_0;
            let f = (fuel - 1) as nat;
            assert forall|i: int| 0 <= i < fields.len() implies bson_kept(#[trigger] fields[i].1) by {
                let k = fields[i].0@;
                assert(o@.contains_key(k));
                assert(every_scalar(o@[k], |s: Value| keeps_through_bson(s), f));
                lemma_bson_kept(o@[k], fields[i].1, f);
            }
            assert forall|k: Seq<char>| #[trigger] o@.contains_key(k) <==> p@.contains_key(k) by {
                if o@.contains_key(k) {
                    assert(every_scalar(o@[k], |s: Value| keeps_through_bson(s), f));
                    lemma_bson_shape(o@[k], f);
                    let i = choose|i: int| 0 <= i < fields.len() && #[trigger] fields[i].0@ == k;
                    assert(bson_kept(fields[i].1));
                }
                if p@.contains_key(k) {
                    let i = choose|i: int|
                        0 <= i < fields.len() && #[trigger] fields[i].0@ == k && bson_kept(
                            fields[i].1,
                        );
                    assert(o@.contains_key(fields[i].0@));
                }
            }
            assert(o@.dom() == p@.dom());
            assert forall|k: Seq<char>| #[trigger] o@.contains_key(k) implies same_value(
                o@[k],
                p@[k],
                f,
            ) by {
                assert(every_scalar(o@[k], |s: Value| keeps_through_bson(s), f));
                lemma_bson_shape(o@[k], f);
                let i = choose|i: int| 0 <= i < fields.len() && #[trigger] fields[i].0@ == k;
                assert(bson_kept(fields[i].1));
                assert(last_kept_of_key(fields, i)) by {
                    assert forall|m: int|
                        i < m < fields.len() && bson_kept(fields[m].1) implies #[trigger] fields[m].0@
                        != fields[i].0@ by {
                        assert(fields[i].0@ != fields[m].0@);
                    }
                }
                law_bson_round_trip(o@[k], fields[i].1, p@[k], f);
            }
        },
        _ => {},
    }
}

proof fn lemma_bson_shape(v: Value, fuel: nat)
    requires
        every_scalar(v, |s: Value| keeps_through_bson(s), fuel),
    ensures
        bson_to_kept(v, fuel),
{
    match v {
        Value::Number(n) => {
            assert(keeps_through_bson(v));
        },
        _ => {},
    }
}

/// The `serde_json` value is one that `serde_json` can hold: its floats are finite, its
/// negative integers are below zero, and the keys of each of its objects differ from each
/// other.
pub open spec fn json_valid(j: JsonValue) -> bool
    decreases j,
{
    match j {
        JsonValue::Number(n) => match n {
            JsonNumber::Float(b) => decimal_is_finite(b),
            JsonNumber::NegInt(i) => i < 0,
            JsonNumber::PosInt(_) => true,
        },
        JsonValue::Array(items) => forall|i: int|
            0 <= i < items@.len() ==> json_valid(#[trigger] items@[i]),
        JsonValue::Object(fields) => (forall|i: int|
            0 <= i < fields@.len() ==> json_valid(#[trigger] fields@[i].1)) && forall|i: int, m: int|
            0 <= i < m < fields@.len() ==> #[trigger] fields@[i].0@ != #[trigger] fields@[m].0@,
        _ => true,
    }
}

/// The structures of the `serde_json` value are nested less than `fuel` levels deep.
pub open spec fn json_within(j: JsonValue, fuel: nat) -> bool
    decreases j,
{
    match j {
        JsonValue::Array(items) => fuel > 0 && forall|i: int|
            0 <= i < items@.len() ==> json_within(#[trigger] items@[i], (fuel - 1) as nat),
        JsonValue::Object(fields) => fuel > 0 && forall|i: int|
            0 <= i < fields@.len() ==> json_within(#[trigger] fields@[i].1, (fuel - 1) as nat),
        _ => true,
    }
}

/// The two `serde_json` values are the same JSON: the same scalars, arrays with the same
/// elements in order, and objects with the same keys and the same value for each key, in
/// whatever order their fields come.
pub open spec fn same_json(a: JsonValue, b: JsonValue) -> bool
    decreases a,
{
    match a {
        JsonValue::Null => b is Null,
        JsonValue::Bool(x) => b == JsonValue::Bool(x),
        JsonValue::Number(x) => b == JsonValue::Number(x),
        JsonValue::String(x) => b is String && b->String_0@ == x@,
        JsonValue::Array(x) => b is Array && x@.len() == b->Array_0@.len() && forall|i: int|
            0 <= i < x@.len() ==> same_json(#[trigger] x@[i], b->Array_0@[i]),
        JsonValue::Object(x) => b is Object && (forall|i: int|
            0 <= i < x@.len() ==> 0 <= field_index(b->Object_0@, (#[trigger] x@[i]).0@)
                && same_json(x@[i].1, b->Object_0@[field_index(b->Object_0@, x@[i].0@)].1))
            && (forall|m: int|
            0 <= m < b->Object_0@.len() ==> 0 <= field_index(x@, (#[trigger] b->Object_0@[m]).0@)),
    }
}

/// The position of the last field with the key, or `-1` where no field has it.
pub open spec fn field_index(fields: Seq<(String, JsonValue)>, key: Seq<char>) -> int
    decreases fields.len(),
{
    if fields.len() == 0 {
        -1
    } else if fields.last().0@ == key {
        fields.len() - 1
    } else {
        field_index(fields.drop_last(), key)
    }
}

proof fn lemma_field_index(fields: Seq<(String, JsonValue)>, key: Seq<char>, m: int)
    requires
        0 <= m < fields.len(),
        fields[m].0@ == key,
    ensures
        0 <= field_index(fields, key) < fields.len(),
        fields[field_index(fields, key)].0@ == key,
    decreases fields.len(),
{
    if fields.last().0@ != key {
        lemma_field_index(fields.drop_last(), key, m);
    }
}

proof fn lemma_json_within_kept(j: JsonValue, v: Value, fuel: nat)
    requires
        json_valid(j),
        json_within(j, fuel),
        value_from_json(j, v),
    ensures
        json_kept(v, fuel),
{
    match j {
        JsonValue::Number(n) => {
            match n {
                JsonNumber::PosInt(u) => {},
                JsonNumber::NegInt(i) => {},
                JsonNumber::Float(b) => {},
            }
        },
        _ => {},
    }
}

/// Converting a `serde_json` value to an immutable JSON value and back gives the same JSON,
/// where the value is one that `serde_json` can hold and its structures are nested less than
/// `fuel` levels deep.
pub proof fn law_json_value_round_trip(j: JsonValue, v: Value, k: JsonValue, fuel: nat)
    requires
        json_valid(j),
        json_within(j, fuel),
        value_from_json(j, v),
        value_to_json(v, k, fuel),
    ensures
        same_json(j, k),
    decreases j, 2nat,
{
    match j {
        JsonValue::Number(n) => {
            assert(number_to_json(number_from_json(n)) == Some(n)) by {
                match n {
                    JsonNumber::PosInt(u) => {
                        assert((u as i128) as u64 == u);
                    },
                    JsonNumber::NegInt(i) => {
                        assert((i as i128) as i64 == i);
                    },
                    JsonNumber::Float(b) => {},
                }
            }
        },
        JsonValue::Array(items) => {
            lemma_json_array_round_trip(j, v, k, fuel);
        },
        JsonValue::Object(fields) => {
            lemma_json_object_round_trip(j, v, k, fuel);
        },
        _ => {},
    }
}

proof fn lemma_json_array_round_trip(j: JsonValue, v: Value, k: JsonValue, fuel: nat)
    requires
        j is Array,
        json_valid(j),
        json_within(j, fuel),
        value_from_json(j, v),
        value_to_json(v, k, fuel),
    ensures
        same_json(j, k),
    decreases j, 1nat,
{
    let items = j->Array_0;
    let a = v->Array_0;
    let out = k->Array_0@;
    let f = (fuel - 1) as nat;
    assert forall|i: int| 0 <= i < a@.len() implies json_kept(#[trigger] a@[i], f) by {
        assert(json_valid(items@[i]));
        assert(json_within(items@[i], f));
        lemma_json_within_kept(items@[i], a@[i], f);
    }
    lemma_kept_positions_all(a@, f);
    assert forall|i: int| 0 <= i < items@.len() implies same_json(#[trigger] items@[i], out[i]) by {
        assert(kept_positions(a@, f)[i] == i);
        assert(json_valid(items@[i]));
        assert(json_within(items@[i], f));
        assert(decreases_to!(j => items@[i]));
        law_json_value_round_trip(items@[i], a@[i], out[i], f);
    }
}

proof fn lemma_json_object_round_trip(j: JsonValue, v: Value, k: JsonValue, fuel: nat)
    requires
        j is Object,
        json_valid(j),
        json_within(j, fuel),
        value_from_json(j, v),
        value_to_json(v, k, fuel),
    ensures
        same_json(j, k),
    decreases j, 1nat,
{
    let o = v->Object_0;
    let fields = j->Object_0@;
    let out = k->Object_0@;
    let f = (fuel - 1) as nat;
    assert forall|i: int| 0 <= i < fields.len() implies 0 <= field_index(
        out,
        (#[trigger] fields[i]).0@,
    ) && same_json(fields[i].1, out[field_index(out, fields[i].0@)].1) by {
        let key = fields[i].0@;
        assert(o@.contains_key(key));
        assert(last_of_key(fields, i)) by {
            assert forall|m: int| i < m < fields.len() implies #[trigger] fields[m].0@
                != fields[i].0@ by {
                assert(fields[i].0@ != fields[m].0@);
            }
        }
        assert(json_valid(fields[i].1));
        assert(json_within(fields[i].1, f));
        lemma_json_within_kept(fields[i].1, o@[key], f);
        let m = choose|m: int| 0 <= m < out.len() && #[trigger] out[m].0@ == key;
        lemma_field_index(out, key, m);
        let n = field_index(out, key);
        if n != m {
            if n < m {
                assert(out[n].0@ != out[m].0@);
            } else {
                assert(out[m].0@ != out[n].0@);
            }
        }
        assert(decreases_to!(j => fields[i].1));
        law_json_value_round_trip(fields[i].1, o@[key], out[m].1, f);
    }
    assert forall|m: int| 0 <= m < out.len() implies 0 <= field_index(
        fields,
        (#[trigger] out[m]).0@,
    ) by {
        assert(o@.contains_key(out[m].0@));
        let i = choose|i: int| 0 <= i < fields.len() && #[trigger] fields[i].0@ == out[m].0@;
        lemma_field_index(fields, out[m].0@, i);
    }
}

/// The operation is one that `json_patch` can hold: its pointers are valid and its value is one
/// that `serde_json` can hold, nested less than `usize::MAX` levels deep.
pub open spec fn operation_valid(op: PatchOperation) -> bool {
    match op {
        PatchOperation::Add { path, value } => pointer_buf_valid(path@) && json_valid(value)
            && json_within(value, usize::MAX as nat),
        PatchOperation::Copy { from, path } => pointer_buf_valid(from@) && pointer_buf_valid(path@),
        PatchOperation::Move { from, path } => pointer_buf_valid(from@) && pointer_buf_valid(path@),
        PatchOperation::Remove { path } => pointer_buf_valid(path@),
        PatchOperation::Replace { path, value } => pointer_buf_valid(path@) && json_valid(value)
            && json_within(value, usize::MAX as nat),
        PatchOperation::Test { path, value } => pointer_buf_valid(path@) && json_valid(value)
            && json_within(value, usize::MAX as nat),
    }
}

/// The two operations are the same: the same kind, the same pointers, and the same JSON as
/// their values.
pub open spec fn same_operation(a: PatchOperation, b: PatchOperation) -> bool {
    match a {
        PatchOperation::Add { path, value } => b is Add && b->Add_path@ == path@ && same_json(
            value,
            b->Add_value,
        ),
        PatchOperation::Copy { from, path } => b is Copy && b->Copy_from@ == from@
            && b->Copy_path@ == path@,
        PatchOperation::Move { from, path } => b is Move && b->Move_from@ == from@
            && b->Move_path@ == path@,
        PatchOperation::Remove { path } => b is Remove && b->Remove_path@ == path@,
        PatchOperation::Replace { path, value } => b is Replace && b->Replace_path@ == path@
            && same_json(value, b->Replace_value),
        PatchOperation::Test { path, value } => b is Test && b->Test_path@ == path@ && same_json(
            value,
            b->Test_value,
        ),
    }
}

/// The names of the operations differ from each other.
proof fn lemma_operation_names()
    ensures
        "add"@ != "copy"@,
        "add"@ != "move"@,
        "add"@ != "remove"@,
        "add"@ != "replace"@,
        "add"@ != "test"@,
        "copy"@ != "move"@,
        "copy"@ != "remove"@,
        "copy"@ != "replace"@,
        "copy"@ != "test"@,
        "move"@ != "remove"@,
        "move"@ != "replace"@,
        "move"@ != "test"@,
        "remove"@ != "replace"@,
        "remove"@ != "test"@,
        "replace"@ != "test"@,
{
    reveal_strlit("add");
    reveal_strlit("copy");
    reveal_strlit("move");
    reveal_strlit("remove");
    reveal_strlit("replace");
    reveal_strlit("test");
    assert("add"@.len() == 3);
    assert("copy"@.len() == 4 && "copy"@[0] == 'c');
    assert("move"@.len() == 4 && "move"@[0] == 'm');
    assert("test"@.len() == 4 && "test"@[0] == 't');
    assert("remove"@.len() == 6);
    assert("replace"@.len() == 7);
}

proof fn lemma_value_round_trip(value: JsonValue, o: Map<Seq<char>, Value>, other: JsonValue)
    requires
        json_valid(value),
        json_within(value, usize::MAX as nat),
        o.contains_key("value"@),
        value_from_json(value, o["value"@]),
    ensures
        value_field_kept(o),
        value_to_json(o["value"@], other, usize::MAX as nat) ==> same_json(value, other),
{
    lemma_json_within_kept(value, o["value"@], usize::MAX as nat);
    if value_to_json(o["value"@], other, usize::MAX as nat) {
        law_json_value_round_trip(value, o["value"@], other, usize::MAX as nat);
    }
}

/// Reading back the object that describes an operation gives the same operation, where the
/// operation is one that `json_patch` can hold; the object describes an operation.
pub proof fn law_operation_round_trip(op: PatchOperation, o: Map<Seq<char>, Value>, back: PatchOperation)
    requires
        operation_valid(op),
        object_of_operation(op, o),
    ensures
        operation_defined(o),
        operation_of_object(o, back) ==> same_operation(op, back),
{
    lemma_operation_names();
    match op {
        PatchOperation::Add { path, value } => {
            assert(o.dom().contains("value"@));
            lemma_value_round_trip(value, o, back->Add_value);
            if back is Replace {
                lemma_value_round_trip(value, o, back->Replace_value);
            }
            if back is Test {
                lemma_value_round_trip(value, o, back->Test_value);
            }
        },
        PatchOperation::Replace { path, value } => {
            assert(o.dom().contains("value"@));
            lemma_value_round_trip(value, o, back->Replace_value);
            if back is Add {
                lemma_value_round_trip(value, o, back->Add_value);
            }
            if back is Test {
                lemma_value_round_trip(value, o, back->Test_value);
            }
        },
        PatchOperation::Test { path, value } => {
            assert(o.dom().contains("value"@));
            lemma_value_round_trip(value, o, back->Test_value);
            if back is Add {
                lemma_value_round_trip(value, o, back->Add_value);
            }
            if back is Replace {
                lemma_value_round_trip(value, o, back->Replace_value);
            }
        },
        PatchOperation::Copy { from, path } => {
            assert(o.dom().contains("from"@));
        },
        PatchOperation::Move { from, path } => {
            assert(o.dom().contains("from"@));
        },
        PatchOperation::Remove { path } => {},
    }
}

/// Writing operations as a patch array and reading the array back gives the same operations,
/// where each is one that `json_patch` can hold.
pub proof fn law_patch_round_trip(ops: Seq<PatchOperation>, a: Seq<Value>, back: Seq<PatchOperation>)
    requires
        forall|k: int| 0 <= k < ops.len() ==> operation_valid(#[trigger] ops[k]),
        a.len() == ops.len(),
        forall|k: int|
            0 <= k < ops.len() ==> #[trigger] a[k] is Object && object_of_operation(
                ops[k],
                a[k]->Object_0@,
            ),
        back.len() == operation_positions(a).len(),
        forall|k: int|
            0 <= k < back.len() ==> operation_of_object(
                a[#[trigger] operation_positions(a)[k]]->Object_0@,
                back[k],
            ),
    ensures
        back.len() == ops.len(),
        forall|k: int| 0 <= k < ops.len() ==> same_operation(#[trigger] ops[k], back[k]),
{
    assert forall|k: int| 0 <= k < a.len() implies (#[trigger] a[k] matches Value::Object(o)
        && operation_defined(o@)) by {
        law_operation_round_trip(ops[k], a[k]->Object_0@, ops[k]);
    }
    lemma_operation_positions_all(a);
    assert forall|k: int| 0 <= k < ops.len() implies same_operation(#[trigger] ops[k], back[k]) by {
        assert(operation_positions(a)[k] == k);
        law_operation_round_trip(ops[k], a[k]->Object_0@, back[k]);
    }
}

proof fn lemma_operation_positions_all(a: Seq<Value>)
    requires
        forall|k: int| 0 <= k < a.len() ==> (#[trigger] a[k] matches Value::Object(o)
            && operation_defined(o@)),
    ensures
        operation_positions(a) == Seq::new(a.len(), |i: int| i),
    decreases a.len(),
{
    if a.len() > 0 {
        assert forall|k: int| 0 <= k < a.drop_last().len() implies (#[trigger] a.drop_last()[k] matches Value::Object(o)
            && operation_defined(o@)) by {
            assert(a.drop_last()[k] == a[k]);
        }
        lemma_operation_positions_all(a.drop_last());
        assert(a[a.len() - 1] matches Value::Object(o) && operation_defined(o@));
        assert(operation_positions(a) =~= Seq::new(a.len(), |i: int| i));
    }
}

} // verus!
