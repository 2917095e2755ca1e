//! Conversions between immutable JSON values and jaq values, and the outcome of a jq run.
//!
//! `JaqValue` holds, one for one, what a `jaq_json::Val` holds where the conversions read it:
//! strings as their bytes, numbers as `jaq_json::Num` keeps them, and an object's fields in
//! their order.
use crate::api::{Number, Value};
use crate::array::Array;
use crate::error::Error;
use crate::object::{fields_of_pairs, Object};
use crate::text::{i128_from_text, parse_i128, utf8_or_empty, utf8_text};
use vstd::prelude::*;
use vstd::string::StrSliceExecFns;
use vstd::utf8::{decode_utf8, encode_utf8, valid_utf8};

verus! {

/// A number as `jaq_json::Num` holds it.
#[derive(Debug, PartialEq)]
pub enum JaqNumber {
    /// A machine-size integer.
    Int(isize),
    /// An arbitrarily large integer, given by its decimal text (a `-` for a negative one).
    BigInt(String),
    /// A binary64 number, given by its bits.
    Float(u64),
    /// A decimal number, given by the bits of the binary64 number that its text denotes, or
    /// `None` where the text does not read as one.
    Dec(Option<u64>),
}

/// A value as `jaq_json::Val` holds it.
#[derive(Debug, PartialEq)]
pub enum JaqValue {
    Null,
    Bool(bool),
    Num(JaqNumber),
    /// A byte string.
    BStr(Vec<u8>),
    /// A text string: bytes that are read as UTF-8.
    TStr(Vec<u8>),
    Arr(Vec<JaqValue>),
    /// The fields of an object, in their order.
    Obj(Vec<(JaqValue, JaqValue)>),
}

/// The number that a jaq number converts to, if any: an integer for a machine-size integer and
/// for a big integer within the range of `i128`, and a decimal for a float and for a decimal
/// number that reads as a binary64 number.
pub open spec fn number_from_jaq(n: JaqNumber) -> Option<Number> {
    match n {
        JaqNumber::Int(i) => Some(Number::Integer(i as i128)),
        JaqNumber::BigInt(t) => match i128_from_text(t@) {
            Some(i) => Some(Number::Integer(i)),
            None => None,
        },
        JaqNumber::Float(b) => Some(Number::Decimal(b)),
        JaqNumber::Dec(d) => match d {
            Some(b) => Some(Number::Decimal(b)),
            None => None,
        },
    }
}

/// The jaq value converts to an immutable JSON value: a number must convert, and a string
/// must be valid UTF-8.
pub open spec fn jaq_kept(j: JaqValue) -> bool {
    match j {
        JaqValue::Num(n) => number_from_jaq(n) is Some,
        JaqValue::BStr(b) => valid_utf8(b@),
        JaqValue::TStr(b) => valid_utf8(b@),
        _ => true,
    }
}

/// The key that a jaq object key gives: the text of a string, and the empty key for a string
/// that is not valid UTF-8 and for a key that is no string.
pub open spec fn jaq_key_text(k: JaqValue) -> Seq<char> {
    match k {
        JaqValue::BStr(b) => utf8_or_empty(b@),
        JaqValue::TStr(b) => utf8_or_empty(b@),
        _ => Seq::empty(),
    }
}

/// How many of the first `i` values convert.
pub open spec fn jaq_rank(items: Seq<JaqValue>, i: int) -> nat
    decreases i,
{
    if i <= 0 {
        0
    } else if jaq_kept(items[i - 1]) {
        jaq_rank(items, i - 1) + 1
    } else {
        jaq_rank(items, i - 1)
    }
}

/// The position `i` holds the last converting field with its key.
pub open spec fn last_kept_key(fields: Seq<(JaqValue, JaqValue)>, i: int) -> bool {
    forall|j: int|
        i < j < fields.len() && jaq_kept(fields[j].1) ==> #[trigger] jaq_key_text(fields[j].0)
            != jaq_key_text(fields[i].0)
}

/// `v` is the immutable JSON value that the jaq value `j` converts to: the same structure,
/// where an array keeps, in order, the elements that convert, and an object the fields whose
/// values convert (the last one for a repeated key), under the text of their keys.
pub open spec fn value_from_jaq(j: JaqValue, v: Value) -> bool
    decreases j,
{
    match j {
        JaqValue::Null => v is Null,
        JaqValue::Bool(b) => v == Value::Bool(b),
        JaqValue::Num(n) => number_from_jaq(n) == Some(v->Number_0) && v is Number,
        JaqValue::BStr(b) => valid_utf8(b@) && (v matches Value::String(s) && s@ == decode_utf8(b@)),
        JaqValue::TStr(b) => valid_utf8(b@) && (v matches Value::String(s) && s@ == decode_utf8(b@)),
        JaqValue::Arr(items) => v matches Value::Array(a) && a@.len() == jaq_rank(
            items@,
            items@.len() as int,
        ) && forall|i: int|
            0 <= i < items@.len() && jaq_kept(#[trigger] items@[i]) ==> value_from_jaq(
                items@[i],
                a@[jaq_rank(items@, i) as int],
            ),
        JaqValue::Obj(fields) => v matches Value::Object(o) && (forall|k: Seq<char>|
            o@.contains_key(k) <==> exists|i: int|
                0 <= i < fields@.len() && #[trigger] jaq_key_text(fields@[i].0) == k && jaq_kept(
                    fields@[i].1,
                )) && forall|i: int|
            0 <= i < fields@.len() && jaq_kept(#[trigger] fields@[i].1) && last_kept_key(
                fields@,
                i,
            ) ==> value_from_jaq(fields@[i].1, o@[jaq_key_text(fields@[i].0)]),
    }
}

/// The string that a jaq string gives, if its bytes are valid UTF-8.
fn from_bytes(b: &Vec<u8>) -> (r: Option<Value>)
    ensures
        r is Some <==> valid_utf8(b@),
        r matches Some(v) ==> v matches Value::String(s) && s@ == decode_utf8(b@),
{
    match utf8_text(b.clone()) {
        Some(s) => Some(Value::String(s)),
        None => None,
    }
}

/// The key of an object field that a jaq key gives.
fn key_text(key: &JaqValue) -> (r: String)
    ensures
        r@ == jaq_key_text(*key),
{
    match key {
        JaqValue::BStr(b) => match utf8_text(b.clone()) {
            Some(s) => s,
            None => String::new(),
        },
        JaqValue::TStr(b) => match utf8_text(b.clone()) {
            Some(s) => s,
            None => String::new(),
        },
        _ => String::new(),
    }
}

/// Convert a jaq number to a number of the library, if it converts.
fn from_number(value: &JaqNumber) -> (r: Option<Number>)
    ensures
        r == number_from_jaq(*value),
{
    match value {
        JaqNumber::Int(v) => Some(Number::Integer(*v as i128)),
        JaqNumber::BigInt(v) => match parse_i128(v.as_str()) {
            Some(i) => Some(Number::Integer(i)),
            None => None,
        },
        JaqNumber::Float(v) => Some(Number::Decimal(*v)),
        JaqNumber::Dec(v) => match v {
            Some(b) => Some(Number::Decimal(*b)),
            None => None,
        },
    }
}

proof fn lemma_jaq_rank_step(items: Seq<JaqValue>, i: int)
    requires
        0 <= i < items.len(),
    ensures
        jaq_rank(items, i + 1) == jaq_rank(items, i) + (if jaq_kept(items[i]) {
            1int
        } else {
            0int
        }),
{
}

proof fn lemma_jaq_rank_grows(items: Seq<JaqValue>, k: int, i: int)
    requires
        0 <= k < i <= items.len(),
        jaq_kept(items[k]),
    ensures
        jaq_rank(items, k) < jaq_rank(items, i),
    decreases i,
{
    if i > k + 1 {
        lemma_jaq_rank_grows(items, k, i - 1);
    }
}

fn from_array(array: &Vec<JaqValue>) -> (r: Array)
    ensures
        value_from_jaq(JaqValue::Arr(*array), Value::Array(r)),
    decreases array, 0nat,
{
    let mut result = Array::new();
    let mut i: usize = 0;
    while i < array.len()
        invariant
            i <= array@.len(),
            result@.len() == jaq_rank(array@, i as int),
            forall|k: int|
                0 <= k < i && jaq_kept(#[trigger] array@[k]) ==> value_from_jaq(
                    array@[k],
                    result@[jaq_rank(array@, k) as int],
                ),
            jaq_rank(array@, i as int) <= i,
        decreases array.len() - i,
    {
        proof {
            lemma_jaq_rank_step(array@, i as int);
            assert forall|k: int| 0 <= k < i && jaq_kept(#[trigger] array@[k]) implies jaq_rank(
                array@,
                k,
            ) < jaq_rank(array@, i as int) by {
                lemma_jaq_rank_grows(array@, k, i as int);
            }
        }
        assert(decreases_to!(*array => array@[i as int]));
        match from_value(&array[i]) {
            Some(v) => {
                result = result.add(&v);
            },
            None => {},
        }
        i = i + 1;
    }
    result
}

fn from_object(document: &Vec<(JaqValue, JaqValue)>) -> (r: Object)
    ensures
        value_from_jaq(JaqValue::Obj(*document), Value::Object(r)),
    decreases document, 0nat,
{
    let mut pairs: Vec<(String, Value)> = Vec::new();
    let ghost mut origin: Seq<int> = Seq::empty();
    let mut i: usize = 0;
    while i < document.len()
        invariant
            i <= document@.len(),
            origin.len() == pairs@.len(),
            forall|m: int|
                0 <= m < pairs@.len() ==> 0 <= #[trigger] origin[m] < i && pairs@[m].0@
                    == jaq_key_text(document@[origin[m]].0) && jaq_kept(document@[origin[m]].1)
                    && value_from_jaq(document@[origin[m]].1, pairs@[m].1),
            forall|m: int, n: int| 0 <= m < n < pairs@.len() ==> origin[m] < origin[n],
            forall|a: int|
                0 <= a < i && jaq_kept(#[trigger] document@[a].1) ==> exists|m: int|
                    0 <= m < pairs@.len() && origin[m] == a,
        decreases document.len() - i,
    {
        let (key, b) = &document[i];
        assert(decreases_to!(*document => document@[i as int]));
        assert(decreases_to!(document@[i as int] => document@[i as int].1));
        match from_value(b) {
            Some(v) => {
                let ghost old_origin = origin;
                pairs.push((key_text(key), v));
                proof {
                    origin = origin.push(i as int);
                    assert forall|a: int|
                        0 <= a < i + 1 && jaq_kept(#[trigger] document@[a].1) implies exists|
                        m: int,
                    | 0 <= m < pairs@.len() && origin[m] == a by {
                        if a == i {
                            assert(origin[pairs@.len() - 1] == a);
                        } else {
                            let m = choose|m: int| 0 <= m < old_origin.len() && old_origin[m] == a;
                            assert(origin[m] == a);
                        }
                    }
                }
            },
            None => {},
        }
        i = i + 1;
    }
    let r = Object::from_iter(pairs);
    proof {
        lemma_object_fields(pairs@, document@, origin);
        let j = JaqValue::Obj(*document);
        assert(j->Obj_0 == *document);
        assert(value_from_jaq(j, Value::Object(r)));
    }
    r
}

proof fn lemma_object_fields(
    pairs: Seq<(String, Value)>,
    document: Seq<(JaqValue, JaqValue)>,
    origin: Seq<int>,
)
    requires
        origin.len() == pairs.len(),
        forall|m: int|
            0 <= m < pairs.len() ==> 0 <= #[trigger] origin[m] < document.len() && pairs[m].0@
                == jaq_key_text(document[origin[m]].0) && jaq_kept(document[origin[m]].1) && value_from_jaq(
                document[origin[m]].1,
                pairs[m].1,
            ),
        forall|m: int, n: int| 0 <= m < n < pairs.len() ==> origin[m] < origin[n],
        forall|a: int|
            0 <= a < document.len() && jaq_kept(#[trigger] document[a].1) ==> exists|m: int|
                0 <= m < pairs.len() && origin[m] == a,
    ensures
        forall|k: Seq<char>|
            fields_of_pairs(pairs).contains_key(k) <==> exists|i: int|
                0 <= i < document.len() && #[trigger] jaq_key_text(document[i].0) == k && jaq_kept(
                    document[i].1,
                ),
        forall|i: int|
            0 <= i < document.len() && jaq_kept(#[trigger] document[i].1) && last_kept_key(
                document,
                i,
            ) ==> value_from_jaq(document[i].1, fields_of_pairs(pairs)[jaq_key_text(document[i].0)]),
    decreases pairs.len(),
{
    if pairs.len() > 0 {
        let n = pairs.len() - 1;
        let last = origin[n];
        let before = fields_of_pairs(pairs.drop_last());
        assert(fields_of_pairs(pairs) == before.insert(pairs[n].0@, pairs[n].1));
        let sub = document.take(last);
        // the pairs before the last one come from the fields before `last`
        assert forall|m: int| 0 <= m < n implies #[trigger] origin[m] < last by {
            assert(origin[m] < origin[n]);
        }
        assert forall|a: int|
            0 <= a < sub.len() && jaq_kept(#[trigger] sub[a].1) implies exists|m: int|
                0 <= m < n && origin.drop_last()[m] == a by {
            assert(sub[a] == document[a]);
            let m = choose|m: int| 0 <= m < pairs.len() && origin[m] == a;
            assert(m != n);
            assert(origin.drop_last()[m] == a);
        }
        lemma_object_fields(pairs.drop_last(), sub, origin.drop_last());
        assert forall|k: Seq<char>|
            fields_of_pairs(pairs).contains_key(k) implies exists|i: int|
                0 <= i < document.len() && #[trigger] jaq_key_text(document[i].0) == k && jaq_kept(
                    document[i].1,
                ) by {
            if k == pairs[n].0@ {
                assert(jaq_key_text(document[last].0) == k);
            } else {
                assert(before.contains_key(k));
                let i = choose|i: int|
                    0 <= i < sub.len() && #[trigger] jaq_key_text(sub[i].0) == k && jaq_kept(sub[i].1);
                assert(document[i] == sub[i]);
            }
        }
        assert forall|k: Seq<char>|
            (exists|i: int|
                0 <= i < document.len() && #[trigger] jaq_key_text(document[i].0) == k && jaq_kept(
                    document[i].1,
                )) implies fields_of_pairs(pairs).contains_key(k) by {
            let i = choose|i: int|
                0 <= i < document.len() && #[trigger] jaq_key_text(document[i].0) == k && jaq_kept(
                    document[i].1,
                );
            let m = choose|m: int| 0 <= m < pairs.len() && origin[m] == i;
            if m < n {
                assert(sub[i] == document[i]);
                assert(jaq_key_text(sub[i].0) == k);
            } else {
                assert(pairs[n].0@ == k);
            }
        }
        assert forall|i: int|
            0 <= i < document.len() && jaq_kept(#[trigger] document[i].1) && last_kept_key(
                document,
                i,
            ) implies value_from_jaq(document[i].1, fields_of_pairs(pairs)[jaq_key_text(document[i].0)]) by {
            let m = choose|m: int| 0 <= m < pairs.len() && origin[m] == i;
            if m == n {
                assert(pairs[n].0@ == jaq_key_text(document[i].0));
            } else {
                assert(origin[m] < last);
                assert(jaq_key_text(document[last].0) != jaq_key_text(document[i].0));
                assert(sub[i] == document[i]);
                assert(last_kept_key(sub, i)) by {
                    assert forall|j: int|
                        i < j < sub.len() && jaq_kept(sub[j].1) implies #[trigger] jaq_key_text(sub[j].0)
                        != jaq_key_text(sub[i].0) by {
                        assert(sub[j] == document[j]);
                    }
                }
            }
        }
    } else {
        assert forall|i: int| 0 <= i < document.len() implies !jaq_kept(
            #[trigger] document[i].1,
        ) by {
            if jaq_kept(document[i].1) {
                let m = choose|m: int| 0 <= m < pairs.len() && origin[m] == i;
            }
        }
    }
}


/// Convert a jaq value to an immutable JSON value. A string that is not valid UTF-8 and a
/// number that has no counterpart (a big integer beyond `i128`, a decimal that does not read as
/// a binary64 number) do not convert, and they are left out of the array or object that holds
/// them. An object key that is not a string of valid UTF-8 becomes the empty key.
pub fn from_value(value: &JaqValue) -> (r: Option<Value>)
    ensures
        r is Some <==> jaq_kept(*value),
        r matches Some(v) ==> value_from_jaq(*value, v),
    decreases value, 1nat,
{
    match value {
        JaqValue::Arr(v) => Some(Value::Array(from_array(v))),
        JaqValue::BStr(v) => from_bytes(v),
        JaqValue::TStr(v) => from_bytes(v),
        JaqValue::Bool(v) => Some(Value::Bool(*v)),
        JaqValue::Null => Some(Value::Null),
        JaqValue::Num(v) => match from_number(v) {
            Some(n) => Some(Value::Number(n)),
            None => None,
        },
        JaqValue::Obj(v) => Some(Value::Object(from_object(v))),
    }
}

/// The jaq number that a number converts to: a decimal becomes a float, and an integer a
/// machine-size integer, cut to the width of `isize` as `as` cuts it.
pub open spec fn number_to_jaq(n: Number) -> JaqNumber {
    match n {
        Number::Decimal(b) => JaqNumber::Float(b),
        Number::Integer(i) => JaqNumber::Int(i as isize),
    }
}

/// `j` is the jaq value that `v` converts to with `fuel` levels of nesting left: the same
/// structure, where a string becomes a text string of its UTF-8 bytes, an array keeps all its
/// elements in order, and an object keeps all its fields (in no particular order) under text
/// string keys. With no level left, a structure becomes null.
pub open spec fn value_to_jaq(v: Value, j: JaqValue, fuel: nat) -> bool
    decreases fuel,
{
    match v {
        Value::Null => j is Null,
        Value::Bool(b) => j == JaqValue::Bool(b),
        Value::Number(n) => j == JaqValue::Num(number_to_jaq(n)),
        Value::String(s) => j is TStr && j->TStr_0@ == encode_utf8(s@),
        Value::Array(a) => if fuel == 0 {
            j is Null
        } else {
            j is Arr && j->Arr_0@.len() == a@.len() && forall|i: int|
                0 <= i < a@.len() ==> value_to_jaq(
                    a@[i],
                    #[trigger] j->Arr_0@[i],
                    (fuel - 1) as nat,
                )
        },
        Value::Object(o) => if fuel == 0 {
            j is Null
        } else {
            j is Obj && {
                let fields = j->Obj_0@;
                &&& forall|i: int|
                    0 <= i < fields.len() ==> (#[trigger] fields[i]).0 is TStr && fields[i].0->TStr_0@
                        == encode_utf8(jaq_key_text(fields[i].0)) && o@.contains_key(
                        jaq_key_text(fields[i].0),
                    ) && value_to_jaq(
                        o@[jaq_key_text(fields[i].0)],
                        fields[i].1,
                        (fuel - 1) as nat,
                    )
                &&& forall|i: int|
                    0 <= i < fields.len() ==> forall|m: int|
                        i < m < fields.len() ==> #[trigger] jaq_key_text(fields[i].0)
                            != #[trigger] jaq_key_text(fields[m].0)
                &&& forall|k: Seq<char>|
                    #[trigger] o@.contains_key(k) ==> exists|i: int|
                        0 <= i < fields.len() && #[trigger] jaq_key_text(fields[i].0) == k
            }
        },
    }
}

/// The text of the UTF-8 bytes of a text is that text.
proof fn lemma_text_bytes(s: Seq<char>)
    ensures
        valid_utf8(encode_utf8(s)),
        utf8_or_empty(encode_utf8(s)) == s,
{
    vstd::utf8::encode_utf8_valid_utf8(s);
    vstd::utf8::encode_utf8_decode_utf8(s);
}

/// Convert a number to a jaq number.
fn to_number(value: &Number) -> (r: JaqNumber)
    ensures
        r == number_to_jaq(*value),
{
    match value {
        Number::Decimal(v) => JaqNumber::Float(*v),
        Number::Integer(v) => JaqNumber::Int(*v as isize),
    }
}

/// Convert the elements of an array, in order.
fn to_array(array: &Array, fuel: usize) -> (r: Vec<JaqValue>)
    ensures
        r@.len() == array@.len(),
        forall|i: int| 0 <= i < array@.len() ==> value_to_jaq(array@[i], #[trigger] r@[i], fuel as nat),
    decreases fuel, 2nat,
{
    let items = array.iter();
    let mut r: Vec<JaqValue> = Vec::new();
    let mut i: usize = 0;
    while i < items.len()
        invariant
            i <= items@.len(),
            items@ == array@,
            r@.len() == i,
            forall|m: int| 0 <= m < i ==> value_to_jaq(array@[m], #[trigger] r@[m], fuel as nat),
        decreases items.len() - i,
    {
        r.push(to_value_at(&items[i], fuel));
        i = i + 1;
    }
    r
}

/// Convert the fields of an object, under text string keys.
fn to_object(object: &Object, fuel: usize) -> (r: Vec<(JaqValue, JaqValue)>)
    ensures
        forall|i: int|
            0 <= i < r@.len() ==> (#[trigger] r@[i]).0 is TStr && r@[i].0->TStr_0@ == encode_utf8(
                jaq_key_text(r@[i].0),
            ) && object@.contains_key(jaq_key_text(r@[i].0)) && value_to_jaq(
                object@[jaq_key_text(r@[i].0)],
                r@[i].1,
                fuel as nat,
            ),
        forall|i: int|
            0 <= i < r@.len() ==> forall|m: int|
                i < m < r@.len() ==> #[trigger] jaq_key_text(r@[i].0) != #[trigger] jaq_key_text(
                    r@[m].0,
                ),
        forall|k: Seq<char>|
            #[trigger] object@.contains_key(k) ==> exists|i: int|
                0 <= i < r@.len() && #[trigger] jaq_key_text(r@[i].0) == k,
    decreases fuel, 2nat,
{
    let fields = object.iter();
    let mut r: Vec<(JaqValue, JaqValue)> = Vec::new();
    let mut i: usize = 0;
    while i < fields.len()
        invariant
            i <= fields@.len(),
            forall|a: int|
                0 <= a < fields@.len() ==> #[trigger] object@.contains_key(fields@[a].0@)
                    && object@[fields@[a].0@] == fields@[a].1,
            r@.len() == i,
            forall|m: int|
                0 <= m < i ==> (#[trigger] r@[m]).0 is TStr && r@[m].0->TStr_0@ == encode_utf8(
                    fields@[m].0@,
                ) && jaq_key_text(r@[m].0) == fields@[m].0@ && value_to_jaq(
                    fields@[m].1,
                    r@[m].1,
                    fuel as nat,
                ),
        decreases fields.len() - i,
    {
        let (key, value) = &fields[i];
        let bytes = key.as_str().as_bytes_vec();
        proof {
            lemma_text_bytes(key@);
        }
        r.push((JaqValue::TStr(bytes), to_value_at(value, fuel)));
        i = i + 1;
    }
    assert forall|a: int|
        0 <= a < r@.len() implies forall|b: int|
        a < b < r@.len() ==> #[trigger] jaq_key_text(r@[a].0) != #[trigger] jaq_key_text(r@[b].0) by {
        assert forall|b: int| a < b < r@.len() implies #[trigger] jaq_key_text(r@[a].0)
            != #[trigger] jaq_key_text(r@[b].0) by {
            assert(fields@[a].0@ != fields@[b].0@);
        }
    }
    assert forall|k: Seq<char>| #[trigger] object@.contains_key(k) implies exists|a: int|
        0 <= a < r@.len() && #[trigger] jaq_key_text(r@[a].0) == k by {
        let f = choose|f: int| 0 <= f < fields@.len() && #[trigger] fields@[f].0@ == k;
        assert(jaq_key_text(r@[f].0) == k);
    }
    r
}

/// Convert a value with `fuel` levels of nesting left.
fn to_value_at(value: &Value, fuel: usize) -> (r: JaqValue)
    ensures
        value_to_jaq(*value, r, fuel as nat),
    decreases fuel, 1nat,
{
    match value {
        Value::Array(v) => if fuel == 0 {
            JaqValue::Null
        } else {
            let items = to_array(v, fuel - 1);
            let r = JaqValue::Arr(items);
            assert(r->Arr_0@ == items@);
            r
        },
        Value::Bool(v) => JaqValue::Bool(*v),
        Value::Null => JaqValue::Null,
        Value::Number(v) => JaqValue::Num(to_number(v)),
        Value::Object(v) => if fuel == 0 {
            JaqValue::Null
        } else {
            let fields = to_object(v, fuel - 1);
            let r = JaqValue::Obj(fields);
            assert(r->Obj_0@ == fields@);
            r
        },
        Value::String(v) => JaqValue::TStr(v.as_str().as_bytes_vec()),
    }
}

/// Convert an immutable JSON value to a jaq value. Every value converts; an integer beyond the
/// range of `isize` is cut to it. Only structures nested `usize::MAX` levels deep would become
/// null; no such value fits in memory.
pub fn to_value(value: &Value) -> (r: JaqValue)
    ensures
        value_to_jaq(*value, r, usize::MAX as nat),
{
    to_value_at(value, usize::MAX)
}

/// What a run of a compiled jq filter gives, from the first output that the run yields, if any:
/// no output is `JaqNoResult`, an exception is `JaqException` with its text, and an output is
/// converted to an immutable JSON value, `ConvertFrom` where it does not convert.
pub fn run_outcome(first: Option<Result<JaqValue, String>>) -> (r: Result<Value, Error>)
    ensures
        first is None ==> r matches Err(Error::JaqNoResult),
        first matches Some(Err(e)) ==> (r matches Err(Error::JaqException(t)) && t@ == e@),
        first matches Some(Ok(j)) ==> (r is Ok <==> jaq_kept(j)),
        first matches Some(Ok(j)) ==> (r matches Ok(v) ==> value_from_jaq(j, v)),
        first matches Some(Ok(j)) ==> (r is Err ==> r matches Err(Error::ConvertFrom)),
{
    match first {
        None => Err(Error::JaqNoResult),
        Some(Err(e)) => Err(Error::JaqException(e)),
        Some(Ok(j)) => match from_value(&j) {
            Some(v) => Ok(v),
            None => Err(Error::ConvertFrom),
        },
    }
}

} // verus!
