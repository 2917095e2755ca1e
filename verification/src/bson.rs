//! Conversions between immutable JSON values and BSON values.
//!
//! `BsonValue` holds, one for one, what a `bson::Bson` holds where the conversion reads it; the
//! kinds of BSON values that have no JSON counterpart are held without their contents.
use crate::api::{Number, Value};
use crate::array::Array;
use crate::error::Error;
use crate::object::{fields_of_pairs, Object};
use vstd::prelude::*;

verus! {

/// A BSON value as `bson::Bson` holds it.
#[derive(Debug, PartialEq)]
pub enum BsonValue {
    /// A double, given by its binary64 bits.
    Double(u64),
    String(String),
    Array(Vec<BsonValue>),
    Document(Vec<(String, BsonValue)>),
    Boolean(bool),
    Null,
    RegularExpression,
    JavaScriptCode,
    JavaScriptCodeWithScope,
    Int32(i32),
    Int64(i64),
    Timestamp { time: u32, increment: u32 },
    Binary,
    ObjectId,
    /// A date and time, in milliseconds since the Unix epoch.
    DateTime(i64),
    Symbol,
    Decimal128,
    Undefined,
    MaxKey,
    MinKey,
    DbPointer,
}

/// The milliseconds since the Unix epoch of an RFC 3339 date and time, as
/// `bson::DateTime::parse_rfc3339_str` reads it, or `None` when the text is not one.
pub uninterp spec fn rfc3339_millis(s: Seq<char>) -> Option<i64>;

/// The RFC 3339 text, with milliseconds and a `Z`, of the time that many milliseconds after the
/// Unix epoch, as `bson::DateTime::to_chrono` and `chrono`'s `to_rfc3339_opts` write it.
pub uninterp spec fn millis_rfc3339_text(millis: i64) -> Seq<char>;

/// The RFC 3339 text, with whole seconds and a `Z`, of the time that many seconds after the Unix
/// epoch, as `chrono`'s `DateTime::from_timestamp_secs` and `to_rfc3339_opts` write it, or
/// `None` when `chrono` cannot represent that time.
pub uninterp spec fn seconds_rfc3339_text(secs: i64) -> Option<Seq<char>>;

/// `bson::DateTime::parse_rfc3339_str`, with the result read as milliseconds
/// (`DateTime::timestamp_millis`). The parse is `time`'s RFC 3339 parser, named here.
#[verifier::external_body]
fn parse_rfc3339(s: &str) -> (r: Option<i64>)
    ensures
        r == rfc3339_millis(s@),
{
    bson::DateTime::parse_rfc3339_str(s).ok().map(|d| d.timestamp_millis())
}

/// `bson::DateTime::to_chrono` of `DateTime::from_millis(millis)`, written by `chrono`'s
/// `to_rfc3339_opts(SecondsFormat::Millis, true)`; the text is named here.
#[verifier::external_body]
fn format_millis(millis: i64) -> (r: String)
    ensures
        r@ == millis_rfc3339_text(millis),
{
    bson::DateTime::from_millis(millis).to_chrono().to_rfc3339_opts(chrono::SecondsFormat::Millis, true)
}

/// `chrono::DateTime::from_timestamp_secs(secs)`, written by
/// `to_rfc3339_opts(SecondsFormat::Secs, true)`; the text is named here.
#[verifier::external_body]
fn format_seconds(secs: i64) -> (r: Option<String>)
    ensures
        r is Some <==> seconds_rfc3339_text(secs) is Some,
        r matches Some(t) ==> seconds_rfc3339_text(secs) == Some(t@),
{
    chrono::DateTime::from_timestamp_secs(secs).map(
        |t| t.to_rfc3339_opts(chrono::SecondsFormat::Secs, true),
    )
}

/// The milliseconds of the date and time that a string denotes, if it is an RFC 3339 date and
/// time; such a string becomes a BSON date and time.
pub fn try_date_time(s: &str) -> (r: Option<i64>)
    ensures
        r == rfc3339_millis(s@),
{
    parse_rfc3339(s)
}

/// The text of a BSON date and time: RFC 3339 with milliseconds.
pub fn from_date_time(date_time: i64) -> (r: String)
    ensures
        r@ == millis_rfc3339_text(date_time),
{
    format_millis(date_time)
}

/// The text of a BSON timestamp: RFC 3339 with seconds, if `chrono` can represent it.
pub fn from_timestamp(time: u32) -> (r: Option<String>)
    ensures
        r is Some <==> seconds_rfc3339_text(time as i64) is Some,
        r matches Some(t) ==> seconds_rfc3339_text(time as i64) == Some(t@),
{
    format_seconds(time as i64)
}

/// The BSON value converts to a JSON value.
pub open spec fn bson_kept(b: BsonValue) -> bool {
    match b {
        BsonValue::Double(_) => true,
        BsonValue::String(_) => true,
        BsonValue::Array(_) => true,
        BsonValue::Document(_) => true,
        BsonValue::Boolean(_) => true,
        BsonValue::Null => true,
        BsonValue::Int32(_) => true,
        BsonValue::Int64(_) => true,
        BsonValue::Timestamp { time, increment } => seconds_rfc3339_text(time as i64) is Some,
        BsonValue::DateTime(_) => true,
        _ => false,
    }
}

/// How many of the first `i` values convert.
pub open spec fn bson_rank(items: Seq<BsonValue>, i: int) -> nat
    decreases i,
{
    if i <= 0 {
        0
    } else if bson_kept(items[i - 1]) {
        bson_rank(items, i - 1) + 1
    } else {
        bson_rank(items, i - 1)
    }
}

/// The position `i` holds the last converting field with its key.
pub open spec fn last_kept_of_key(fields: Seq<(String, BsonValue)>, i: int) -> bool {
    forall|j: int|
        i < j < fields.len() && bson_kept(fields[j].1) ==> #[trigger] fields[j].0@ != fields[i].0@
}

/// `v` is the JSON value that the BSON value `b` converts to: the same structure, where an
/// array keeps, in order, the elements that convert, and a document the fields that convert
/// (the last one for a repeated key); doubles become decimals, 32- and 64-bit integers become
/// integers, and dates, times and timestamps become their RFC 3339 texts.
pub open spec fn value_from_bson(b: BsonValue, v: Value) -> bool
    decreases b,
{
    match b {
        BsonValue::Double(d) => v == Value::Number(Number::Decimal(d)),
        BsonValue::String(s) => v == Value::String(s),
        BsonValue::Array(items) => v matches Value::Array(a) && a@.len() == bson_rank(
            items@,
            items@.len() as int,
        ) && forall|i: int|
            0 <= i < items@.len() && bson_kept(#[trigger] items@[i]) ==> value_from_bson(
                items@[i],
                a@[bson_rank(items@, i) as int],
            ),
        BsonValue::Document(fields) => v matches Value::Object(o) && (forall|k: Seq<char>|
            o@.contains_key(k) <==> exists|i: int|
                0 <= i < fields@.len() && #[trigger] fields@[i].0@ == k && bson_kept(fields@[i].1))
            && forall|i: int|
            0 <= i < fields@.len() && bson_kept(#[trigger] fields@[i].1) && last_kept_of_key(
                fields@,
                i,
            ) ==> value_from_bson(fields@[i].1, o@[fields@[i].0@]),
        BsonValue::Boolean(x) => v == Value::Bool(x),
        BsonValue::Null => v is Null,
        BsonValue::Int32(i) => v == Value::Number(Number::Integer(i as i128)),
        BsonValue::Int64(i) => v == Value::Number(Number::Integer(i as i128)),
        BsonValue::Timestamp { time, increment } => v matches Value::String(t)
            && seconds_rfc3339_text(time as i64) == Some(t@),
        BsonValue::DateTime(ms) => v matches Value::String(t) && t@ == millis_rfc3339_text(ms),
        _ => false,
    }
}

proof fn lemma_bson_rank_step(items: Seq<BsonValue>, i: int)
    requires
        0 <= i < items.len(),
    ensures
        bson_rank(items, i + 1) == bson_rank(items, i) + (if bson_kept(items[i]) {
            1int
        } else {
            0int
        }),
{
}

proof fn lemma_bson_rank_grows(items: Seq<BsonValue>, k: int, i: int)
    requires
        0 <= k < i <= items.len(),
        bson_kept(items[k]),
    ensures
        bson_rank(items, k) < bson_rank(items, i),
    decreases i,
{
    if i > k + 1 {
        lemma_bson_rank_grows(items, k, i - 1);
    }
}

fn from_array(array: &Vec<BsonValue>) -> (r: Array)
    ensures
        value_from_bson(BsonValue::Array(*array), Value::Array(r)),
    decreases array, 0nat,
{
    let mut result = Array::new();
    let mut i: usize = 0;
    while i < array.len()
        invariant
            i <= array@.len(),
            result@.len() == bson_rank(array@, i as int),
            forall|k: int|
                0 <= k < i && bson_kept(#[trigger] array@[k]) ==> value_from_bson(
                    array@[k],
                    result@[bson_rank(array@, k) as int],
                ),
            bson_rank(array@, i as int) <= i,
        decreases array.len() - i,
    {
        proof {
            lemma_bson_rank_step(array@, i as int);
            assert forall|k: int| 0 <= k < i && bson_kept(#[trigger] array@[k]) implies bson_rank(
                array@,
                k,
            ) < bson_rank(array@, i as int) by {
                lemma_bson_rank_grows(array@, k, i as int);
            }
        }
        assert(decreases_to!(*array => array@[i as int]));
        match from_bson(&array[i]) {
            Some(v) => {
                result = result.add(&v);
            },
            None => {},
        }
        i = i + 1;
    }
    result
}

fn from_document(document: &Vec<(String, BsonValue)>) -> (r: Object)
    ensures
        value_from_bson(BsonValue::Document(*document), Value::Object(r)),
    decreases document, 0nat,
{
    let mut pairs: Vec<(String, Value)> = Vec::new();
    let ghost mut origin: Seq<int> = Seq::empty();
    let mut i: usize = 0;
    while i < document.len()
        invariant
            i <= document@.len(),
            origin.len() == pairs@.len(),
            forall|m: int|
                0 <= m < pairs@.len() ==> 0 <= #[trigger] origin[m] < i && pairs@[m].0
                    == document@[origin[m]].0 && bson_kept(document@[origin[m]].1)
                    && value_from_bson(document@[origin[m]].1, pairs@[m].1),
            forall|m: int, n: int| 0 <= m < n < pairs@.len() ==> origin[m] < origin[n],
            forall|a: int|
                0 <= a < i && bson_kept(#[trigger] document@[a].1) ==> exists|m: int|
                    0 <= m < pairs@.len() && origin[m] == a,
        decreases document.len() - i,
    {
        let (key, b) = &document[i];
        assert(decreases_to!(*document => document@[i as int]));
        assert(decreases_to!(document@[i as int] => document@[i as int].1));
        match from_bson(b) {
            Some(v) => {
                let ghost old_origin = origin;
                pairs.push((key.clone(), v));
                proof {
                    origin = origin.push(i as int);
                    assert forall|a: int|
                        0 <= a < i + 1 && bson_kept(#[trigger] document@[a].1) implies exists|
                        m: int,
                    | 0 <= m < pairs@.len() && origin[m] == a by {
                        if a == i {
                            assert(origin[pairs@.len() - 1] == a);
                        } else {
                            let m = choose|m: int| 0 <= m < old_origin.len() && old_origin[m] == a;
                            assert(origin[m] == a);
                        }
                    }
                }
            },
            None => {},
        }
        i = i + 1;
    }
    let r = Object::from_iter(pairs);
    proof {
        lemma_document_fields(pairs@, document@, origin);
        let j = BsonValue::Document(*document);
        assert(j->Document_0 == *document);
        assert(value_from_bson(j, Value::Object(r)));
    }
    r
}

proof fn lemma_document_fields(
    pairs: Seq<(String, Value)>,
    document: Seq<(String, BsonValue)>,
    origin: Seq<int>,
)
    requires
        origin.len() == pairs.len(),
        forall|m: int|
            0 <= m < pairs.len() ==> 0 <= #[trigger] origin[m] < document.len() && pairs[m].0
                == document[origin[m]].0 && bson_kept(document[origin[m]].1) && value_from_bson(
                document[origin[m]].1,
                pairs[m].1,
            ),
        forall|m: int, n: int| 0 <= m < n < pairs.len() ==> origin[m] < origin[n],
        forall|a: int|
            0 <= a < document.len() && bson_kept(#[trigger] document[a].1) ==> exists|m: int|
                0 <= m < pairs.len() && origin[m] == a,
    ensures
        forall|k: Seq<char>|
            fields_of_pairs(pairs).contains_key(k) <==> exists|i: int|
                0 <= i < document.len() && #[trigger] document[i].0@ == k && bson_kept(
                    document[i].1,
                ),
        forall|i: int|
            0 <= i < document.len() && bson_kept(#[trigger] document[i].1) && last_kept_of_key(
                document,
                i,
            ) ==> value_from_bson(document[i].1, fields_of_pairs(pairs)[document[i].0@]),
    decreases pairs.len(),
{
    if pairs.len() > 0 {
        let n = pairs.len() - 1;
        let last = origin[n];
        let before = fields_of_pairs(pairs.drop_last());
        assert(fields_of_pairs(pairs) == before.insert(pairs[n].0@, pairs[n].1));
        let sub = document.take(last);
        // the pairs before the last one come from the fields before `last`
        assert forall|m: int| 0 <= m < n implies #[trigger] origin[m] < last by {
            assert(origin[m] < origin[n]);
        }
        assert forall|a: int|
            0 <= a < sub.len() && bson_kept(#[trigger] sub[a].1) implies exists|m: int|
                0 <= m < n && origin.drop_last()[m] == a by {
            assert(sub[a] == document[a]);
            let m = choose|m: int| 0 <= m < pairs.len() && origin[m] == a;
            assert(m != n);
            assert(origin.drop_last()[m] == a);
        }
        lemma_document_fields(pairs.drop_last(), sub, origin.drop_last());
        assert forall|k: Seq<char>|
            fields_of_pairs(pairs).contains_key(k) implies exists|i: int|
                0 <= i < document.len() && #[trigger] document[i].0@ == k && bson_kept(
                    document[i].1,
                ) by {
            if k == pairs[n].0@ {
                assert(document[last].0@ == k);
            } else {
                assert(before.contains_key(k));
                let i = choose|i: int|
                    0 <= i < sub.len() && #[trigger] sub[i].0@ == k && bson_kept(sub[i].1);
                assert(document[i] == sub[i]);
            }
        }
        assert forall|k: Seq<char>|
            (exists|i: int|
                0 <= i < document.len() && #[trigger] document[i].0@ == k && bson_kept(
                    document[i].1,
                )) implies fields_of_pairs(pairs).contains_key(k) by {
            let i = choose|i: int|
                0 <= i < document.len() && #[trigger] document[i].0@ == k && bson_kept(
                    document[i].1,
                );
            let m = choose|m: int| 0 <= m < pairs.len() && origin[m] == i;
            if m < n {
                assert(sub[i] == document[i]);
                assert(sub[i].0@ == k);
            } else {
                assert(pairs[n].0@ == k);
            }
        }
        assert forall|i: int|
            0 <= i < document.len() && bson_kept(#[trigger] document[i].1) && last_kept_of_key(
                document,
                i,
            ) implies value_from_bson(document[i].1, fields_of_pairs(pairs)[document[i].0@]) by {
            let m = choose|m: int| 0 <= m < pairs.len() && origin[m] == i;
            if m == n {
                assert(pairs[n].0@ == document[i].0@);
            } else {
                assert(origin[m] < last);
                assert(document[last].0@ != document[i].0@);
                assert(sub[i] == document[i]);
                assert(last_kept_of_key(sub, i)) by {
                    assert forall|j: int|
                        i < j < sub.len() && bson_kept(sub[j].1) implies #[trigger] sub[j].0@
                        != sub[i].0@ by {
                        assert(sub[j] == document[j]);
                    }
                }
            }
        }
    } else {
        assert forall|i: int| 0 <= i < document.len() implies !bson_kept(
            #[trigger] document[i].1,
        ) by {
            if bson_kept(document[i].1) {
                let m = choose|m: int| 0 <= m < pairs.len() && origin[m] == i;
            }
        }
    }
}

/// Convert a BSON value to an immutable JSON value. Regular expressions, JavaScript code,
/// binary data, object ids, symbols, 128-bit decimals, undefined, the min and max keys and
/// database pointers do not convert, and they are left out of the array or document that holds
/// them.
pub fn from_bson(bson: &BsonValue) -> (r: Option<Value>)
    ensures
        r is Some <==> bson_kept(*bson),
        r matches Some(v) ==> value_from_bson(*bson, v),
    decreases bson, 1nat,
{
    match bson {
        BsonValue::Array(v) => Some(Value::Array(from_array(v))),
        BsonValue::Double(v) => Some(Value::Number(Number::Decimal(*v))),
        BsonValue::String(v) => Some(Value::String(v.clone())),
        BsonValue::Document(v) => Some(Value::Object(from_document(v))),
        BsonValue::Boolean(v) => Some(Value::Bool(*v)),
        BsonValue::Null => Some(Value::Null),
        BsonValue::RegularExpression => None,
        BsonValue::JavaScriptCode => None,
        BsonValue::JavaScriptCodeWithScope => None,
        BsonValue::Int32(v) => Some(Value::Number(Number::Integer(*v as i128))),
        BsonValue::Int64(v) => Some(Value::Number(Number::Integer(*v as i128))),
        BsonValue::Timestamp { time, increment } => match from_timestamp(*time) {
            Some(s) => Some(Value::String(s)),
            None => None,
        },
        BsonValue::Binary => None,
        BsonValue::ObjectId => None,
        BsonValue::DateTime(v) => Some(Value::String(from_date_time(*v))),
        BsonValue::Symbol => None,
        BsonValue::Decimal128 => None,
        BsonValue::Undefined => None,
        BsonValue::MaxKey => None,
        BsonValue::MinKey => None,
        BsonValue::DbPointer => None,
    }
}


/// The BSON number that a number converts to, if there is one: a decimal becomes a double, and
/// an integer that fits an `i64` a 64-bit integer.
pub open spec fn number_to_bson(n: Number) -> Option<BsonValue> {
    match n {
        Number::Decimal(b) => Some(BsonValue::Double(b)),
        Number::Integer(i) => if i64::MIN <= i <= i64::MAX {
            Some(BsonValue::Int64(i as i64))
        } else {
            None
        },
    }
}

/// The value converts to BSON with `fuel` levels of nesting left: a number must have a BSON
/// form, and a structure needs a level.
pub open spec fn bson_to_kept(v: Value, fuel: nat) -> bool {
    match v {
        Value::Number(n) => number_to_bson(n) is Some,
        Value::Array(_) => fuel > 0,
        Value::Object(_) => fuel > 0,
        _ => true,
    }
}

/// The positions of the elements that convert to BSON, in order.
pub open spec fn bson_positions(a: Seq<Value>, fuel: nat) -> Seq<int>
    decreases a.len(),
{
    if a.len() == 0 {
        Seq::empty()
    } else if bson_to_kept(a.last(), fuel) {
        bson_positions(a.drop_last(), fuel).push(a.len() - 1)
    } else {
        bson_positions(a.drop_last(), fuel)
    }
}

/// `b` is the BSON value that `v` converts to with `fuel` levels of nesting left: the same
/// structure, where an array keeps, in order, just the elements that convert, and a document
/// just the fields whose values convert (in no particular order); a string that is an RFC 3339
/// date and time becomes a BSON date and time.
pub open spec fn value_to_bson(v: Value, b: BsonValue, fuel: nat) -> bool
    decreases fuel,
{
    match v {
        Value::Null => b is Null,
        Value::Bool(x) => b == BsonValue::Boolean(x),
        Value::Number(n) => number_to_bson(n) == Some(b),
        Value::String(s) => match rfc3339_millis(s@) {
            Some(ms) => b == BsonValue::DateTime(ms),
            None => b == BsonValue::String(s),
        },
        Value::Array(a) => fuel > 0 && b is Array && {
            let items = b->Array_0@;
            let ks = bson_positions(a@, (fuel - 1) as nat);
            &&& items.len() == ks.len()
            &&& forall|k: int|
                0 <= k < items.len() ==> value_to_bson(
                    a@[#[trigger] ks[k]],
                    items[k],
                    (fuel - 1) as nat,
                )
        },
        Value::Object(o) => fuel > 0 && b is Document && {
            let fields = b->Document_0@;
            &&& forall|i: int|
                0 <= i < fields.len() ==> o@.contains_key(#[trigger] fields[i].0@) && bson_to_kept(
                    o@[fields[i].0@],
                    (fuel - 1) as nat,
                ) && value_to_bson(o@[fields[i].0@], fields[i].1, (fuel - 1) as nat)
            &&& forall|i: int|
                0 <= i < fields.len() ==> forall|m: int|
                    i < m < fields.len() ==> #[trigger] fields[i].0@ != #[trigger] fields[m].0@
            &&& forall|k: Seq<char>|
                o@.contains_key(k) && bson_to_kept(#[trigger] o@[k], (fuel - 1) as nat) ==> exists|
                    i: int,
                | 0 <= i < fields.len() && #[trigger] fields[i].0@ == k
        },
    }
}

/// Convert a number to a BSON number, if it has such a form.
fn to_number(value: &Number) -> (r: Option<BsonValue>)
    ensures
        r == number_to_bson(*value),
{
    match value {
        Number::Decimal(b) => Some(BsonValue::Double(*b)),
        Number::Integer(i) => if i64::MIN as i128 <= *i && *i <= i64::MAX as i128 {
            Some(BsonValue::Int64(*i as i64))
        } else {
            None
        },
    }
}

proof fn lemma_bson_positions(a: Seq<Value>, fuel: nat, i: int)
    requires
        0 <= i < a.len(),
    ensures
        bson_positions(a.take(i + 1), fuel) == (if bson_to_kept(a[i], fuel) {
            bson_positions(a.take(i), fuel).push(i)
        } else {
            bson_positions(a.take(i), fuel)
        }),
{
    assert(a.take(i + 1).drop_last() == a.take(i));
    assert(a.take(i + 1).last() == a[i]);
}


/// Convert the elements of an array, keeping in order the ones that convert to BSON.
fn to_array(array: &Array, fuel: usize) -> (r: Vec<BsonValue>)
    ensures
        r@.len() == bson_positions(array@, fuel as nat).len(),
        forall|k: int|
            0 <= k < r@.len() ==> value_to_bson(
                array@[#[trigger] bson_positions(array@, fuel as nat)[k]],
                r@[k],
                fuel as nat,
            ),
    decreases fuel, 2nat,
{
    let items = array.iter();
    let mut r: Vec<BsonValue> = Vec::new();
    let mut i: usize = 0;
    while i < items.len()
        invariant
            i <= items@.len(),
            items@ == array@,
            r@.len() == bson_positions(array@.take(i as int), fuel as nat).len(),
            forall|k: int|
                0 <= k < r@.len() ==> value_to_bson(
                    array@[#[trigger] bson_positions(array@.take(i as int), fuel as nat)[k]],
                    r@[k],
                    fuel as nat,
                ),
        decreases items.len() - i,
    {
        proof {
            lemma_bson_positions(array@, fuel as nat, i as int);
        }
        match to_bson_at(&items[i], fuel) {
            Some(j) => {
                r.push(j);
            },
            None => {},
        }
        i = i + 1;
    }
    assert(array@.take(items@.len() as int) == array@);
    r
}

/// Convert the fields of an object, keeping the ones whose values convert to BSON.
fn to_object(object: &Object, fuel: usize) -> (r: Vec<(String, BsonValue)>)
    ensures
        forall|i: int|
            0 <= i < r@.len() ==> object@.contains_key(#[trigger] r@[i].0@) && bson_to_kept(
                object@[r@[i].0@],
                fuel as nat,
            ) && value_to_bson(object@[r@[i].0@], r@[i].1, fuel as nat),
        forall|i: int|
            0 <= i < r@.len() ==> forall|m: int|
                i < m < r@.len() ==> #[trigger] r@[i].0@ != #[trigger] r@[m].0@,
        forall|k: Seq<char>|
            object@.contains_key(k) && bson_to_kept(#[trigger] object@[k], fuel as nat) ==> exists|
                i: int,
            | 0 <= i < r@.len() && #[trigger] r@[i].0@ == k,
    decreases fuel, 2nat,
{
    let fields = object.iter();
    let mut r: Vec<(String, BsonValue)> = Vec::new();
    let ghost mut origin: Seq<int> = Seq::empty();
    let mut i: usize = 0;
    assert forall|a: int|
        0 <= a < fields@.len() implies #[trigger] object@.contains_key(fields@[a].0@)
            && object@[fields@[a].0@] == fields@[a].1 by {
        let key = fields@[a].0@;
        assert(object@.contains_key(key));
    }
    while i < fields.len()
        invariant
            i <= fields@.len(),
            fields@.len() == object@.dom().len(),
            forall|a: int|
                0 <= a < fields@.len() ==> #[trigger] object@.contains_key(fields@[a].0@)
                    && object@[fields@[a].0@] == fields@[a].1,
            forall|a: int|
                0 <= a < fields@.len() ==> forall|b: int|
                    a < b < fields@.len() ==> #[trigger] fields@[a].0@ != #[trigger] fields@[b].0@,
            origin.len() == r@.len(),
            forall|m: int|
                0 <= m < r@.len() ==> 0 <= #[trigger] origin[m] < i && r@[m].0 == fields@[origin[m]].0
                    && bson_to_kept(fields@[origin[m]].1, fuel as nat) && value_to_bson(
                    fields@[origin[m]].1,
                    r@[m].1,
                    fuel as nat,
                ),
            forall|m: int, n: int| 0 <= m < n < r@.len() ==> origin[m] < origin[n],
            forall|a: int|
                0 <= a < i && bson_to_kept(#[trigger] fields@[a].1, fuel as nat) ==> exists|m: int|
                    0 <= m < r@.len() && origin[m] == a,
        decreases fields.len() - i,
    {
        let (key, value) = &fields[i];
        match to_bson_at(value, fuel) {
            Some(j) => {
                let ghost old_origin = origin;
                r.push((key.clone(), j));
                proof {
                    origin = origin.push(i as int);
                    assert forall|a: int|
                        0 <= a < i + 1 && bson_to_kept(#[trigger] fields@[a].1, fuel as nat) implies exists|
                        m: int,
                    | 0 <= m < r@.len() && origin[m] == a by {
                        if a == i {
                            assert(origin[r@.len() - 1] == a);
                        } else {
                            let m = choose|m: int| 0 <= m < old_origin.len() && old_origin[m] == a;
                            assert(origin[m] == a);
                        }
                    }
                }
            },
            None => {},
        }
        i = i + 1;
    }
    assert forall|a: int|
        0 <= a < r@.len() implies object@.contains_key(#[trigger] r@[a].0@) && bson_to_kept(
        object@[r@[a].0@],
        fuel as nat,
    ) && value_to_bson(object@[r@[a].0@], r@[a].1, fuel as nat) by {
        assert(object@.contains_key(fields@[origin[a]].0@));
    }
    assert forall|a: int|
        0 <= a < r@.len() implies forall|b: int|
        a < b < r@.len() ==> #[trigger] r@[a].0@ != #[trigger] r@[b].0@ by {
        assert forall|b: int| a < b < r@.len() implies #[trigger] r@[a].0@ != #[trigger] r@[b].0@ by {
            assert(origin[a] < origin[b]);
            assert(fields@[origin[a]].0@ != fields@[origin[b]].0@);
        }
    }
    assert forall|k: Seq<char>|
        object@.contains_key(k) && bson_to_kept(#[trigger] object@[k], fuel as nat) implies exists|
        a: int,
    | 0 <= a < r@.len() && #[trigger] r@[a].0@ == k by {
        let f = choose|f: int| 0 <= f < fields@.len() && #[trigger] fields@[f].0@ == k;
        assert(bson_to_kept(fields@[f].1, fuel as nat));
        let m = choose|m: int| 0 <= m < r@.len() && origin[m] == f;
        assert(r@[m].0@ == k);
    }
    r
}

/// Convert a value with `fuel` levels of nesting left.
fn to_bson_at(value: &Value, fuel: usize) -> (r: Option<BsonValue>)
    ensures
        r is Some <==> bson_to_kept(*value, fuel as nat),
        r matches Some(j) ==> value_to_bson(*value, j, fuel as nat),
    decreases fuel, 1nat,
{
    match value {
        Value::Array(v) => if fuel == 0 {
            None
        } else {
            let items = to_array(v, fuel - 1);
            let r = BsonValue::Array(items);
            assert(value_to_bson(*value, r, fuel as nat));
            Some(r)
        },
        Value::Bool(v) => Some(BsonValue::Boolean(*v)),
        Value::Null => Some(BsonValue::Null),
        Value::Number(v) => to_number(v),
        Value::Object(v) => if fuel == 0 {
            None
        } else {
            let fields = to_object(v, fuel - 1);
            let ghost f = fields@;
            let ghost n = (fuel - 1) as nat;
            assert forall|i: int|
                0 <= i < f.len() implies v@.contains_key(#[trigger] f[i].0@) && bson_to_kept(
                v@[f[i].0@],
                n,
            ) && value_to_bson(v@[f[i].0@], f[i].1, n) by {}
            assert forall|k: Seq<char>|
                v@.contains_key(k) && bson_to_kept(#[trigger] v@[k], n) implies exists|i: int|
                0 <= i < f.len() && #[trigger] f[i].0@ == k by {}
            assert forall|i: int|
                0 <= i < f.len() implies forall|m: int|
                i < m < f.len() ==> #[trigger] f[i].0@ != #[trigger] f[m].0@ by {}
            let r = BsonValue::Document(fields);
            assert(r->Document_0@ == f);
            assert(value_to_bson(*value, r, fuel as nat));
            Some(r)
        },
        Value::String(v) => match try_date_time(v.as_str()) {
            Some(t) => Some(BsonValue::DateTime(t)),
            None => Some(BsonValue::String(v.clone())),
        },
    }
}


/// Convert an immutable JSON value to a BSON value. An integer beyond the `i64` range does not
/// convert, and it is left out of the array or object that holds it; a string that is an RFC
/// 3339 date and time becomes a BSON date and time. Structures nested `usize::MAX` levels deep
/// are left out likewise; no such value fits in memory.
pub fn to_bson(value: &Value) -> (r: Option<BsonValue>)
    ensures
        r is Some <==> bson_to_kept(*value, usize::MAX as nat),
        r matches Some(b) ==> value_to_bson(*value, b, usize::MAX as nat),
{
    to_bson_at(value, usize::MAX)
}

impl Value {
    /// Converts a BSON value; `ConvertFrom` for a kind of BSON value that has no counterpart.
    pub fn try_from_bson(value: &BsonValue) -> (r: Result<Value, Error>)
        ensures
            r is Ok <==> bson_kept(*value),
            r matches Ok(v) ==> value_from_bson(*value, v),
            r is Err ==> r matches Err(Error::ConvertFrom),
    {
        match from_bson(value) {
            Some(v) => Ok(v),
            None => Err(Error::ConvertFrom),
        }
    }

    /// Converts to a BSON value; `ConvertTo` where the value has no BSON form.
    pub fn try_into_bson(&self) -> (r: Result<BsonValue, Error>)
        ensures
            r is Ok <==> bson_to_kept(*self, usize::MAX as nat),
            r matches Ok(b) ==> value_to_bson(*self, b, usize::MAX as nat),
            r is Err ==> r matches Err(Error::ConvertTo),
    {
        match to_bson(self) {
            Some(b) => Ok(b),
            None => Err(Error::ConvertTo),
        }
    }
}

} // verus!
