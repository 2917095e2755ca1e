//! JSON objects.
use crate::api::{
    is_string_of, value_as_array, value_as_bool, value_as_decimal, value_as_integer,
    value_as_number, value_as_object, value_as_string, Number, Value,
};
use crate::array::Array;
use crate::persistent::{map_fields, FieldMap};
use vstd::prelude::*;

verus! {

/// Represents a JSON object.
#[derive(Clone, Debug, PartialEq, Eq)]
pub struct Object {
    map: FieldMap,
}

impl View for Object {
    type V = Map<Seq<char>, Value>;

    closed spec fn view(&self) -> Map<Seq<char>, Value> {
        map_fields(self.map)
    }
}

/// The fields that adding the pairs one after the other to an empty object gives: a later pair
/// replaces an earlier one with the same key.
pub open spec fn fields_of_pairs(pairs: Seq<(String, Value)>) -> Map<Seq<char>, Value>
    decreases pairs.len(),
{
    if pairs.len() == 0 {
        Map::empty()
    } else {
        fields_of_pairs(pairs.drop_last()).insert(pairs.last().0@, pairs.last().1)
    }
}

/// The value of the field `key` with an accessor applied, if there is such a field.
pub open spec fn field_as<T>(
    fields: Map<Seq<char>, Value>,
    key: Seq<char>,
    f: spec_fn(Value) -> Option<T>,
) -> Option<T> {
    if fields.contains_key(key) {
        f(fields[key])
    } else {
        None
    }
}

impl Default for Object {
    fn default() -> (r: Self)
        ensures
            r@ == Map::<Seq<char>, Value>::empty(),
    {
        Self::new()
    }
}

impl Object {
    /// Creates an empty JSON object.
    pub fn new() -> (r: Self)
        ensures
            r@ == Map::<Seq<char>, Value>::empty(),
    {
        let r = Object { map: FieldMap::new() };
        assert(r@ =~= Map::<Seq<char>, Value>::empty());
        r
    }

    /// The same object; the copy shares the persistent storage.
    pub fn duplicate(&self) -> (r: Self)
        ensures
            r == *self,
    {
        Object { map: self.map.duplicate() }
    }

    /// Creates an object from key/value pairs; a later pair replaces an earlier one with the
    /// same key.
    pub fn from_iter(pairs: Vec<(String, Value)>) -> (r: Self)
        ensures
            r@ == fields_of_pairs(pairs@),
    {
        let mut result = Object::new();
        let mut i: usize = 0;
        while i < pairs.len()
            invariant
                i <= pairs.len(),
                result@ == fields_of_pairs(pairs@.take(i as int)),
            decreases pairs.len() - i,
        {
            let (k, v) = &pairs[i];
            result = result.add(k.as_str(), v.duplicate());
            i = i + 1;
            assert(pairs@.take(i as int).drop_last() == pairs@.take(i - 1));
        }
        assert(pairs@.take(pairs.len() as int) == pairs@);
        result
    }

    /// Adds a field to an object, replacing the field with the same key.
    pub fn add(&self, key: &str, value: Value) -> (r: Self)
        ensures
            r@ == self@.insert(key@, value),
    {
        let mut new_map = self.map.duplicate();
        new_map.insert(key.to_owned(), value);
        Object { map: new_map }
    }

    /// Adds a field to an object as an array.
    pub fn add_array(&self, key: &str, value: Array) -> (r: Self)
        ensures
            r@ == self@.insert(key@, Value::Array(value)),
    {
        self.add(key, Value::Array(value))
    }

    /// Adds a field to an object as a Boolean.
    pub fn add_bool(&self, key: &str, value: bool) -> (r: Self)
        ensures
            r@ == self@.insert(key@, Value::Bool(value)),
    {
        self.add(key, Value::Bool(value))
    }

    /// Adds a field to an object as a decimal, given by its binary64 bits.
    pub fn add_decimal(&self, key: &str, value: u64) -> (r: Self)
        ensures
            r@ == self@.insert(key@, Value::Number(Number::Decimal(value))),
    {
        self.add(key, Value::Number(Number::Decimal(value)))
    }

    /// Adds a field to an object as an integer.
    pub fn add_integer(&self, key: &str, value: i128) -> (r: Self)
        ensures
            r@ == self@.insert(key@, Value::Number(Number::Integer(value))),
    {
        self.add(key, Value::Number(Number::Integer(value)))
    }

    /// Adds a field to an object as a number.
    pub fn add_number(&self, key: &str, value: Number) -> (r: Self)
        ensures
            r@ == self@.insert(key@, Value::Number(value)),
    {
        self.add(key, Value::Number(value))
    }

    /// Adds a field to an object as an object.
    pub fn add_object(&self, key: &str, value: Object) -> (r: Self)
        ensures
            r@ == self@.insert(key@, Value::Object(value)),
    {
        self.add(key, Value::Object(value))
    }

    /// Adds a field to an object as a string.
    pub fn add_string(&self, key: &str, value: &str) -> (r: Self)
        ensures
            r@.dom() == self@.dom().insert(key@),
            r@.remove(key@) == self@.remove(key@),
            is_string_of(r@[key@], value@),
    {
        let r = self.add(key, Value::String(value.to_owned()));
        assert(r@.remove(key@) == self@.remove(key@));
        r
    }

    /// Returns the value of the field with the given key, if there is one.
    pub fn get(&self, key: &str) -> (r: Option<&Value>)
        ensures
            self@.contains_key(key@) ==> r == Some(&self@[key@]),
            !self@.contains_key(key@) ==> r is None,
    {
        self.map.get(key)
    }

    /// Returns the value of the field with the given key if there is one and it is an array.
    pub fn get_array(&self, key: &str) -> (r: Option<Array>)
        ensures
            r == field_as(self@, key@, |v: Value| value_as_array(v)),
    {
        match self.get(key) {
            Some(v) => v.as_array(),
            None => None,
        }
    }

    /// Returns the value of the field with the given key if there is one and it is a Boolean.
    pub fn get_bool(&self, key: &str) -> (r: Option<bool>)
        ensures
            r == field_as(self@, key@, |v: Value| value_as_bool(v)),
    {
        match self.get(key) {
            Some(v) => v.as_bool(),
            None => None,
        }
    }

    /// Returns the bits of the field with the given key if there is one and it is a decimal.
    pub fn get_decimal(&self, key: &str) -> (r: Option<u64>)
        ensures
            r == field_as(self@, key@, |v: Value| value_as_decimal(v)),
    {
        match self.get(key) {
            Some(v) => v.as_decimal(),
            None => None,
        }
    }

    /// Returns the value of the field with the given key if there is one and it is an integer.
    pub fn get_integer(&self, key: &str) -> (r: Option<i128>)
        ensures
            r == field_as(self@, key@, |v: Value| value_as_integer(v)),
    {
        match self.get(key) {
            Some(v) => v.as_integer(),
            None => None,
        }
    }

    /// Returns the value of the field with the given key if there is one and it is a number.
    pub fn get_number(&self, key: &str) -> (r: Option<Number>)
        ensures
            r == field_as(self@, key@, |v: Value| value_as_number(v)),
    {
        match self.get(key) {
            Some(v) => v.as_number(),
            None => None,
        }
    }

    /// Returns the value of the field with the given key if there is one and it is an object.
    pub fn get_object(&self, key: &str) -> (r: Option<Object>)
        ensures
            r == field_as(self@, key@, |v: Value| value_as_object(v)),
    {
        match self.get(key) {
            Some(v) => v.as_object(),
            None => None,
        }
    }

    /// Returns the value of the field with the given key if there is one and it is a string.
    pub fn get_string(&self, key: &str) -> (r: Option<String>)
        ensures
            r == field_as(self@, key@, |v: Value| value_as_string(v)),
    {
        match self.get(key) {
            Some(v) => v.as_string(),
            None => None,
        }
    }

    /// Returns `true` if the object has a field with the given key.
    pub fn has_key(&self, key: &str) -> (r: bool)
        ensures
            r == self@.contains_key(key@),
    {
        self.map.contains_key(key)
    }

    /// The key/value pairs of the object: each field exactly once, in no stated order.
    pub fn iter(&self) -> (r: Vec<(String, Value)>)
        ensures
            r@.len() == self@.dom().len(),
            forall|i: int|
                0 <= i < r@.len() ==> #[trigger] self@.contains_key(r@[i].0@) && self@[r@[i].0@]
                    == r@[i].1,
            forall|i: int|
                0 <= i < r@.len() ==> forall|j: int|
                    i < j < r@.len() ==> #[trigger] r@[i].0@ != #[trigger] r@[j].0@,
            forall|k: Seq<char>|
                #[trigger] self@.contains_key(k) ==> exists|i: int|
                    0 <= i < r@.len() && #[trigger] r@[i].0@ == k,
    {
        let r = self.map.fields();
        assert forall|i: int| 0 <= i < r@.len() implies #[trigger] self@.contains_key(r@[i].0@)
            && self@[r@[i].0@] == r@[i].1 by {
            assert(map_fields(self.map).contains_key(r@[i].0@));
        }
        r
    }

    /// Removes the field with the given key from the object.
    pub fn remove(&self, key: &str) -> (r: Self)
        ensures
            r@ == self@.remove(key@),
    {
        let mut new_map = self.map.duplicate();
        new_map.remove(key);
        Object { map: new_map }
    }
}

} // verus!
