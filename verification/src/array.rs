//! JSON arrays.
use crate::api::{
    is_string_of, value_as_array, value_as_bool, value_as_decimal, value_as_integer,
    value_as_number, value_as_object, value_as_string, Number, Value,
};
use crate::error::JsonIndexError;
use crate::object::Object;
use crate::persistent::{vector_items, ValueVector};
use crate::util::{insert, push_back};
use vstd::prelude::*;

verus! {

/// Represents a JSON array.
#[derive(Clone, Debug, PartialEq, Eq)]
pub struct Array {
    vec: ValueVector,
}

impl View for Array {
    type V = Seq<Value>;

    closed spec fn view(&self) -> Seq<Value> {
        vector_items(self.vec)
    }
}

/// The error for an index that does not fit an array of the given length.
pub open spec fn index_error(index: usize, len: nat) -> JsonIndexError {
    JsonIndexError { index, len: len as usize }
}

/// What `Array::get` gives: the value at the index, or the error for an index that is not
/// below the length.
pub open spec fn array_get(a: Seq<Value>, index: usize) -> Result<Value, JsonIndexError> {
    if index < a.len() {
        Ok(a[index as int])
    } else {
        Err(index_error(index, a.len()))
    }
}

/// What `Array::insert` gives: the elements with the value inserted at the index, or the
/// error for an index above the length.
pub open spec fn array_insert(a: Seq<Value>, index: usize, value: Value) -> Result<
    Seq<Value>,
    JsonIndexError,
> {
    if index <= a.len() {
        Ok(a.insert(index as int, value))
    } else {
        Err(index_error(index, a.len()))
    }
}

/// What `Array::remove` gives: the elements without the one at the index, or the error for an
/// index that is not below the length.
pub open spec fn array_remove(a: Seq<Value>, index: usize) -> Result<Seq<Value>, JsonIndexError> {
    if index < a.len() {
        Ok(a.remove(index as int))
    } else {
        Err(index_error(index, a.len()))
    }
}

/// What `Array::set` gives: the elements with the one at the index replaced, or the error for
/// an index that is not below the length.
pub open spec fn array_set(a: Seq<Value>, index: usize, value: Value) -> Result<
    Seq<Value>,
    JsonIndexError,
> {
    if index < a.len() {
        Ok(a.update(index as int, value))
    } else {
        Err(index_error(index, a.len()))
    }
}

/// The elements of an array result, or the error.
pub open spec fn array_result_view(r: Result<Array, JsonIndexError>) -> Result<
    Seq<Value>,
    JsonIndexError,
> {
    match r {
        Ok(a) => Ok(a@),
        Err(e) => Err(e),
    }
}

/// Applies an accessor to the value of a `get` result.
pub open spec fn map_get<T>(r: Result<Value, JsonIndexError>, f: spec_fn(Value) -> Option<T>) -> Result<
    Option<T>,
    JsonIndexError,
> {
    match r {
        Ok(v) => Ok(f(v)),
        Err(e) => Err(e),
    }
}

impl Default for Array {
    fn default() -> (r: Self)
        ensures
            r@ == Seq::<Value>::empty(),
    {
        Self::new()
    }
}

impl Array {
    /// Creates an empty JSON array.
    pub fn new() -> (r: Self)
        ensures
            r@ == Seq::<Value>::empty(),
    {
        Array { vec: ValueVector::new() }
    }

    /// The same array; the copy shares the persistent storage.
    pub fn duplicate(&self) -> (r: Self)
        ensures
            r == *self,
    {
        Array { vec: self.vec.duplicate() }
    }

    /// Creates an array from values, in order.
    pub fn from_iter(values: Vec<Value>) -> (r: Self)
        ensures
            r@ == values@,
    {
        let mut result = Array::new();
        let mut i: usize = 0;
        while i < values.len()
            invariant
                i <= values.len(),
                result@ == values@.take(i as int),
            decreases values.len() - i,
        {
            result = result.add(&values[i]);
            i = i + 1;
            assert(result@ == values@.take(i as int));
        }
        assert(values@.take(values.len() as int) == values@);
        result
    }

    /// Adds a JSON value to an array.
    pub fn add(&self, value: &Value) -> (r: Self)
        requires
            self@.len() < usize::MAX,
        ensures
            r@ == self@.push(*value),
    {
        Array { vec: push_back(&self.vec, value.duplicate()) }
    }

    /// Adds an array to an array.
    pub fn add_array(&self, value: &Array) -> (r: Self)
        requires
            self@.len() < usize::MAX,
        ensures
            r@ == self@.push(Value::Array(*value)),
    {
        self.add(&Value::Array(value.duplicate()))
    }

    /// Adds a Boolean to an array.
    pub fn add_bool(&self, value: bool) -> (r: Self)
        requires
            self@.len() < usize::MAX,
        ensures
            r@ == self@.push(Value::Bool(value)),
    {
        self.add(&Value::Bool(value))
    }

    /// Adds a decimal, given by its binary64 bits, to an array.
    pub fn add_decimal(&self, value: u64) -> (r: Self)
        requires
            self@.len() < usize::MAX,
        ensures
            r@ == self@.push(Value::Number(Number::Decimal(value))),
    {
        self.add(&Value::Number(Number::Decimal(value)))
    }

    /// Adds an integer to an array.
    pub fn add_integer(&self, value: i128) -> (r: Self)
        requires
            self@.len() < usize::MAX,
        ensures
            r@ == self@.push(Value::Number(Number::Integer(value))),
    {
        self.add(&Value::Number(Number::Integer(value)))
    }

    /// Adds a number to an array.
    pub fn add_number(&self, value: Number) -> (r: Self)
        requires
            self@.len() < usize::MAX,
        ensures
            r@ == self@.push(Value::Number(value)),
    {
        self.add(&Value::Number(value))
    }

    /// Adds an object to an array.
    pub fn add_object(&self, value: &Object) -> (r: Self)
        requires
            self@.len() < usize::MAX,
        ensures
            r@ == self@.push(Value::Object(*value)),
    {
        self.add(&Value::Object(value.duplicate()))
    }

    /// Adds a string to an array.
    pub fn add_string(&self, value: &str) -> (r: Self)
        requires
            self@.len() < usize::MAX,
        ensures
            r@.len() == self@.len() + 1,
            r@.drop_last() == self@,
            is_string_of(r@.last(), value@),
    {
        let r = self.add(&Value::String(value.to_owned()));
        assert(r@.drop_last() == self@);
        r
    }

    /// Gets a JSON value from an array at a given index, which must be less than the length of
    /// the array.
    pub fn get(&self, index: usize) -> (r: Result<Value, JsonIndexError>)
        ensures
            r == array_get(self@, index),
    {
        match self.vec.get(index) {
            Some(v) => Ok(v.duplicate()),
            None => Err(JsonIndexError { index, len: self.len() }),
        }
    }

    /// Gets an array from an array at a given index. If the value at the position is not an
    /// array, `None` is returned.
    pub fn get_array(&self, index: usize) -> (r: Result<Option<Array>, JsonIndexError>)
        ensures
            r == map_get(array_get(self@, index), |v: Value| value_as_array(v)),
    {
        match self.get(index) {
            Ok(v) => Ok(v.as_array()),
            Err(e) => Err(e),
        }
    }

    /// Gets a Boolean from an array at a given index. If the value at the position is not a
    /// Boolean, `None` is returned.
    pub fn get_bool(&self, index: usize) -> (r: Result<Option<bool>, JsonIndexError>)
        ensures
            r == map_get(array_get(self@, index), |v: Value| value_as_bool(v)),
    {
        match self.get(index) {
            Ok(v) => Ok(v.as_bool()),
            Err(e) => Err(e),
        }
    }

    /// Gets the bits of a decimal from an array at a given index. If the value at the position
    /// is not a decimal, `None` is returned.
    pub fn get_decimal(&self, index: usize) -> (r: Result<Option<u64>, JsonIndexError>)
        ensures
            r == map_get(array_get(self@, index), |v: Value| value_as_decimal(v)),
    {
        match self.get(index) {
            Ok(v) => Ok(v.as_decimal()),
            Err(e) => Err(e),
        }
    }

    /// Gets an integer from an array at a given index. If the value at the position is not an
    /// integer, `None` is returned.
    pub fn get_integer(&self, index: usize) -> (r: Result<Option<i128>, JsonIndexError>)
        ensures
            r == map_get(array_get(self@, index), |v: Value| value_as_integer(v)),
    {
        match self.get(index) {
            Ok(v) => Ok(v.as_integer()),
            Err(e) => Err(e),
        }
    }

    /// Gets a number from an array at a given index. If the value at the position is not a
    /// number, `None` is returned.
    pub fn get_number(&self, index: usize) -> (r: Result<Option<Number>, JsonIndexError>)
        ensures
            r == map_get(array_get(self@, index), |v: Value| value_as_number(v)),
    {
        match self.get(index) {
            Ok(v) => Ok(v.as_number()),
            Err(e) => Err(e),
        }
    }

    /// Gets an object from an array at a given index. If the value at the position is not an
    /// object, `None` is returned.
    pub fn get_object(&self, index: usize) -> (r: Result<Option<Object>, JsonIndexError>)
        ensures
            r == map_get(array_get(self@, index), |v: Value| value_as_object(v)),
    {
        match self.get(index) {
            Ok(v) => Ok(v.as_object()),
            Err(e) => Err(e),
        }
    }

    /// Gets a string from an array at a given index. If the value at the position is not a
    /// string, `None` is returned.
    pub fn get_string(&self, index: usize) -> (r: Result<Option<String>, JsonIndexError>)
        ensures
            r == map_get(array_get(self@, index), |v: Value| value_as_string(v)),
    {
        match self.get(index) {
            Ok(v) => Ok(v.as_string()),
            Err(e) => Err(e),
        }
    }

    /// Inserts a JSON value into an array at a given index. If the index is equal to the
    /// length of the array, the value is added at the end of it.
    pub fn insert(&self, index: usize, value: &Value) -> (r: Result<Self, JsonIndexError>)
        requires
            self@.len() < usize::MAX,
        ensures
            array_result_view(r) == array_insert(self@, index, *value),
    {
        if index > self.len() {
            Err(JsonIndexError { index, len: self.len() })
        } else {
            Ok(Array { vec: insert(&self.vec, index, value.duplicate()) })
        }
    }

    /// Inserts an array into an array at a given index.
    pub fn insert_array(&self, index: usize, value: &Array) -> (r: Result<Self, JsonIndexError>)
        requires
            self@.len() < usize::MAX,
        ensures
            array_result_view(r) == array_insert(self@, index, Value::Array(*value)),
    {
        self.insert(index, &Value::Array(value.duplicate()))
    }

    /// Inserts a Boolean into an array at a given index.
    pub fn insert_bool(&self, index: usize, value: bool) -> (r: Result<Self, JsonIndexError>)
        requires
            self@.len() < usize::MAX,
        ensures
            array_result_view(r) == array_insert(self@, index, Value::Bool(value)),
    {
        self.insert(index, &Value::Bool(value))
    }

    /// Inserts a decimal, given by its binary64 bits, into an array at a given index.
    pub fn insert_decimal(&self, index: usize, value: u64) -> (r: Result<Self, JsonIndexError>)
        requires
            self@.len() < usize::MAX,
        ensures
            array_result_view(r) == array_insert(
                self@,
                index,
                Value::Number(Number::Decimal(value)),
            ),
    {
        self.insert(index, &Value::Number(Number::Decimal(value)))
    }

    /// Inserts an integer into an array at a given index.
    pub fn insert_integer(&self, index: usize, value: i128) -> (r: Result<Self, JsonIndexError>)
        requires
            self@.len() < usize::MAX,
        ensures
            array_result_view(r) == array_insert(
                self@,
                index,
                Value::Number(Number::Integer(value)),
            ),
    {
        self.insert(index, &Value::Number(Number::Integer(value)))
    }

    /// Inserts a number into an array at a given index.
    pub fn insert_number(&self, index: usize, value: Number) -> (r: Result<Self, JsonIndexError>)
        requires
            self@.len() < usize::MAX,
        ensures
            array_result_view(r) == array_insert(self@, index, Value::Number(value)),
    {
        self.insert(index, &Value::Number(value))
    }

    /// Inserts an object into an array at a given index.
    pub fn insert_object(&self, index: usize, value: &Object) -> (r: Result<Self, JsonIndexError>)
        requires
            self@.len() < usize::MAX,
        ensures
            array_result_view(r) == array_insert(self@, index, Value::Object(*value)),
    {
        self.insert(index, &Value::Object(value.duplicate()))
    }

    /// Inserts a string into an array at a given index.
    pub fn insert_string(&self, index: usize, value: &str) -> (r: Result<Self, JsonIndexError>)
        requires
            self@.len() < usize::MAX,
        ensures
            index <= self@.len() <==> r is Ok,
            r matches Ok(a) ==> a@.len() == self@.len() + 1 && a@.remove(index as int) == self@
                && is_string_of(a@[index as int], value@),
            r matches Err(e) ==> e == index_error(index, self@.len()),
    {
        let r = self.insert(index, &Value::String(value.to_owned()));
        proof {
            if index <= self@.len() {
                let a = r->Ok_0@;
                assert(a.remove(index as int) == self@);
            }
        }
        r
    }

    /// Indicates if the array is empty or not.
    pub fn is_empty(&self) -> (r: bool)
        ensures
            r == (self@.len() == 0),
    {
        self.vec.len() == 0
    }

    /// The values of the array, in order.
    pub fn iter(&self) -> (r: Vec<Value>)
        ensures
            r@ == self@,
    {
        let mut result: Vec<Value> = Vec::new();
        let n = self.vec.len();
        let mut i: usize = 0;
        while i < n
            invariant
                n == self@.len(),
                i <= n,
                result@ == self@.take(i as int),
            decreases n - i,
        {
            match self.vec.get(i) {
                Some(v) => result.push(v.duplicate()),
                None => {},
            }
            i = i + 1;
            assert(result@ == self@.take(i as int));
        }
        assert(self@.take(n as int) == self@);
        result
    }

    /// Returns the length of an array.
    pub fn len(&self) -> (r: usize)
        ensures
            r == self@.len(),
    {
        self.vec.len()
    }

    /// Removes a JSON value from an array at a given index, which must be less than the length
    /// of the array.
    pub fn remove(&self, index: usize) -> (r: Result<Self, JsonIndexError>)
        ensures
            array_result_view(r) == array_remove(self@, index),
    {
        if index >= self.len() {
            Err(JsonIndexError { index, len: self.len() })
        } else {
            let mut new_vec = self.vec.duplicate();
            new_vec.remove(index);
            Ok(Array { vec: new_vec })
        }
    }

    /// Sets a JSON value in an array at a given index, which must be less than the length of
    /// the array.
    pub fn set(&self, index: usize, value: &Value) -> (r: Result<Self, JsonIndexError>)
        ensures
            array_result_view(r) == array_set(self@, index, *value),
    {
        if index >= self.len() {
            Err(JsonIndexError { index, len: self.len() })
        } else {
            let mut new_vec = self.vec.duplicate();
            new_vec.set(index, value.duplicate());
            Ok(Array { vec: new_vec })
        }
    }

    /// Sets an array in an array at a given index.
    pub fn set_array(&self, index: usize, value: &Array) -> (r: Result<Self, JsonIndexError>)
        ensures
            array_result_view(r) == array_set(self@, index, Value::Array(*value)),
    {
        self.set(index, &Value::Array(value.duplicate()))
    }

    /// Sets a Boolean in an array at a given index.
    pub fn set_bool(&self, index: usize, value: bool) -> (r: Result<Self, JsonIndexError>)
        ensures
            array_result_view(r) == array_set(self@, index, Value::Bool(value)),
    {
        self.set(index, &Value::Bool(value))
    }

    /// Sets a decimal, given by its binary64 bits, in an array at a given index.
    pub fn set_decimal(&self, index: usize, value: u64) -> (r: Result<Self, JsonIndexError>)
        ensures
            array_result_view(r) == array_set(self@, index, Value::Number(Number::Decimal(value))),
    {
        self.set(index, &Value::Number(Number::Decimal(value)))
    }

    /// Sets an integer in an array at a given index.
    pub fn set_integer(&self, index: usize, value: i128) -> (r: Result<Self, JsonIndexError>)
        ensures
            array_result_view(r) == array_set(self@, index, Value::Number(Number::Integer(value))),
    {
        self.set(index, &Value::Number(Number::Integer(value)))
    }

    /// Sets a number in an array at a given index.
    pub fn set_number(&self, index: usize, value: Number) -> (r: Result<Self, JsonIndexError>)
        ensures
            array_result_view(r) == array_set(self@, index, Value::Number(value)),
    {
        self.set(index, &Value::Number(value))
    }

    /// Sets an object in an array at a given index.
    pub fn set_object(&self, index: usize, value: &Object) -> (r: Result<Self, JsonIndexError>)
        ensures
            array_result_view(r) == array_set(self@, index, Value::Object(*value)),
    {
        self.set(index, &Value::Object(value.duplicate()))
    }

    /// Sets a string in an array at a given index.
    pub fn set_string(&self, index: usize, value: &str) -> (r: Result<Self, JsonIndexError>)
        ensures
            index < self@.len() <==> r is Ok,
            r matches Ok(a) ==> a@.len() == self@.len() && (forall|j: int|
                0 <= j < self@.len() && j != index ==> a@[j] == self@[j]) && is_string_of(
                a@[index as int],
                value@,
            ),
            r matches Err(e) ==> e == index_error(index, self@.len()),
    {
        self.set(index, &Value::String(value.to_owned()))
    }
}

} // verus!
