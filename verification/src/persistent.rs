//! The persistent collections of `imbl` that hold arrays, objects and pointer paths.
//!
//! Every item in this file is trusted: its contract is believed, not proved. Each one makes a
//! single call into `imbl` and states what `imbl`'s source shows that call does to the
//! contents of the collection.
use crate::api::Value;
use vstd::prelude::*;

verus! {

/// The elements of a JSON array: a persistent vector of `imbl`. The vector is held in this
/// opaque struct because Verus does not accept a declaration of `imbl`'s vector type (its
/// shared-pointer parameter is bounded by a trait of `imbl`), nor the recursion of JSON values
/// through an outside type.
#[verifier::external_body]
#[derive(Debug, PartialEq, Eq)]
pub struct ValueVector {
    vec: imbl::Vector<Value>,
}

/// The fields of a JSON object: a persistent hash map of `imbl`, held in an opaque struct for
/// the same reason as `ValueVector`.
#[verifier::external_body]
#[derive(Debug, PartialEq, Eq)]
pub struct FieldMap {
    map: imbl::HashMap<String, Value>,
}

/// A field of an object: its key and its value.
pub type Field = (String, Value);

/// The values that a `ValueVector` holds, in order.
pub uninterp spec fn vector_items(v: ValueVector) -> Seq<Value>;

/// The fields that a `FieldMap` holds, keyed by the characters of their names.
pub uninterp spec fn map_fields(m: FieldMap) -> Map<Seq<char>, Value>;

/// The segments of a JSON pointer: a persistent vector of `imbl`, held in an opaque struct for
/// the same reason as `ValueVector`.
#[verifier::external_body]
#[derive(Debug, PartialEq, Eq, Hash)]
pub struct SegmentVector {
    vec: imbl::Vector<String>,
}

/// The characters of the segments that a `SegmentVector` holds, in order.
pub uninterp spec fn segment_items(v: SegmentVector) -> Seq<Seq<char>>;

impl ValueVector {
    /// `imbl::Vector::new`: an empty vector.
    #[verifier::external_body]
    pub(crate) fn new() -> (r: ValueVector)
        ensures
            vector_items(r) == Seq::<Value>::empty(),
    {
        ValueVector { vec: imbl::Vector::new() }
    }

    /// `imbl::Vector::clone`: the clone shares the tree of the vector it copies, so it is the same
    /// vector.
    #[verifier::external_body]
    pub(crate) fn duplicate(&self) -> (r: ValueVector)
        ensures
            r == *self,
    {
        ValueVector { vec: self.vec.clone() }
    }

    /// `imbl::Vector::len`: the number of elements.
    #[verifier::external_body]
    pub(crate) fn len(&self) -> (r: usize)
        ensures
            r == vector_items(*self).len(),
    {
        self.vec.len()
    }

    /// `imbl::Vector::get`: the element at `index`, or `None` when `index` is not below the
    /// length.
    #[verifier::external_body]
    pub(crate) fn get(&self, index: usize) -> (r: Option<&Value>)
        ensures
            index < vector_items(*self).len() ==> r == Some(&vector_items(*self)[index as int]),
            index >= vector_items(*self).len() ==> r is None,
    {
        self.vec.get(index)
    }

    /// `imbl::Vector::push_back`: appends a value.
    #[verifier::external_body]
    pub(crate) fn push_back(&mut self, value: Value)
        requires
            vector_items(*old(self)).len() < usize::MAX,
        ensures
            vector_items(*final(self)) == vector_items(*old(self)).push(value),
    {
        self.vec.push_back(value)
    }

    /// `imbl::Vector::insert`: inserts a value at `index`, which is at most the length (the
    /// source asserts it), shifting the later elements.
    #[verifier::external_body]
    pub(crate) fn insert(&mut self, index: usize, value: Value)
        requires
            index <= vector_items(*old(self)).len(),
            vector_items(*old(self)).len() < usize::MAX,
        ensures
            vector_items(*final(self)) == vector_items(*old(self)).insert(index as int, value),
    {
        self.vec.insert(index, value)
    }

    /// `imbl::Vector::remove`: removes the element at `index`, which is below the length (the
    /// source asserts it).
    #[verifier::external_body]
    pub(crate) fn remove(&mut self, index: usize)
        requires
            index < vector_items(*old(self)).len(),
        ensures
            vector_items(*final(self)) == vector_items(*old(self)).remove(index as int),
    {
        self.vec.remove(index);
    }

    /// `imbl::Vector::set`: replaces the element at `index`, which is below the length (the
    /// source indexes and panics otherwise).
    #[verifier::external_body]
    pub(crate) fn set(&mut self, index: usize, value: Value)
        requires
            index < vector_items(*old(self)).len(),
        ensures
            vector_items(*final(self)) == vector_items(*old(self)).update(index as int, value),
    {
        self.vec.set(index, value);
    }
}

impl Clone for ValueVector {
    fn clone(&self) -> (r: Self)
        ensures
            r == *self,
    {
        self.duplicate()
    }
}

impl Clone for FieldMap {
    fn clone(&self) -> (r: Self)
        ensures
            r == *self,
    {
        self.duplicate()
    }
}

impl FieldMap {
    /// `imbl::HashMap::new`: an empty map.
    #[verifier::external_body]
    pub(crate) fn new() -> (r: FieldMap)
        ensures
            map_fields(r).dom() == Set::<Seq<char>>::empty(),
    {
        FieldMap { map: imbl::HashMap::new() }
    }

    /// `imbl::HashMap::clone`: the clone shares the tree of the map it copies, so it is the same map.
    #[verifier::external_body]
    pub(crate) fn duplicate(&self) -> (r: FieldMap)
        ensures
            r == *self,
    {
        FieldMap { map: self.map.clone() }
    }

    /// `imbl::HashMap::insert`: sets the field `key` to `value`, replacing an earlier value.
    #[verifier::external_body]
    pub(crate) fn insert(&mut self, key: String, value: Value)
        ensures
            map_fields(*final(self)) == map_fields(*old(self)).insert(key@, value),
    {
        self.map.insert(key, value);
    }

    /// `imbl::HashMap::remove`: removes the field `key` if there is one.
    #[verifier::external_body]
    pub(crate) fn remove(&mut self, key: &str)
        ensures
            map_fields(*final(self)) == map_fields(*old(self)).remove(key@),
    {
        self.map.remove(key);
    }

    /// `imbl::HashMap::get`: the value of the field `key`, if there is one.
    #[verifier::external_body]
    pub(crate) fn get(&self, key: &str) -> (r: Option<&Value>)
        ensures
            map_fields(*self).contains_key(key@) ==> r == Some(&map_fields(*self)[key@]),
            !map_fields(*self).contains_key(key@) ==> r is None,
    {
        self.map.get(key)
    }

    /// `imbl::HashMap::contains_key`: whether there is a field `key`.
    #[verifier::external_body]
    pub(crate) fn contains_key(&self, key: &str) -> (r: bool)
        ensures
            r == map_fields(*self).contains_key(key@),
    {
        self.map.contains_key(key)
    }

    /// `imbl::HashMap::iter`, with each key and value cloned: every field exactly once, in an
    /// order that depends on the hasher's random seed, so the order is left unstated.
    #[verifier::external_body]
    pub(crate) fn fields(&self) -> (r: Vec<Field>)
        ensures
            r@.len() == map_fields(*self).dom().len(),
            forall|i: int|
                0 <= i < r@.len() ==> #[trigger] map_fields(*self).contains_key(r@[i].0@)
                    && map_fields(*self)[r@[i].0@] == r@[i].1,
            forall|i: int|
                0 <= i < r@.len() ==> forall|j: int|
                    i < j < r@.len() ==> #[trigger] r@[i].0@ != #[trigger] r@[j].0@,
            forall|k: Seq<char>|
                #[trigger] map_fields(*self).contains_key(k) ==> exists|i: int|
                    0 <= i < r@.len() && #[trigger] r@[i].0@ == k,
    {
        self.map.iter().map(|(k, v)| (k.clone(), v.clone())).collect()
    }
}

/// `imbl::Vector::new`: an empty vector of segments.
#[verifier::external_body]
pub(crate) fn segments_new() -> (r: SegmentVector)
    ensures
        segment_items(r) == Seq::<Seq<char>>::empty(),
{
    SegmentVector { vec: imbl::Vector::new() }
}

/// `imbl::Vector::clone`: the clone shares the tree of the vector it copies, so it is the same vector.
#[verifier::external_body]
pub(crate) fn segments_clone(v: &SegmentVector) -> (r: SegmentVector)
    ensures
        r == *v,
{
    SegmentVector { vec: v.vec.clone() }
}

/// `imbl::Vector::len`: the number of segments.
#[verifier::external_body]
pub(crate) fn segments_len(v: &SegmentVector) -> (r: usize)
    ensures
        r == segment_items(*v).len(),
{
    v.vec.len()
}

/// `imbl::Vector::get`: the segment at `index`, or `None` when `index` is not below the length.
#[verifier::external_body]
pub(crate) fn segments_get(v: &SegmentVector, index: usize) -> (r: Option<&String>)
    ensures
        index < segment_items(*v).len() ==> (r is Some && r.unwrap()@ == segment_items(*v)[index as int]),
        index >= segment_items(*v).len() ==> r is None,
{
    v.vec.get(index)
}

/// `imbl::Vector::push_back`: appends a segment.
#[verifier::external_body]
pub(crate) fn segments_push_back(v: &mut SegmentVector, segment: String)
    requires
        segment_items(*old(v)).len() < usize::MAX,
    ensures
        segment_items(*final(v)) == segment_items(*old(v)).push(segment@),
{
    v.vec.push_back(segment)
}

/// `imbl::Vector::pop_front`: removes the first segment, if there is one.
#[verifier::external_body]
pub(crate) fn segments_pop_front(v: &mut SegmentVector)
    ensures
        segment_items(*old(v)).len() > 0 ==> segment_items(*final(v)) == segment_items(
            *old(v),
        ).drop_first(),
        segment_items(*old(v)).len() == 0 ==> segment_items(*final(v)) == segment_items(*old(v)),
{
    v.vec.pop_front();
}

/// `imbl::Vector::pop_back`: removes the last segment, if there is one.
#[verifier::external_body]
pub(crate) fn segments_pop_back(v: &mut SegmentVector)
    ensures
        segment_items(*old(v)).len() > 0 ==> segment_items(*final(v)) == segment_items(
            *old(v),
        ).drop_last(),
        segment_items(*old(v)).len() == 0 ==> segment_items(*final(v)) == segment_items(*old(v)),
{
    v.vec.pop_back();
}

impl Clone for SegmentVector {
    fn clone(&self) -> (r: Self)
        ensures
            r == *self,
    {
        segments_clone(self)
    }
}

} // verus!
