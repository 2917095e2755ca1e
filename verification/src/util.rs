//! Changes to persistent vectors that leave the vector they start from untouched.
use crate::api::Value;
use crate::persistent::{
    segment_items, segments_clone, segments_pop_back, segments_pop_front, segments_push_back,
    vector_items, SegmentVector, ValueVector,
};
use vstd::prelude::*;

verus! {

/// A copy of the vector with `value` inserted at `index`.
pub(crate) fn insert(vector: &ValueVector, index: usize, value: Value) -> (r: ValueVector)
    requires
        index <= vector_items(*vector).len(),
        vector_items(*vector).len() < usize::MAX,
    ensures
        vector_items(r) == vector_items(*vector).insert(index as int, value),
{
    let mut new_vec = vector.duplicate();
    new_vec.insert(index, value);
    new_vec
}

/// A copy of the vector with `value` appended.
pub(crate) fn push_back(vector: &ValueVector, value: Value) -> (r: ValueVector)
    requires
        vector_items(*vector).len() < usize::MAX,
    ensures
        vector_items(r) == vector_items(*vector).push(value),
{
    let mut new_vec = vector.duplicate();
    new_vec.push_back(value);
    new_vec
}

/// A copy of the segments with `segment` appended.
pub(crate) fn push_back_segment(vector: &SegmentVector, segment: String) -> (r: SegmentVector)
    requires
        segment_items(*vector).len() < usize::MAX,
    ensures
        segment_items(r) == segment_items(*vector).push(segment@),
{
    let mut new_vec = segments_clone(vector);
    segments_push_back(&mut new_vec, segment);
    new_vec
}

/// A copy of the segments without the first one; the empty vector stays empty.
pub(crate) fn remove_first(vector: &SegmentVector) -> (r: SegmentVector)
    ensures
        segment_items(*vector).len() > 0 ==> segment_items(r) == segment_items(*vector).drop_first(),
        segment_items(*vector).len() == 0 ==> segment_items(r) == segment_items(*vector),
{
    let mut new_vec = segments_clone(vector);
    segments_pop_front(&mut new_vec);
    new_vec
}

/// A copy of the segments without the last one; the empty vector stays empty.
pub(crate) fn remove_last(vector: &SegmentVector) -> (r: SegmentVector)
    ensures
        segment_items(*vector).len() > 0 ==> segment_items(r) == segment_items(*vector).drop_last(),
        segment_items(*vector).len() == 0 ==> segment_items(r) == segment_items(*vector),
{
    let mut new_vec = segments_clone(vector);
    segments_pop_back(&mut new_vec);
    new_vec
}

} // verus!
