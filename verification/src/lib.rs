//! JSON objects and arrays that are transformed in an immutable way: every "change" gives a new
//! value. Persistent collections hold the contents, so that changes and copies are cheap.
pub mod api;
pub mod array;
pub mod error;
pub mod object;
pub mod persistent;
pub mod util;
pub mod text;
pub mod pointer;
pub mod order;
pub mod laws;
pub mod serde;
pub mod patch;
pub mod bson;
pub mod jaq;
pub mod round_trip;
