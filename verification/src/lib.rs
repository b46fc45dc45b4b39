//! Repeat-by: expanding every value of a column into a sublist that holds as
//! many copies of it as a parallel column of counts says.
//!
//! The columns are nullable. An absent count gives an absent sublist; an
//! absent value with a present count gives a sublist of absent elements. A
//! count column of length one gives the count for every value. The result is
//! laid out as a list column is laid out in memory: one flat child array
//! with all the copies, an offsets buffer that cuts it into sublists, and a
//! validity bitmap for the sublists.
//!
//! Nothing of the result is allocated before its size is known: the counts
//! are added up first, with a check against overflow, and the buffers are
//! then made with exactly the room that they need.
//!
//! - [`model`] says what the result is, as sequences.
//! - [`chunked`] holds the columns, [`repeat`] the operation on them.
//! - [`array`], [`primitive`], [`binary`], [`utf8`] and [`list`] hold the
//!   arrays that a result is made of, and [`bitmap`] their validity buffers.
//! - [`counts`] aligns the counts and adds them up.
//! - [`laws`] proves what holds of every result.
pub mod array;
pub mod binary;
pub mod bitmap;
pub mod chunked;
pub mod counts;
pub mod error;
pub mod laws;
pub mod list;
pub mod model;
pub mod primitive;
pub mod repeat;
pub mod utf8;

pub use array::Array;
pub use binary::BinaryArray;
pub use chunked::{
    BinaryChunked, BooleanChunked, ChunkedArray, IdxCa, ListChunked, NumericNative, Utf8Chunked,
};
pub use error::RepeatByError;
pub use list::ListArray;
pub use model::IdxSize;
pub use primitive::PrimitiveArray;
pub use utf8::Utf8Array;
