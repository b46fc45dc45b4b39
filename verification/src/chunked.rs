//! Columns: a name and a nullable sequence of values of one kind.
use vstd::prelude::*;
use crate::array::Array;
use crate::error::RepeatByError;
use crate::list::ListArray;
use crate::model::IdxSize;

verus! {

/// A named column of optional values.
pub struct ChunkedArray<T> {
    name: String,
    values: Vec<Option<T>>,
}

/// A column of booleans.
pub type BooleanChunked = ChunkedArray<bool>;

/// A column of text.
pub type Utf8Chunked = ChunkedArray<String>;

/// A column of byte strings.
pub type BinaryChunked = ChunkedArray<Vec<u8>>;

/// A column of repeat counts.
pub type IdxCa = ChunkedArray<IdxSize>;

/// The fixed-width numbers that a numeric column can hold.
pub trait NumericNative: Copy + Default {
}

impl NumericNative for u8 {
}

impl NumericNative for u16 {
}

impl NumericNative for u32 {
}

impl NumericNative for u64 {
}

impl NumericNative for i8 {
}

impl NumericNative for i16 {
}

impl NumericNative for i32 {
}

impl NumericNative for i64 {
}

impl<T> View for ChunkedArray<T> {
    type V = Seq<Option<T>>;

    /// The values as they are stored, in order; `None` is an absent value.
    closed spec fn view(&self) -> Seq<Option<T>> {
        self.values@
    }
}

impl<T> ChunkedArray<T> {
    /// The name of the column.
    pub closed spec fn spec_name(&self) -> Seq<char> {
        self.name@
    }

    /// A column called `name` that holds `values`.
    pub fn new(name: &str, values: Vec<Option<T>>) -> (column: Self)
        ensures
            column@ == values@,
            column.spec_name() == name@,
    {
        ChunkedArray { name: name.to_owned(), values }
    }

    /// The name of the column.
    pub fn name(&self) -> (name: &str)
        ensures
            name@ == self.spec_name(),
    {
        self.name.as_str()
    }

    /// The number of values, absent ones included.
    pub fn len(&self) -> (n: usize)
        ensures
            n == self@.len(),
    {
        self.values.len()
    }

    /// The values, in order.
    pub fn values(&self) -> (values: &Vec<Option<T>>)
        ensures
            values@ == self@,
    {
        &self.values
    }
}

/// The text values of a column: each string as its characters.
pub open spec fn texts(values: Seq<Option<String>>) -> Seq<Option<Seq<char>>> {
    Seq::new(
        values.len(),
        |i: int|
            match values[i] {
                Some(s) => Some(s@),
                None => None,
            },
    )
}

/// The binary values of a column: each byte string as its bytes.
pub open spec fn blobs(values: Seq<Option<Vec<u8>>>) -> Seq<Option<Seq<u8>>> {
    Seq::new(
        values.len(),
        |i: int|
            match values[i] {
                Some(b) => Some(b@),
                None => None,
            },
    )
}

/// A named list column over a child array of type `A`.
pub struct ListChunked<A: Array> {
    name: String,
    array: ListArray<A>,
}

impl<A: Array> View for ListChunked<A> {
    type V = Seq<Option<Seq<Option<A::Item>>>>;

    /// The sublists, in order; `None` is an absent sublist.
    closed spec fn view(&self) -> Seq<Option<Seq<Option<A::Item>>>> {
        self.array@
    }
}

impl<A: Array> ListChunked<A> {
    /// The name of the column.
    pub closed spec fn spec_name(&self) -> Seq<char> {
        self.name@
    }

    /// The list array that holds the sublists.
    pub closed spec fn spec_array(&self) -> ListArray<A> {
        self.array
    }

    /// A list column called `name` over `array`.
    pub fn from_array(name: &str, array: ListArray<A>) -> (column: Self)
        ensures
            column@ == array@,
            column.spec_array() == array,
            column.spec_name() == name@,
    {
        ListChunked { name: name.to_owned(), array }
    }

    /// The name of the column.
    pub fn name(&self) -> (name: &str)
        ensures
            name@ == self.spec_name(),
    {
        self.name.as_str()
    }

    /// The number of sublists, absent ones included.
    pub fn len(&self) -> (n: usize)
        ensures
            n == self@.len(),
    {
        self.array.len()
    }

    /// The list array that holds the sublists, without the name.
    pub fn into_array(self) -> (array: ListArray<A>)
        ensures
            array == self.spec_array(),
            array@ == self@,
    {
        self.array
    }

    /// The list array that holds the sublists.
    pub fn array(&self) -> (array: &ListArray<A>)
        ensures
            *array == self.spec_array(),
            array@ == self@,
    {
        &self.array
    }
}

/// What a repeat-by returned, as sequences: the sublists of the list
/// column, or the failure.
pub open spec fn outcome<A: Array>(result: Result<ListChunked<A>, RepeatByError>) -> Result<
    Seq<Option<Seq<Option<A::Item>>>>,
    RepeatByError,
> {
    match result {
        Ok(list) => Ok(list@),
        Err(e) => Err(e),
    }
}

} // verus!
