//! Arrays of fixed-width values: a values buffer and a validity buffer of
//! the same length.
use vstd::prelude::*;
use arrow2::bitmap::MutableBitmap;
use crate::array::{Array, MutableArray, masked};
use crate::bitmap::bitmap_bits;

verus! {

/// A nullable array of fixed-width values. An absent element has a slot in
/// the values buffer like any other; the validity buffer says which slots
/// count.
pub struct PrimitiveArray<T> {
    values: Vec<T>,
    validity: MutableBitmap,
}

impl<T> PrimitiveArray<T> {
    #[verifier::type_invariant]
    spec fn layout_holds(self) -> bool {
        self.values@.len() == bitmap_bits(self.validity).len()
    }
}

impl<T: Copy> PrimitiveArray<T> {

    /// The values buffer.
    pub closed spec fn spec_values(&self) -> Seq<T> {
        self.values@
    }

    /// The validity buffer.
    pub closed spec fn spec_validity(&self) -> Seq<bool> {
        bitmap_bits(self.validity)
    }

    /// The number of elements, absent ones included.
    pub fn len(&self) -> (n: usize)
        ensures
            n == self.elems().len(),
            n == self.spec_values().len(),
            n == self.spec_validity().len(),
    {
        proof {
            use_type_invariant(self);
        }
        self.values.len()
    }

    /// The values buffer, one slot per element.
    pub fn values(&self) -> (buffer: &Vec<T>)
        ensures
            buffer@ == self.spec_values(),
            buffer@.len() == self.elems().len(),
    {
        proof {
            use_type_invariant(self);
        }
        &self.values
    }

    /// The validity buffer, one bit per element.
    pub fn validity(&self) -> (buffer: &MutableBitmap)
        ensures
            bitmap_bits(*buffer) == self.spec_validity(),
            bitmap_bits(*buffer).len() == self.elems().len(),
            self.elems() == masked(bitmap_bits(*buffer), self.spec_values()),
    {
        &self.validity
    }

    /// The values buffer and the validity buffer.
    pub fn into_parts(self) -> (parts: (Vec<T>, MutableBitmap))
        ensures
            parts.0@ == self.spec_values(),
            bitmap_bits(parts.1) == self.spec_validity(),
            parts.0@.len() == bitmap_bits(parts.1).len(),
            self.elems() == masked(bitmap_bits(parts.1), parts.0@),
    {
        proof {
            use_type_invariant(&self);
        }
        (self.values, self.validity)
    }

    /// The element at position `i`, or `None` past the end. The inner
    /// `None` is an absent element.
    pub fn get(&self, i: usize) -> (elem: Option<Option<T>>)
        ensures
            i < self.elems().len() ==> elem == Some(self.elems()[i as int]),
            i >= self.elems().len() ==> elem is None,
    {
        proof {
            use_type_invariant(self);
        }
        if i >= self.validity.len() {
            None
        } else if self.validity.get(i) {
            Some(Some(self.values[i]))
        } else {
            Some(None)
        }
    }
}

impl<T: Copy> Array for PrimitiveArray<T> {
    type Item = T;

    type Owned = T;

    closed spec fn elems(&self) -> Seq<Option<T>> {
        masked(bitmap_bits(self.validity), self.values@)
    }

    open spec fn item_of(owned: T) -> T {
        owned
    }

    fn value(&self, i: usize) -> (elem: Option<Option<T>>) {
        self.get(i)
    }
}

/// A fixed-width array under construction: elements are appended one by one.
pub(crate) struct MutablePrimitiveArray<T> {
    values: Vec<T>,
    validity: MutableBitmap,
}

impl<T: Copy + Default> MutablePrimitiveArray<T> {
    /// An empty array with room for `capacity` elements.
    pub(crate) fn with_capacity(capacity: usize) -> (array: Self)
        ensures
            array.wf(),
            array.elems() == Seq::<Option<T>>::empty(),
            array.used() == 0,
    {
        let array = MutablePrimitiveArray {
            values: Vec::with_capacity(capacity),
            validity: MutableBitmap::with_capacity(capacity),
        };
        array
    }

    /// The finished array.
    pub(crate) fn finish(self) -> (array: PrimitiveArray<T>)
        requires
            self.wf(),
        ensures
            array.elems() == self.elems(),
            array.spec_values().len() == self.used(),
    {
        PrimitiveArray { values: self.values, validity: self.validity }
    }
}

impl<T: Copy + Default> MutableArray<T> for MutablePrimitiveArray<T> {
    type Item = T;

    /// The two buffers have one slot per element.
    closed spec fn wf(&self) -> bool {
        self.values@.len() == bitmap_bits(self.validity).len()
    }

    closed spec fn elems(&self) -> Seq<Option<T>> {
        masked(bitmap_bits(self.validity), self.values@)
    }

    /// Every element takes one slot of the values buffer.
    closed spec fn used(&self) -> nat {
        self.values@.len()
    }

    open spec fn item_of(value: Option<T>) -> Option<T> {
        value
    }

    open spec fn size_of(value: Option<T>) -> nat {
        1
    }

    /// Appends one element. An absent element takes a slot too, filled with
    /// the default value of `T` and marked invalid.
    fn append(&mut self, value: Option<T>) {
        match value {
            Some(v) => {
                self.values.push(v);
                self.validity.push(true);
            },
            None => {
                self.values.push(T::default());
                self.validity.push(false);
            },
        }
    }
}

} // verus!
