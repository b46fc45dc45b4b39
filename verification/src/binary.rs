//! Arrays of byte strings: one flat buffer with the bytes of all elements,
//! offsets that cut it into elements, and a validity buffer.
use vstd::prelude::*;
use vstd::slice::{slice_subrange, slice_to_vec};
use arrow2::bitmap::MutableBitmap;
use crate::array::{Array, MutableArray, absent_are_empty, offsets_cut, slices};
use crate::bitmap::bitmap_bits;
use crate::model::max_buffer_len;

verus! {

/// A nullable array of byte strings. An absent element takes no bytes.
pub struct BinaryArray {
    offsets: Vec<i64>,
    values: Vec<u8>,
    validity: MutableBitmap,
}

impl BinaryArray {
    #[verifier::type_invariant]
    spec fn layout_holds(self) -> bool {
        &&& offsets_cut(self.offsets@, self.values@.len())
        &&& bitmap_bits(self.validity).len() + 1 == self.offsets@.len()
        &&& absent_are_empty(self.offsets@, bitmap_bits(self.validity))
        &&& self.values@.len() <= max_buffer_len()
    }

    /// The offsets buffer: one more entry than there are elements.
    pub closed spec fn spec_offsets(&self) -> Seq<i64> {
        self.offsets@
    }

    /// The flat buffer of all bytes.
    pub closed spec fn spec_values(&self) -> Seq<u8> {
        self.values@
    }

    /// The validity buffer: one flag per element.
    pub closed spec fn spec_validity(&self) -> Seq<bool> {
        bitmap_bits(self.validity)
    }

    /// The number of elements, absent ones included.
    pub fn len(&self) -> (n: usize)
        ensures
            n == self.elems().len(),
            n == self.spec_validity().len(),
            n + 1 == self.spec_offsets().len(),
    {
        proof {
            use_type_invariant(self);
        }
        self.validity.len()
    }

    /// The offsets buffer. It cuts the bytes into the elements.
    pub fn offsets(&self) -> (buffer: &Vec<i64>)
        ensures
            buffer@ == self.spec_offsets(),
            offsets_cut(buffer@, self.spec_values().len()),
            buffer@.len() == self.elems().len() + 1,
    {
        proof {
            use_type_invariant(self);
        }
        &self.offsets
    }

    /// The flat buffer of all bytes.
    pub fn values(&self) -> (buffer: &Vec<u8>)
        ensures
            buffer@ == self.spec_values(),
            buffer@.len() <= max_buffer_len(),
    {
        proof {
            use_type_invariant(self);
        }
        &self.values
    }

    /// The validity buffer, one bit per element.
    pub fn validity(&self) -> (buffer: &MutableBitmap)
        ensures
            bitmap_bits(*buffer) == self.spec_validity(),
            bitmap_bits(*buffer).len() == self.elems().len(),
    {
        &self.validity
    }

    /// The offsets buffer, the flat buffer of all bytes and the validity
    /// buffer.
    pub fn into_parts(self) -> (parts: (Vec<i64>, Vec<u8>, MutableBitmap))
        ensures
            parts.0@ == self.spec_offsets(),
            parts.1@ == self.spec_values(),
            bitmap_bits(parts.2) == self.spec_validity(),
            offsets_cut(parts.0@, parts.1@.len()),
            bitmap_bits(parts.2).len() + 1 == parts.0@.len(),
            absent_are_empty(parts.0@, bitmap_bits(parts.2)),
            self.elems() == slices(parts.0@, bitmap_bits(parts.2), parts.1@),
    {
        proof {
            use_type_invariant(&self);
        }
        (self.offsets, self.values, self.validity)
    }

    /// The element at position `i`, or `None` past the end. The inner
    /// `None` is an absent element.
    pub fn get(&self, i: usize) -> (elem: Option<Option<&[u8]>>)
        ensures
            i >= self.elems().len() ==> elem is None,
            i < self.elems().len() ==> match elem {
                Some(Some(bytes)) => self.elems()[i as int] == Some(bytes@),
                Some(None) => self.elems()[i as int] is None,
                None => false,
            },
    {
        proof {
            use_type_invariant(self);
        }
        if i >= self.validity.len() {
            None
        } else if self.validity.get(i) {
            let start: i64 = self.offsets[i];
            let end: i64 = self.offsets[i + 1];
            Some(Some(slice_subrange(self.values.as_slice(), start as usize, end as usize)))
        } else {
            Some(None)
        }
    }
}

impl Array for BinaryArray {
    type Item = Seq<u8>;

    type Owned = Vec<u8>;

    closed spec fn elems(&self) -> Seq<Option<Seq<u8>>> {
        slices(self.offsets@, bitmap_bits(self.validity), self.values@)
    }

    open spec fn item_of(owned: Vec<u8>) -> Seq<u8> {
        owned@
    }

    fn value(&self, i: usize) -> (elem: Option<Option<Vec<u8>>>) {
        match self.get(i) {
            None => None,
            Some(None) => Some(None),
            Some(Some(bytes)) => Some(Some(slice_to_vec(bytes))),
        }
    }
}

/// A binary array under construction: elements are appended one by one.
pub(crate) struct MutableBinaryArray {
    offsets: Vec<i64>,
    values: Vec<u8>,
    validity: MutableBitmap,
}

impl MutableBinaryArray {
    /// An empty array with room for `capacity` elements and `bytes` bytes.
    pub(crate) fn with_capacity(capacity: usize, bytes: usize) -> (array: Self)
        ensures
            array.wf(),
            array.elems() == Seq::<Option<Seq<u8>>>::empty(),
            array.used() == 0,
    {
        let mut offsets: Vec<i64> = Vec::with_capacity(capacity.saturating_add(1));
        offsets.push(0);
        let array = MutableBinaryArray {
            offsets,
            values: Vec::with_capacity(bytes),
            validity: MutableBitmap::with_capacity(capacity),
        };
        array
    }

    /// The finished array.
    pub(crate) fn finish(self) -> (array: BinaryArray)
        requires
            self.wf(),
        ensures
            array.elems() == self.elems(),
            array.spec_values().len() == self.used(),
    {
        BinaryArray { offsets: self.offsets, values: self.values, validity: self.validity }
    }
}

impl<'a> MutableArray<&'a [u8]> for MutableBinaryArray {
    type Item = Seq<u8>;

    /// The offsets cut the bytes, and there is one more of them than there
    /// are elements.
    closed spec fn wf(&self) -> bool {
        &&& offsets_cut(self.offsets@, self.values@.len())
        &&& bitmap_bits(self.validity).len() + 1 == self.offsets@.len()
        &&& absent_are_empty(self.offsets@, bitmap_bits(self.validity))
        &&& self.values@.len() <= max_buffer_len()
    }

    closed spec fn elems(&self) -> Seq<Option<Seq<u8>>> {
        slices(self.offsets@, bitmap_bits(self.validity), self.values@)
    }

    /// The elements take the bytes of the flat buffer.
    closed spec fn used(&self) -> nat {
        self.values@.len()
    }

    open spec fn item_of(value: Option<&'a [u8]>) -> Option<Seq<u8>> {
        match value {
            Some(bytes) => Some(bytes@),
            None => None,
        }
    }

    open spec fn size_of(value: Option<&'a [u8]>) -> nat {
        match value {
            Some(bytes) => bytes@.len(),
            None => 0,
        }
    }

    /// Appends one element. An absent element takes no bytes: its offset
    /// repeats the one before.
    fn append(&mut self, value: Option<&'a [u8]>) {
        let ghost before = self.elems();
        match value {
            Some(bytes) => {
                self.values.extend_from_slice(bytes);
                self.offsets.push(self.values.len() as i64);
                self.validity.push(true);
                assert forall|k: int| 0 <= k < before.len() implies self.elems()[k]
                    == before[k] by {
                    if bitmap_bits(old(self).validity)[k] {
                        assert(self.values@.subrange(
                            self.offsets@[k] as int,
                            self.offsets@[k + 1] as int,
                        ) =~= old(self).values@.subrange(
                            old(self).offsets@[k] as int,
                            old(self).offsets@[k + 1] as int,
                        ));
                    }
                }
                assert(self.values@.subrange(
                    old(self).values@.len() as int,
                    self.values@.len() as int,
                ) =~= bytes@);
            },
            None => {
                self.offsets.push(self.values.len() as i64);
                self.validity.push(false);
            },
        }
    }
}

} // verus!
