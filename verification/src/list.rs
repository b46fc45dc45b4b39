//! List arrays: a child array with the elements of all sublists one after
//! another, offsets that cut it into sublists, and a validity buffer that
//! says which sublists are present.
use vstd::prelude::*;
use arrow2::bitmap::MutableBitmap;
use crate::array::{Array, offsets_cut, owned_elem, owned_elems, owned_lists, slices};
use crate::bitmap::bitmap_bits;
use crate::model::max_buffer_len;

verus! {

/// A nullable array of sublists over a child array of type `A`.
pub struct ListArray<A: Array> {
    offsets: Vec<i64>,
    values: A,
    validity: MutableBitmap,
}

impl<A: Array> ListArray<A> {
    #[verifier::type_invariant]
    spec fn layout_holds(self) -> bool {
        &&& offsets_cut(self.offsets@, self.values.elems().len())
        &&& bitmap_bits(self.validity).len() + 1 == self.offsets@.len()
        &&& self.values.elems().len() <= max_buffer_len()
    }

    /// The offsets buffer: one more entry than there are sublists.
    pub closed spec fn spec_offsets(&self) -> Seq<i64> {
        self.offsets@
    }

    /// The validity buffer: one flag per sublist.
    pub closed spec fn spec_validity(&self) -> Seq<bool> {
        bitmap_bits(self.validity)
    }

    /// The child array.
    pub closed spec fn spec_values(&self) -> A {
        self.values
    }

    /// The sublists, in order; `None` is an absent sublist.
    pub closed spec fn view(&self) -> Seq<Option<Seq<Option<A::Item>>>> {
        slices(self.offsets@, bitmap_bits(self.validity), self.values.elems())
    }

    /// The sublists are the child array's elements, cut by the offsets and
    /// read under the validity buffer.
    pub proof fn lemma_view(&self)
        ensures
            self@ == slices(self.spec_offsets(), self.spec_validity(), self.spec_values().elems()),
    {
    }

    /// The number of sublists, absent ones included.
    pub fn len(&self) -> (n: usize)
        ensures
            n == self@.len(),
            n == self.spec_validity().len(),
            n + 1 == self.spec_offsets().len(),
    {
        proof {
            use_type_invariant(self);
        }
        self.validity.len()
    }

    /// The offsets buffer. It cuts the child array into the sublists.
    pub fn offsets(&self) -> (buffer: &Vec<i64>)
        ensures
            buffer@ == self.spec_offsets(),
            offsets_cut(buffer@, self.spec_values().elems().len()),
            buffer@.len() == self@.len() + 1,
            self.spec_values().elems().len() <= max_buffer_len(),
    {
        proof {
            use_type_invariant(self);
        }
        &self.offsets
    }

    /// The validity buffer, one bit per sublist.
    pub fn validity(&self) -> (buffer: &MutableBitmap)
        ensures
            bitmap_bits(*buffer) == self.spec_validity(),
            bitmap_bits(*buffer).len() == self@.len(),
            self@ == slices(self.spec_offsets(), bitmap_bits(*buffer), self.spec_values().elems()),
    {
        &self.validity
    }

    /// The offsets buffer, the child array and the validity buffer.
    pub fn into_parts(self) -> (parts: (Vec<i64>, A, MutableBitmap))
        ensures
            parts.0@ == self.spec_offsets(),
            parts.1 == self.spec_values(),
            bitmap_bits(parts.2) == self.spec_validity(),
            offsets_cut(parts.0@, parts.1.elems().len()),
            bitmap_bits(parts.2).len() + 1 == parts.0@.len(),
            self@ == slices(parts.0@, bitmap_bits(parts.2), parts.1.elems()),
    {
        proof {
            use_type_invariant(&self);
        }
        (self.offsets, self.values, self.validity)
    }

    /// The child array.
    pub fn values(&self) -> (child: &A)
        ensures
            *child == self.spec_values(),
    {
        &self.values
    }

    /// Where sublist `i` lies in the child array: `None` past the end and
    /// for an absent sublist, else the positions of its first element and
    /// of the one after its last.
    pub fn bounds(&self, i: usize) -> (range: Option<(usize, usize)>)
        ensures
            match range {
                Some((start, end)) => {
                    &&& i < self@.len()
                    &&& start <= end <= self.spec_values().elems().len()
                    &&& self@[i as int] == Some(
                        self.spec_values().elems().subrange(start as int, end as int),
                    )
                },
                None => i < self@.len() ==> self@[i as int] is None,
            },
    {
        proof {
            use_type_invariant(self);
        }
        if i >= self.validity.len() || !self.validity.get(i) {
            None
        } else {
            let start: i64 = self.offsets[i];
            let end: i64 = self.offsets[i + 1];
            Some((start as usize, end as usize))
        }
    }
}

impl<A: Array> ListArray<A> {
    /// Copies of the elements of the child array from position `start` up
    /// to position `end`.
    fn copy_range(&self, start: usize, end: usize) -> (elems: Vec<Option<A::Owned>>)
        requires
            start <= end <= self.spec_values().elems().len(),
        ensures
            owned_elems::<A>(elems@) == self.spec_values().elems().subrange(
                start as int,
                end as int,
            ),
    {
        let ghost child = self.values.elems();
        let mut elems: Vec<Option<A::Owned>> = Vec::with_capacity(end - start);
        let mut j: usize = start;
        while j < end
            invariant
                start <= j <= end <= child.len(),
                child == self.values.elems(),
                elems@.len() == j - start,
                forall|k: int|
                    0 <= k < j - start ==> owned_elem::<A>(#[trigger] elems@[k]) == child[start + k],
            decreases end - j,
        {
            if let Some(elem) = self.values.value(j) {
                elems.push(elem);
            }
            j += 1;
        }
        elems
    }

    /// Copies of all sublists, as nested vectors.
    pub fn to_vec(&self) -> (lists: Vec<Option<Vec<Option<A::Owned>>>>)
        ensures
            owned_lists::<A>(lists@) == self@,
    {
        let n: usize = self.len();
        let mut lists: Vec<Option<Vec<Option<A::Owned>>>> = Vec::with_capacity(n);
        let mut i: usize = 0;
        while i < n
            invariant
                n == self@.len(),
                i <= n,
                lists@.len() == i,
                forall|k: int| 0 <= k < i ==> #[trigger] owned_lists::<A>(lists@)[k] == self@[k],
            decreases n - i,
        {
            let ghost before = lists@;
            let sublist: Option<Vec<Option<A::Owned>>> = match self.bounds(i) {
                Some((start, end)) => Some(self.copy_range(start, end)),
                None => None,
            };
            lists.push(sublist);
            assert forall|k: int| 0 <= k <= i implies #[trigger] owned_lists::<A>(lists@)[k]
                == self@[k] by {
                if k < i {
                    assert(owned_lists::<A>(before)[k] == self@[k]);
                }
            }
            i += 1;
        }
        lists
    }
}

/// The offsets and validity of a list array under construction: sublists
/// are appended one by one, by their lengths.
pub(crate) struct ListOffsets {
    offsets: Vec<i64>,
    validity: MutableBitmap,
}

impl ListOffsets {
    /// The offsets start at zero and never decrease, and there is one more
    /// of them than there are sublists.
    pub(crate) closed spec fn wf(&self) -> bool {
        &&& offsets_cut(self.offsets@, self.offsets@.last() as nat)
        &&& bitmap_bits(self.validity).len() + 1 == self.offsets@.len()
        &&& self.offsets@.last() <= max_buffer_len()
    }

    /// The offsets so far.
    pub(crate) closed spec fn spec_offsets(&self) -> Seq<i64> {
        self.offsets@
    }

    /// The validity flags so far.
    pub(crate) closed spec fn spec_validity(&self) -> Seq<bool> {
        bitmap_bits(self.validity)
    }

    /// The number of elements in the sublists so far: the last offset.
    pub(crate) open spec fn end(&self) -> int {
        self.spec_offsets().last() as int
    }

    /// No sublists yet, with room for `capacity` of them.
    pub(crate) fn with_capacity(capacity: usize) -> (frame: Self)
        ensures
            frame.wf(),
            frame.spec_offsets() == seq![0i64],
            frame.spec_validity() == Seq::<bool>::empty(),
    {
        let mut offsets: Vec<i64> = Vec::with_capacity(capacity.saturating_add(1));
        offsets.push(0);
        let frame = ListOffsets { offsets, validity: MutableBitmap::with_capacity(capacity) };
        frame
    }

    /// Appends an absent sublist: it takes no elements.
    pub(crate) fn push_null(&mut self)
        requires
            old(self).wf(),
            old(self).spec_validity().len() < usize::MAX,
        ensures
            final(self).wf(),
            final(self).spec_offsets() == old(self).spec_offsets().push(
                old(self).spec_offsets().last(),
            ),
            final(self).spec_validity() == old(self).spec_validity().push(false),
    {
        let last: i64 = self.offsets[self.offsets.len() - 1];
        self.offsets.push(last);
        self.validity.push(false);
    }

    /// Appends a present sublist of `len` elements.
    pub(crate) fn push_valid(&mut self, len: usize)
        requires
            old(self).wf(),
            old(self).spec_validity().len() < usize::MAX,
            old(self).end() + len <= max_buffer_len(),
        ensures
            final(self).wf(),
            final(self).spec_offsets() == old(self).spec_offsets().push(
                (old(self).end() + len) as i64,
            ),
            final(self).spec_validity() == old(self).spec_validity().push(true),
    {
        let last: i64 = self.offsets[self.offsets.len() - 1];
        let next: i64 = last + len as i64;
        self.offsets.push(next);
        self.validity.push(true);
    }

    /// The list array of these sublists over `values`, which holds exactly
    /// the elements that the offsets count.
    pub(crate) fn into_list<A: Array>(self, values: A) -> (list: ListArray<A>)
        requires
            self.wf(),
            self.end() == values.elems().len(),
        ensures
            list@ == slices(self.spec_offsets(), self.spec_validity(), values.elems()),
            list.spec_offsets() == self.spec_offsets(),
            list.spec_validity() == self.spec_validity(),
            list.spec_values() == values,
    {
        ListArray { offsets: self.offsets, values, validity: self.validity }
    }
}

} // verus!
