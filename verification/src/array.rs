//! What all arrays share: the elements that an array stands for, and how
//! buffers are read as elements.
use vstd::prelude::*;
use crate::model::max_buffer_len;

verus! {

/// An array: a nullable sequence of items, however it is laid out.
pub trait Array: Sized {
    /// The mathematical value of one present element.
    type Item;

    /// One present element as an owned value.
    type Owned;

    /// The elements, in order; `None` is an absent element.
    spec fn elems(&self) -> Seq<Option<Self::Item>>;

    /// The mathematical value of an owned element.
    spec fn item_of(owned: Self::Owned) -> Self::Item;

    /// A copy of the element at position `i`, or `None` past the end. The
    /// inner `None` is an absent element.
    fn value(&self, i: usize) -> (elem: Option<Option<Self::Owned>>)
        ensures
            i >= self.elems().len() ==> elem is None,
            i < self.elems().len() ==> match elem {
                Some(Some(owned)) => self.elems()[i as int] == Some(Self::item_of(owned)),
                Some(None) => self.elems()[i as int] is None,
                None => false,
            },
    ;
}

/// An array under construction that takes values of type `V`: what
/// repeat-by asks of the buffers of one kind of array.
pub(crate) trait MutableArray<V>: Sized {
    /// The mathematical value of one present element.
    type Item;

    /// Whether the buffers fit together.
    spec fn wf(&self) -> bool;

    /// The elements appended so far.
    spec fn elems(&self) -> Seq<Option<Self::Item>>;

    /// How much of the flat buffer the elements take so far.
    spec fn used(&self) -> nat;

    /// The element that a value becomes.
    spec fn item_of(value: Option<V>) -> Option<Self::Item>;

    /// How much of the flat buffer a value takes.
    spec fn size_of(value: Option<V>) -> nat;

    /// Appends one element. There must be room for one more element, and
    /// for what it takes of the flat buffer.
    fn append(&mut self, value: Option<V>)
        requires
            old(self).wf(),
            old(self).elems().len() < max_buffer_len(),
            old(self).used() + Self::size_of(value) <= max_buffer_len(),
        ensures
            final(self).wf(),
            final(self).elems() == old(self).elems().push(Self::item_of(value)),
            final(self).used() == old(self).used() + Self::size_of(value),
    ;
}

/// The mathematical value of an owned element that may be absent.
pub open spec fn owned_elem<A: Array>(elem: Option<A::Owned>) -> Option<A::Item> {
    match elem {
        Some(owned) => Some(A::item_of(owned)),
        None => None,
    }
}

/// The mathematical values of owned elements.
pub open spec fn owned_elems<A: Array>(elems: Seq<Option<A::Owned>>) -> Seq<Option<A::Item>> {
    Seq::new(elems.len(), |i: int| owned_elem::<A>(elems[i]))
}

/// The mathematical values of owned sublists.
pub open spec fn owned_lists<A: Array>(lists: Seq<Option<Vec<Option<A::Owned>>>>) -> Seq<
    Option<Seq<Option<A::Item>>>,
> {
    Seq::new(
        lists.len(),
        |i: int|
            match lists[i] {
                Some(sublist) => Some(owned_elems::<A>(sublist@)),
                None => None,
            },
    )
}

/// A values buffer read under a validity buffer: slot `i` holds `values[i]`
/// where `validity[i]` is set, and is absent where it is not.
pub open spec fn masked<V>(validity: Seq<bool>, values: Seq<V>) -> Seq<Option<V>> {
    Seq::new(
        validity.len(),
        |i: int|
            if validity[i] {
                Some(values[i])
            } else {
                None
            },
    )
}

/// Whether `offsets` cut a flat buffer of `len` elements into consecutive
/// slots: they start at zero, never decrease, and end at `len`.
pub open spec fn offsets_cut(offsets: Seq<i64>, len: nat) -> bool {
    &&& offsets.len() >= 1
    &&& offsets[0] == 0
    &&& forall|i: int, j: int| 0 <= i <= j < offsets.len() ==> offsets[i] <= offsets[j]
    &&& offsets.last() == len
}

/// Whether every slot that `validity` marks as absent is empty: its two
/// offsets are the same.
pub open spec fn absent_are_empty(offsets: Seq<i64>, validity: Seq<bool>) -> bool {
    forall|i: int| 0 <= i < validity.len() && !validity[i] ==> offsets[i] == #[trigger] offsets[i + 1]
}

/// A flat buffer read under offsets and a validity buffer: slot `i` holds
/// the elements from `offsets[i]` up to `offsets[i + 1]` where `validity[i]`
/// is set, and is absent where it is not.
pub open spec fn slices<E>(offsets: Seq<i64>, validity: Seq<bool>, flat: Seq<E>) -> Seq<
    Option<Seq<E>>,
> {
    Seq::new(
        validity.len(),
        |i: int|
            if validity[i] {
                Some(flat.subrange(offsets[i] as int, offsets[i + 1] as int))
            } else {
                None
            },
    )
}

} // verus!
