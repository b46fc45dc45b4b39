//! Repeat-by itself: the sublists are laid out in one pass over the values
//! and their counts, into buffers whose sizes were computed beforehand.
use vstd::prelude::*;
use vstd::utf8::valid_utf8;
use crate::array::{Array, MutableArray, slices};
use crate::binary::{BinaryArray, MutableBinaryArray};
use crate::chunked::{ChunkedArray, IdxCa, ListChunked, NumericNative, blobs, outcome, texts};
use crate::counts::{broadcast_count, byte_items, checked_total_count, checked_total_size};
use crate::error::RepeatByError;
use crate::list::{ListArray, ListOffsets};
use crate::model::{
    IdxSize, aligned_counts, blob_sizes, copies, expand, flatten, lemma_flatten_all,
    lemma_flatten_len, lemma_flatten_map, lemma_flatten_slot, lemma_flatten_take,
    lemma_total_count_monotone, lemma_total_count_take, lemma_total_size_monotone,
    lemma_total_size_take, lemma_unit_size, max_buffer_len, repeat_by_spec, total_count,
    total_size, unit_sizes,
};
use crate::primitive::{MutablePrimitiveArray, PrimitiveArray};
use crate::utf8::{Utf8Array, decode_elem, encoded, lemma_encoded_decoded, text_sizes};

verus! {

/// Whether `offsets` and `validity` frame the sublists that `counts` ask
/// for: offset `k` is the total of the counts before position `k`, and
/// sublist `k` is valid exactly where count `k` is present.
pub open spec fn frames(offsets: Seq<i64>, validity: Seq<bool>, counts: Seq<Option<IdxSize>>) -> bool {
    &&& offsets.len() == counts.len() + 1
    &&& forall|k: int| 0 <= k <= counts.len() ==> #[trigger] offsets[k] == total_count(counts.take(k))
    &&& validity.len() == counts.len()
    &&& forall|k: int| 0 <= k < counts.len() ==> #[trigger] validity[k] == (counts[k] is Some)
}

/// Whether `list` is the physical form of the expansion of `values` by
/// `counts`: its child array holds the copies of all positions one after
/// another, and nothing else, and its offsets and validity frame the
/// sublists that the counts ask for.
pub open spec fn laid_out<A: Array>(
    list: ListArray<A>,
    values: Seq<Option<A::Item>>,
    counts: Seq<Option<IdxSize>>,
) -> bool {
    &&& list.spec_values().elems() == flatten(values, counts)
    &&& frames(list.spec_offsets(), list.spec_validity(), counts)
}

impl<T: NumericNative> ChunkedArray<T> {
    /// The list column in which each value of this column is repeated as
    /// often as `by` says at its position.
    ///
    /// A `by` of length one gives the count for every position. An absent
    /// count gives an absent sublist; an absent value is repeated like any
    /// other, as absent elements. The result has this column's name.
    pub fn repeat_by(&self, by: &IdxCa) -> (result: Result<
        ListChunked<PrimitiveArray<T>>,
        RepeatByError,
    >)
        ensures
            outcome(result) == repeat_by_spec(self@, by@, unit_sizes(self@.len())),
            result matches Ok(list) ==> {
                &&& laid_out(list.spec_array(), self@, aligned_counts(by@, self@.len()))
                &&& list.spec_name() == self.spec_name()
            },
    {
        repeat_fixed(self.name(), self.values(), by.values())
    }
}

impl ChunkedArray<bool> {
    /// The list column in which each value of this column is repeated as
    /// often as `by` says at its position.
    ///
    /// A `by` of length one gives the count for every position. An absent
    /// count gives an absent sublist; an absent value is repeated like any
    /// other, as absent elements. The result has this column's name.
    pub fn repeat_by(&self, by: &IdxCa) -> (result: Result<
        ListChunked<PrimitiveArray<bool>>,
        RepeatByError,
    >)
        ensures
            outcome(result) == repeat_by_spec(self@, by@, unit_sizes(self@.len())),
            result matches Ok(list) ==> {
                &&& laid_out(list.spec_array(), self@, aligned_counts(by@, self@.len()))
                &&& list.spec_name() == self.spec_name()
            },
    {
        repeat_fixed(self.name(), self.values(), by.values())
    }
}

impl ChunkedArray<String> {
    /// The list column in which each value of this column is repeated as
    /// often as `by` says at its position.
    ///
    /// A `by` of length one gives the count for every position. An absent
    /// count gives an absent sublist; an absent value is repeated like any
    /// other, as absent elements. The result has this column's name. The
    /// text is stored as UTF-8, and it is the bytes that must fit.
    pub fn repeat_by(&self, by: &IdxCa) -> (result: Result<ListChunked<Utf8Array>, RepeatByError>)
        ensures
            outcome(result) == repeat_by_spec(texts(self@), by@, text_sizes(texts(self@))),
            result matches Ok(list) ==> {
                &&& laid_out(list.spec_array(), texts(self@), aligned_counts(by@, self@.len()))
                &&& list.spec_array().spec_values().spec_bytes().spec_values().len() == total_size(
                    aligned_counts(by@, self@.len()),
                    text_sizes(texts(self@)),
                )
                &&& list.spec_name() == self.spec_name()
            },
    {
        let borrowed = borrow_texts(self.values());
        proof {
            assert(blob_sizes(encoded(texts(self@))) =~= text_sizes(texts(self@)));
        }
        match repeat_var(&borrowed, by.values()) {
            Err(e) => Err(e),
            Ok((frame, child)) => {
                proof {
                    let counts = aligned_counts(by@, self@.len());
                    let bytes = encoded(texts(self@));
                    lemma_encoded_decoded(texts(self@));
                    lemma_flatten_all(
                        bytes,
                        counts,
                        |elem: Option<Seq<u8>>| elem matches Some(b) ==> valid_utf8(b),
                    );
                    lemma_flatten_map(bytes, counts, |elem: Option<Seq<u8>>| decode_elem(elem));
                    assert(bytes.map_values(|elem: Option<Seq<u8>>| decode_elem(elem)) =~= texts(
                        self@,
                    ));
                    lemma_flatten_len(bytes, counts);
                    assert(counts.take(counts.len() as int) =~= counts);
                }
                let array = frame.into_list(Utf8Array::from_binary(child));
                proof {
                    lemma_laid_out_view(array, texts(self@), aligned_counts(by@, self@.len()));
                }
                Ok(ListChunked::from_array(self.name(), array))
            },
        }
    }
}

impl ChunkedArray<Vec<u8>> {
    /// The list column in which each value of this column is repeated as
    /// often as `by` says at its position.
    ///
    /// A `by` of length one gives the count for every position. An absent
    /// count gives an absent sublist; an absent value is repeated like any
    /// other, as absent elements. The result has this column's name.
    pub fn repeat_by(&self, by: &IdxCa) -> (result: Result<ListChunked<BinaryArray>, RepeatByError>)
        ensures
            outcome(result) == repeat_by_spec(blobs(self@), by@, blob_sizes(blobs(self@))),
            result matches Ok(list) ==> {
                &&& laid_out(list.spec_array(), blobs(self@), aligned_counts(by@, self@.len()))
                &&& list.spec_array().spec_values().spec_values().len() == total_size(
                    aligned_counts(by@, self@.len()),
                    blob_sizes(blobs(self@)),
                )
                &&& list.spec_name() == self.spec_name()
            },
    {
        let borrowed = borrow_blobs(self.values());
        match repeat_var(&borrowed, by.values()) {
            Err(e) => Err(e),
            Ok((frame, child)) => {
                proof {
                    let counts = aligned_counts(by@, self@.len());
                    lemma_flatten_len(blobs(self@), counts);
                    assert(counts.take(counts.len() as int) =~= counts);
                }
                let array = frame.into_list(child);
                proof {
                    lemma_laid_out_view(array, blobs(self@), aligned_counts(by@, self@.len()));
                }
                Ok(ListChunked::from_array(self.name(), array))
            },
        }
    }
}

/// Repeat-by for a column of fixed-width values, given by its name and its
/// values.
fn repeat_fixed<T: Copy + Default>(
    name: &str,
    values: &Vec<Option<T>>,
    counts: &Vec<Option<IdxSize>>,
) -> (result: Result<ListChunked<PrimitiveArray<T>>, RepeatByError>)
    ensures
        outcome(result) == repeat_by_spec(values@, counts@, unit_sizes(values@.len())),
        result matches Ok(list) ==> {
            &&& laid_out(list.spec_array(), values@, aligned_counts(counts@, values@.len()))
            &&& list.spec_name() == name@
        },
{
    let n: usize = values.len();
    proof {
        lemma_unit_size(aligned_counts(counts@, values@.len()), unit_sizes(values@.len()));
    }
    if counts.len() == n {
        expand_fixed(name, values, counts)
    } else if counts.len() == 1 {
        let by = broadcast_count(counts[0], n);
        expand_fixed(name, values, &by)
    } else {
        Err(RepeatByError::LengthMismatch)
    }
}

/// What is left of repeat-by for a column of fixed-width values once the
/// counts are aligned: they are added up and checked, and the buffers are
/// laid out.
fn expand_fixed<T: Copy + Default>(
    name: &str,
    values: &Vec<Option<T>>,
    by: &Vec<Option<IdxSize>>,
) -> (result: Result<ListChunked<PrimitiveArray<T>>, RepeatByError>)
    requires
        values@.len() == by@.len(),
    ensures
        match result {
            Ok(list) => {
                &&& total_count(by@) <= max_buffer_len()
                &&& list@ == expand(values@, by@)
                &&& laid_out(list.spec_array(), values@, by@)
                &&& list.spec_name() == name@
            },
            Err(e) => e == RepeatByError::CapacityOverflow && total_count(by@) > max_buffer_len(),
        },
{
    proof {
        assert(items_of::<T, MutablePrimitiveArray<T>>(values@) =~= values@);
        lemma_unit_size(by@, sizes_of::<T, MutablePrimitiveArray<T>>(values@));
        lemma_flatten_len(values@, by@);
        assert(by@.take(by@.len() as int) =~= by@);
    }
    match checked_total_count(by) {
        None => Err(RepeatByError::CapacityOverflow),
        Some(total) => {
            let mut child: MutablePrimitiveArray<T> = MutablePrimitiveArray::with_capacity(total);
            let frame = fill(&mut child, values, by);
            let array = frame.into_list(child.finish());
            proof {
                lemma_laid_out_view(array, values@, by@);
            }
            Ok(ListChunked::from_array(name, array))
        },
    }
}

/// Repeat-by for a column of byte strings, given by its values. On success
/// it returns the offsets and validity of the list array, and its child
/// array.
fn repeat_var(values: &Vec<Option<&[u8]>>, counts: &Vec<Option<IdxSize>>) -> (result: Result<
    (ListOffsets, BinaryArray),
    RepeatByError,
>)
    ensures
        match result {
            Ok((frame, child)) => {
                let by = aligned_counts(counts@, values@.len());
                &&& repeat_by_spec(byte_items(values@), counts@, blob_sizes(byte_items(values@)))
                    == Ok::<Seq<Option<Seq<Option<Seq<u8>>>>>, RepeatByError>(
                    expand(byte_items(values@), by),
                )
                &&& by.len() == values@.len()
                &&& frame.wf()
                &&& frames(frame.spec_offsets(), frame.spec_validity(), by)
                &&& child.elems() == flatten(byte_items(values@), by)
                &&& child.spec_values().len() == total_size(by, blob_sizes(byte_items(values@)))
            },
            Err(e) => repeat_by_spec(byte_items(values@), counts@, blob_sizes(byte_items(values@)))
                == Err::<Seq<Option<Seq<Option<Seq<u8>>>>>, RepeatByError>(e),
        },
{
    let n: usize = values.len();
    if counts.len() == n {
        expand_slices(values, counts)
    } else if counts.len() == 1 {
        let by = broadcast_count(counts[0], n);
        expand_slices(values, &by)
    } else {
        Err(RepeatByError::LengthMismatch)
    }
}

/// What is left of repeat-by for a column of byte strings once the counts
/// are aligned: the sizes are added up and checked, and the buffers are
/// laid out.
fn expand_slices(values: &Vec<Option<&[u8]>>, by: &Vec<Option<IdxSize>>) -> (result: Result<
    (ListOffsets, BinaryArray),
    RepeatByError,
>)
    requires
        values@.len() == by@.len(),
    ensures
        match result {
            Ok((frame, child)) => {
                &&& total_count(by@) <= max_buffer_len()
                &&& total_size(by@, blob_sizes(byte_items(values@))) <= max_buffer_len()
                &&& frame.wf()
                &&& frames(frame.spec_offsets(), frame.spec_validity(), by@)
                &&& child.elems() == flatten(byte_items(values@), by@)
                &&& child.spec_values().len() == total_size(by@, blob_sizes(byte_items(values@)))
            },
            Err(e) => {
                &&& e == RepeatByError::CapacityOverflow
                &&& total_count(by@) > max_buffer_len() || total_size(
                    by@,
                    blob_sizes(byte_items(values@)),
                ) > max_buffer_len()
            },
        },
{
    proof {
        assert(items_of::<&[u8], MutableBinaryArray>(values@) =~= byte_items(values@));
        assert(sizes_of::<&[u8], MutableBinaryArray>(values@) =~= blob_sizes(byte_items(values@)));
    }
    match checked_total_count(by) {
        None => Err(RepeatByError::CapacityOverflow),
        Some(total) => match checked_total_size(by, values) {
            None => Err(RepeatByError::CapacityOverflow),
            Some(total_bytes) => {
                let mut child = MutableBinaryArray::with_capacity(total, total_bytes);
                let frame = fill(&mut child, values, by);
                Ok((frame, child.finish()))
            },
        },
    }
}

/// The texts of a column as UTF-8, borrowed.
fn borrow_texts<'a>(values: &'a Vec<Option<String>>) -> (borrowed: Vec<Option<&'a [u8]>>)
    ensures
        byte_items(borrowed@) == encoded(texts(values@)),
{
    let n: usize = values.len();
    let mut borrowed: Vec<Option<&'a [u8]>> = Vec::with_capacity(n);
    let mut i: usize = 0;
    while i < n
        invariant
            n == values@.len(),
            i <= n,
            borrowed@.len() == i,
            byte_items(borrowed@) == encoded(texts(values@)).take(i as int),
        decreases n - i,
    {
        let ghost before = borrowed@;
        let item: Option<&'a [u8]> = match &values[i] {
            Some(text) => Some(text.as_str().as_bytes()),
            None => None,
        };
        borrowed.push(item);
        assert forall|k: int| 0 <= k <= i implies byte_items(borrowed@)[k] == encoded(
            texts(values@),
        )[k] by {
            if k < i {
                assert(byte_items(before)[k] == encoded(texts(values@)).take(i as int)[k]);
            }
        }
        i += 1;
    }
    borrowed
}

/// The byte strings of a column, borrowed.
fn borrow_blobs<'a>(values: &'a Vec<Option<Vec<u8>>>) -> (borrowed: Vec<Option<&'a [u8]>>)
    ensures
        byte_items(borrowed@) == blobs(values@),
{
    let n: usize = values.len();
    let mut borrowed: Vec<Option<&'a [u8]>> = Vec::with_capacity(n);
    let mut i: usize = 0;
    while i < n
        invariant
            n == values@.len(),
            i <= n,
            borrowed@.len() == i,
            byte_items(borrowed@) == blobs(values@).take(i as int),
        decreases n - i,
    {
        let ghost before = borrowed@;
        let item: Option<&'a [u8]> = match &values[i] {
            Some(bytes) => Some(bytes.as_slice()),
            None => None,
        };
        borrowed.push(item);
        assert forall|k: int| 0 <= k <= i implies byte_items(borrowed@)[k] == blobs(values@)[k] by {
            if k < i {
                assert(byte_items(before)[k] == blobs(values@).take(i as int)[k]);
            }
        }
        i += 1;
    }
    borrowed
}

/// The elements that `values` become in an array of kind `B`.
spec fn items_of<V, B: MutableArray<V>>(values: Seq<Option<V>>) -> Seq<Option<B::Item>> {
    values.map_values(|value: Option<V>| B::item_of(value))
}

/// How much of the flat buffer of an array of kind `B` one copy of each of
/// `values` takes.
spec fn sizes_of<V, B: MutableArray<V>>(values: Seq<Option<V>>) -> Seq<nat> {
    values.map_values(|value: Option<V>| B::size_of(value))
}

/// Appends to `child`, for each position, as many copies of the value as
/// its count says, and returns the offsets and validity of the sublists
/// that the copies make up.
///
/// The counts and sizes have been added up beforehand, so that every
/// element is known to fit.
fn fill<V: Copy, B: MutableArray<V>>(
    child: &mut B,
    values: &Vec<Option<V>>,
    by: &Vec<Option<IdxSize>>,
) -> (frame: ListOffsets)
    requires
        old(child).wf(),
        old(child).elems().len() == 0,
        old(child).used() == 0,
        values@.len() == by@.len(),
        total_count(by@) <= max_buffer_len(),
        total_size(by@, sizes_of::<V, B>(values@)) <= max_buffer_len(),
    ensures
        final(child).wf(),
        final(child).elems() == flatten(items_of::<V, B>(values@), by@),
        final(child).used() == total_size(by@, sizes_of::<V, B>(values@)),
        frame.wf(),
        frames(frame.spec_offsets(), frame.spec_validity(), by@),
{
    let ghost items = items_of::<V, B>(values@);
    let ghost sizes = sizes_of::<V, B>(values@);
    let n: usize = values.len();
    let mut frame = ListOffsets::with_capacity(n);
    let mut i: usize = 0;
    while i < n
        invariant
            n == values@.len(),
            n == by@.len(),
            items == items_of::<V, B>(values@),
            sizes == sizes_of::<V, B>(values@),
            total_count(by@) <= max_buffer_len(),
            total_size(by@, sizes) <= max_buffer_len(),
            i <= n,
            frame.wf(),
            child.wf(),
            frame.spec_offsets().len() == i + 1,
            forall|k: int|
                0 <= k <= i ==> #[trigger] frame.spec_offsets()[k] == total_count(by@.take(k)),
            frame.spec_validity().len() == i,
            forall|k: int| 0 <= k < i ==> #[trigger] frame.spec_validity()[k] == (by@[k] is Some),
            child.elems() == flatten(items, by@.take(i as int)),
            child.used() == total_size(by@.take(i as int), sizes),
        decreases n - i,
    {
        proof {
            lemma_total_count_take(by@, i as int);
            lemma_total_count_monotone(by@, i + 1);
            lemma_total_size_take(by@, sizes, i as int);
            lemma_total_size_monotone(by@, sizes, i + 1);
            lemma_flatten_take(items, by@, i as int);
            lemma_flatten_len(items, by@.take(i as int));
        }
        let value: Option<V> = values[i];
        assert(sizes[i as int] == B::size_of(value));
        match by[i] {
            None => {
                frame.push_null();
            },
            Some(count) => {
                let ghost before = child.elems();
                let ghost start = child.used();
                let ghost size = B::size_of(value);
                let mut j: IdxSize = 0;
                while j < count
                    invariant
                        j <= count,
                        child.wf(),
                        child.elems() == before + Seq::new(j as nat, |k: int| B::item_of(value)),
                        child.used() == start + j * size,
                        before.len() + count <= max_buffer_len(),
                        start + count * size <= max_buffer_len(),
                        size == B::size_of(value),
                    decreases count - j,
                {
                    proof {
                        assert((j + 1) * size <= count * size) by (nonlinear_arith)
                            requires
                                j + 1 <= count,
                                size >= 0,
                        ;
                        assert((j + 1) * size == j * size + size) by (nonlinear_arith);
                    }
                    child.append(value);
                    assert(child.elems() =~= before + Seq::new(
                        (j + 1) as nat,
                        |k: int| B::item_of(value),
                    ));
                    j += 1;
                }
                frame.push_valid(count as usize);
            },
        }
        i += 1;
    }
    proof {
        assert(by@.take(n as int) =~= by@);
    }
    frame
}

/// Offsets that are the running totals of the counts cut the copies of all
/// positions into the sublists of the expansion.
pub proof fn lemma_slices_expand<V>(
    values: Seq<Option<V>>,
    counts: Seq<Option<IdxSize>>,
    offsets: Seq<i64>,
    validity: Seq<bool>,
)
    requires
        values.len() == counts.len(),
        frames(offsets, validity, counts),
    ensures
        slices(offsets, validity, flatten(values, counts)) == expand(values, counts),
{
    let flat = flatten(values, counts);
    let cut = slices(offsets, validity, flat);
    let wanted = expand(values, counts);
    assert forall|i: int| 0 <= i < counts.len() implies cut[i] == wanted[i] by {
        lemma_flatten_slot(values, counts, i);
    }
}

/// A list array that is laid out as the expansion of `values` by `counts`
/// has the sublists of that expansion.
pub proof fn lemma_laid_out_view<A: Array>(
    list: ListArray<A>,
    values: Seq<Option<A::Item>>,
    counts: Seq<Option<IdxSize>>,
)
    requires
        values.len() == counts.len(),
        laid_out(list, values, counts),
    ensures
        list@ == expand(values, counts),
{
    list.lemma_view();
    lemma_slices_expand(values, counts, list.spec_offsets(), list.spec_validity());
}

} // verus!
