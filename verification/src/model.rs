//! The mathematical model of repeat-by: what the result is, as sequences.
use vstd::prelude::*;
use crate::error::RepeatByError;

verus! {

/// The integer type of a repeat count.
pub type IdxSize = u32;

/// The greatest length that a buffer of the result may have: offsets are
/// `i64`, and a buffer is indexed by `usize`.
pub open spec fn max_buffer_len() -> nat {
    if usize::MAX <= i64::MAX {
        usize::MAX as nat
    } else {
        i64::MAX as nat
    }
}

/// The number of copies that a count asks for; an absent count asks for none.
pub open spec fn count_of(count: Option<IdxSize>) -> nat {
    match count {
        Some(c) => c as nat,
        None => 0,
    }
}

/// The sum of the present counts.
pub open spec fn total_count(counts: Seq<Option<IdxSize>>) -> nat
    decreases counts.len(),
{
    if counts.len() == 0 {
        0
    } else {
        total_count(counts.drop_last()) + count_of(counts.last())
    }
}

/// The sum over all positions of the count times the size at that position:
/// how much of the flat buffer the copies take, where one copy of the value
/// at position `i` takes `sizes[i]`.
pub open spec fn total_size(counts: Seq<Option<IdxSize>>, sizes: Seq<nat>) -> nat
    decreases counts.len(),
{
    if counts.len() == 0 {
        0
    } else {
        total_size(counts.drop_last(), sizes) + count_of(counts.last()) * sizes[counts.len() - 1]
    }
}

/// Whether a count column of length `m` can be paired with a value column of
/// length `n`: position by position, or as one count for all positions.
pub open spec fn lengths_agree(n: nat, m: nat) -> bool {
    m == n || m == 1
}

/// The counts as they are paired with `n` values: a single count is repeated
/// for every position, counts of the right length are taken as they are.
pub open spec fn aligned_counts(counts: Seq<Option<IdxSize>>, n: nat) -> Seq<Option<IdxSize>> {
    if counts.len() == n {
        counts
    } else {
        Seq::new(n, |i: int| counts[0])
    }
}

/// As many copies of `value` as `count` asks for, one after another.
pub open spec fn copies<V>(value: Option<V>, count: Option<IdxSize>) -> Seq<Option<V>> {
    Seq::new(count_of(count), |j: int| value)
}

/// One sublist of the result: absent for an absent count, else `count` copies
/// of `value`, which may itself be absent.
pub open spec fn repeat_value<V>(value: Option<V>, count: Option<IdxSize>) -> Option<Seq<Option<V>>> {
    match count {
        Some(c) => Some(copies(value, count)),
        None => None,
    }
}

/// The copies of all positions one after another: the elements of the child
/// array of the result.
pub open spec fn flatten<V>(values: Seq<Option<V>>, counts: Seq<Option<IdxSize>>) -> Seq<Option<V>>
    decreases counts.len(),
{
    if counts.len() == 0 {
        Seq::empty()
    } else {
        flatten(values, counts.drop_last()) + copies(values[counts.len() - 1], counts.last())
    }
}

/// The list column that pairs `values` and `counts` position by position.
pub open spec fn expand<V>(values: Seq<Option<V>>, counts: Seq<Option<IdxSize>>) -> Seq<
    Option<Seq<Option<V>>>,
> {
    Seq::new(values.len(), |i: int| repeat_value(values[i], counts[i]))
}

/// The number of elements in all present sublists together.
pub open spec fn total_len<V>(list: Seq<Option<Seq<Option<V>>>>) -> nat
    decreases list.len(),
{
    if list.len() == 0 {
        0
    } else {
        total_len(list.drop_last()) + match list.last() {
            Some(sublist) => sublist.len(),
            None => 0,
        }
    }
}

/// What repeat-by returns for `values` and `counts`, where one copy of the
/// value at position `i` takes `sizes[i]` of the flat buffer that holds the
/// copies.
///
/// Lengths that do not agree are refused first. Then the counts are aligned,
/// and the result is refused if the child array would hold more elements, or
/// its flat buffer more than `max_buffer_len()`. Otherwise the result is the
/// expansion of the values by the aligned counts.
pub open spec fn repeat_by_spec<V>(
    values: Seq<Option<V>>,
    counts: Seq<Option<IdxSize>>,
    sizes: Seq<nat>,
) -> Result<Seq<Option<Seq<Option<V>>>>, RepeatByError> {
    if !lengths_agree(values.len(), counts.len()) {
        Err(RepeatByError::LengthMismatch)
    } else {
        let by = aligned_counts(counts, values.len());
        if total_count(by) > max_buffer_len() || total_size(by, sizes) > max_buffer_len() {
            Err(RepeatByError::CapacityOverflow)
        } else {
            Ok(expand(values, by))
        }
    }
}

/// The sizes of byte strings: each copy takes as many bytes as the value
/// has, and a copy of an absent value takes none.
pub open spec fn blob_sizes(items: Seq<Option<Seq<u8>>>) -> Seq<nat> {
    Seq::new(
        items.len(),
        |i: int|
            match items[i] {
                Some(bytes) => bytes.len(),
                None => 0,
            },
    )
}

/// The sizes of `n` fixed-width values: each copy takes one slot.
pub open spec fn unit_sizes(n: nat) -> Seq<nat> {
    Seq::new(n, |i: int| 1nat)
}

/// Where every copy takes one slot, the copies take as many slots as the
/// counts add up to.
pub proof fn lemma_unit_size(counts: Seq<Option<IdxSize>>, sizes: Seq<nat>)
    requires
        forall|i: int| 0 <= i < counts.len() ==> sizes[i] == 1,
    ensures
        total_size(counts, sizes) == total_count(counts),
    decreases counts.len(),
{
    if counts.len() > 0 {
        lemma_unit_size(counts.drop_last(), sizes);
    }
}

/// The total of a prefix, extended by one position.
pub proof fn lemma_total_count_take(counts: Seq<Option<IdxSize>>, i: int)
    requires
        0 <= i < counts.len(),
    ensures
        total_count(counts.take(i + 1)) == total_count(counts.take(i)) + count_of(counts[i]),
{
    assert(counts.take(i + 1).drop_last() =~= counts.take(i));
}

/// The total of a prefix is no more than the total of the whole.
pub proof fn lemma_total_count_monotone(counts: Seq<Option<IdxSize>>, i: int)
    requires
        0 <= i <= counts.len(),
    ensures
        total_count(counts.take(i)) <= total_count(counts),
    decreases counts.len() - i,
{
    if i == counts.len() {
        assert(counts.take(i) =~= counts);
    } else {
        lemma_total_count_take(counts, i);
        lemma_total_count_monotone(counts, i + 1);
    }
}

/// The copies of a prefix, extended by one position.
pub proof fn lemma_flatten_take<V>(values: Seq<Option<V>>, counts: Seq<Option<IdxSize>>, i: int)
    requires
        0 <= i < counts.len(),
    ensures
        flatten(values, counts.take(i + 1)) == flatten(values, counts.take(i)) + copies(
            values[i],
            counts[i],
        ),
{
    assert(counts.take(i + 1).drop_last() =~= counts.take(i));
}

/// The child array has as many elements as the counts add up to.
pub proof fn lemma_flatten_len<V>(values: Seq<Option<V>>, counts: Seq<Option<IdxSize>>)
    ensures
        flatten(values, counts).len() == total_count(counts),
    decreases counts.len(),
{
    if counts.len() > 0 {
        lemma_flatten_len(values, counts.drop_last());
    }
}

/// The copies of the first `i` positions are the first elements of the
/// copies of all positions.
pub proof fn lemma_flatten_prefix<V>(values: Seq<Option<V>>, counts: Seq<Option<IdxSize>>, i: int)
    requires
        0 <= i <= counts.len(),
    ensures
        total_count(counts.take(i)) <= total_count(counts),
        flatten(values, counts.take(i)) == flatten(values, counts).take(
            total_count(counts.take(i)) as int,
        ),
    decreases counts.len() - i,
{
    lemma_flatten_len(values, counts);
    lemma_total_count_monotone(counts, i);
    if i == counts.len() {
        assert(counts.take(i) =~= counts);
        assert(flatten(values, counts).take(total_count(counts) as int) =~= flatten(
            values,
            counts,
        ));
    } else {
        lemma_flatten_prefix(values, counts, i + 1);
        lemma_flatten_take(values, counts, i);
        lemma_total_count_take(counts, i);
        lemma_flatten_len(values, counts.take(i));
    }
}

/// In the child array, the copies of position `i` lie between the total of
/// the counts before `i` and the total of the counts up to `i`.
pub proof fn lemma_flatten_slot<V>(values: Seq<Option<V>>, counts: Seq<Option<IdxSize>>, i: int)
    requires
        0 <= i < counts.len(),
    ensures
        total_count(counts.take(i)) + count_of(counts[i]) == total_count(counts.take(i + 1)),
        total_count(counts.take(i + 1)) <= flatten(values, counts).len(),
        flatten(values, counts).subrange(
            total_count(counts.take(i)) as int,
            total_count(counts.take(i + 1)) as int,
        ) == copies(values[i], counts[i]),
{
    lemma_flatten_prefix(values, counts, i);
    lemma_flatten_prefix(values, counts, i + 1);
    lemma_flatten_take(values, counts, i);
    lemma_total_count_take(counts, i);
    lemma_flatten_len(values, counts);
    lemma_flatten_len(values, counts.take(i));
    let whole = flatten(values, counts);
    let start = total_count(counts.take(i)) as int;
    let end = total_count(counts.take(i + 1)) as int;
    assert(whole.take(end).subrange(start, end) =~= copies(values[i], counts[i]));
}

/// What holds of every value holds of every copy.
pub proof fn lemma_flatten_all<V>(
    values: Seq<Option<V>>,
    counts: Seq<Option<IdxSize>>,
    holds: spec_fn(Option<V>) -> bool,
)
    requires
        counts.len() <= values.len(),
        forall|i: int| 0 <= i < values.len() ==> holds(#[trigger] values[i]),
    ensures
        forall|j: int|
            0 <= j < flatten(values, counts).len() ==> holds(#[trigger] flatten(values, counts)[j]),
    decreases counts.len(),
{
    if counts.len() > 0 {
        lemma_flatten_all(values, counts.drop_last(), holds);
        let shorter = flatten(values, counts.drop_last());
        assert forall|j: int| 0 <= j < flatten(values, counts).len() implies holds(
            #[trigger] flatten(values, counts)[j],
        ) by {
            if j >= shorter.len() {
                assert(holds(values[counts.len() - 1]));
            }
        }
    }
}

/// Copies of changed values are the changed copies of the values.
pub proof fn lemma_flatten_map<V, W>(
    values: Seq<Option<V>>,
    counts: Seq<Option<IdxSize>>,
    change: spec_fn(Option<V>) -> Option<W>,
)
    requires
        counts.len() <= values.len(),
    ensures
        flatten(values.map_values(change), counts) == flatten(values, counts).map_values(change),
    decreases counts.len(),
{
    if counts.len() > 0 {
        lemma_flatten_map(values, counts.drop_last(), change);
        let last = counts.len() - 1;
        assert(copies(values.map_values(change)[last], counts.last()) =~= copies(
            values[last],
            counts.last(),
        ).map_values(change));
    }
    assert(flatten(values.map_values(change), counts) =~= flatten(values, counts).map_values(
        change,
    ));
}

/// The size of a prefix, extended by one position.
pub proof fn lemma_total_size_take(counts: Seq<Option<IdxSize>>, sizes: Seq<nat>, i: int)
    requires
        0 <= i < counts.len(),
    ensures
        total_size(counts.take(i + 1), sizes) == total_size(counts.take(i), sizes) + count_of(
            counts[i],
        ) * sizes[i],
{
    assert(counts.take(i + 1).drop_last() =~= counts.take(i));
}

/// The size of a prefix is no more than the size of the whole.
pub proof fn lemma_total_size_monotone(counts: Seq<Option<IdxSize>>, sizes: Seq<nat>, i: int)
    requires
        0 <= i <= counts.len(),
    ensures
        total_size(counts.take(i), sizes) <= total_size(counts, sizes),
    decreases counts.len() - i,
{
    if i == counts.len() {
        assert(counts.take(i) =~= counts);
    } else {
        lemma_total_size_take(counts, sizes, i);
        assert(count_of(counts[i]) * sizes[i] >= 0) by (nonlinear_arith)
            requires
                count_of(counts[i]) >= 0,
                sizes[i] >= 0,
        ;
        lemma_total_size_monotone(counts, sizes, i + 1);
    }
}

} // verus!
