//! What holds of every repeat-by, proved from the model.
use vstd::prelude::*;
use crate::array::Array;
use crate::error::RepeatByError;
use crate::list::ListArray;
use crate::model::{
    IdxSize, aligned_counts, copies, expand, lemma_flatten_len, max_buffer_len, repeat_by_spec,
    total_count, total_len, total_size,
};
use crate::repeat::laid_out;

verus! {

/// In a result, a present count gives a present sublist with as many
/// elements as the count says, and an absent count gives an absent sublist.
pub proof fn law_sublist_lengths<V>(
    values: Seq<Option<V>>,
    counts: Seq<Option<IdxSize>>,
    sizes: Seq<nat>,
    i: int,
)
    requires
        repeat_by_spec(values, counts, sizes) is Ok,
        0 <= i < values.len(),
    ensures
        repeat_by_spec(values, counts, sizes)->Ok_0.len() == values.len(),
        match aligned_counts(counts, values.len())[i] {
            Some(c) => {
                &&& repeat_by_spec(values, counts, sizes)->Ok_0[i] matches Some(sublist)
                &&& sublist.len() == c
            },
            None => repeat_by_spec(values, counts, sizes)->Ok_0[i] is None,
        },
{
}

/// In a result, every element of a sublist is the value at the sublist's
/// position.
pub proof fn law_sublist_elements<V>(
    values: Seq<Option<V>>,
    counts: Seq<Option<IdxSize>>,
    sizes: Seq<nat>,
    i: int,
    j: int,
)
    requires
        repeat_by_spec(values, counts, sizes) is Ok,
        0 <= i < values.len(),
        repeat_by_spec(values, counts, sizes)->Ok_0[i] matches Some(sublist) && 0 <= j
            < sublist.len(),
    ensures
        repeat_by_spec(values, counts, sizes)->Ok_0[i]->0[j] == values[i],
{
}

/// In a result, an absent value with a present count gives a present
/// sublist that holds as many absent elements as the count says.
pub proof fn law_absent_value<V>(
    values: Seq<Option<V>>,
    counts: Seq<Option<IdxSize>>,
    sizes: Seq<nat>,
    i: int,
)
    requires
        repeat_by_spec(values, counts, sizes) is Ok,
        0 <= i < values.len(),
        values[i] is None,
        aligned_counts(counts, values.len())[i] is Some,
    ensures
        repeat_by_spec(values, counts, sizes)->Ok_0[i] == Some(
            Seq::new(
                aligned_counts(counts, values.len())[i]->0 as nat,
                |j: int| None::<V>,
            ),
        ),
{
}

/// The sublists of an expansion hold, all together, as many elements as the
/// present counts add up to.
pub proof fn lemma_expand_total_len<V>(values: Seq<Option<V>>, counts: Seq<Option<IdxSize>>)
    requires
        values.len() == counts.len(),
    ensures
        total_len(expand(values, counts)) == total_count(counts),
    decreases counts.len(),
{
    if counts.len() > 0 {
        lemma_expand_total_len(values.drop_last(), counts.drop_last());
        assert(expand(values, counts).drop_last() =~= expand(
            values.drop_last(),
            counts.drop_last(),
        ));
    }
}

/// The present sublists of a result hold, all together, as many elements as
/// the present counts add up to.
pub proof fn law_total_len<V>(values: Seq<Option<V>>, counts: Seq<Option<IdxSize>>, sizes: Seq<nat>)
    requires
        repeat_by_spec(values, counts, sizes) is Ok,
    ensures
        total_len(repeat_by_spec(values, counts, sizes)->Ok_0) == total_count(
            aligned_counts(counts, values.len()),
        ),
{
    lemma_expand_total_len(values, aligned_counts(counts, values.len()));
}

/// The child array of a list array that is laid out as an expansion holds
/// exactly as many elements as the present counts add up to.
pub proof fn law_child_len<A: Array>(
    list: ListArray<A>,
    values: Seq<Option<A::Item>>,
    counts: Seq<Option<IdxSize>>,
)
    requires
        laid_out(list, values, counts),
    ensures
        list.spec_values().elems().len() == total_count(counts),
        list.spec_offsets().last() == total_count(counts),
{
    lemma_flatten_len(values, counts);
    assert(counts.take(counts.len() as int) =~= counts);
}

/// Broadcast: one count for all positions gives what the same count given
/// at every position gives.
pub proof fn law_broadcast<V>(values: Seq<Option<V>>, count: Option<IdxSize>, sizes: Seq<nat>)
    ensures
        repeat_by_spec(values, seq![count], sizes) == repeat_by_spec(
            values,
            Seq::new(values.len(), |i: int| count),
            sizes,
        ),
{
    let single = seq![count];
    let full = Seq::new(values.len(), |i: int| count);
    assert(aligned_counts(single, values.len()) =~= full);
}

/// The total of counts that are all one is their number.
pub proof fn lemma_total_count_ones(counts: Seq<Option<IdxSize>>)
    requires
        forall|i: int| 0 <= i < counts.len() ==> counts[i] == Some(1u32),
    ensures
        total_count(counts) == counts.len(),
    decreases counts.len(),
{
    if counts.len() > 0 {
        lemma_total_count_ones(counts.drop_last());
    }
}

/// Identity: where every count is one, every sublist is present and holds
/// the value at its position, and nothing else. The values must be few
/// enough, and small enough together, to fit in the buffers of one array.
pub proof fn law_identity<V>(values: Seq<Option<V>>, sizes: Seq<nat>)
    requires
        values.len() <= max_buffer_len(),
        total_size(Seq::new(values.len(), |i: int| Some(1u32)), sizes) <= max_buffer_len(),
    ensures
        repeat_by_spec(values, Seq::new(values.len(), |i: int| Some(1u32)), sizes) == Ok::<
            Seq<Option<Seq<Option<V>>>>,
            RepeatByError,
        >(Seq::new(values.len(), |i: int| Some(seq![values[i]]))),
{
    let ones = Seq::new(values.len(), |i: int| Some(1u32));
    lemma_total_count_ones(ones);
    let wanted = Seq::new(values.len(), |i: int| Some(seq![values[i]]));
    assert forall|i: int| 0 <= i < values.len() implies expand(values, ones)[i] == wanted[i] by {
        assert(copies(values[i], ones[i]) =~= seq![values[i]]);
    }
    assert(expand(values, ones) =~= wanted);
}

} // verus!
