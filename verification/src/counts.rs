//! The counts before anything is built: broadcasting a single count, and
//! adding the counts up without overflow.
use vstd::prelude::*;
use crate::model::{
    IdxSize, blob_sizes, lemma_total_count_monotone, lemma_total_count_take,
    lemma_total_size_monotone, lemma_total_size_take, max_buffer_len, total_count, total_size,
};

verus! {

/// The greatest buffer length, as a machine integer.
pub fn buffer_limit() -> (limit: u64)
    ensures
        limit == max_buffer_len(),
{
    let addressable: u64 = usize::MAX as u64;
    let offset_max: u64 = i64::MAX as u64;
    if addressable <= offset_max {
        addressable
    } else {
        offset_max
    }
}

/// One count for each of `n` positions: the broadcast of a single count.
pub fn broadcast_count(count: Option<IdxSize>, n: usize) -> (by: Vec<Option<IdxSize>>)
    ensures
        by@ == Seq::new(n as nat, |i: int| count),
{
    let mut by: Vec<Option<IdxSize>> = Vec::with_capacity(n);
    let mut i: usize = 0;
    while i < n
        invariant
            i <= n,
            by@ == Seq::new(i as nat, |k: int| count),
        decreases n - i,
    {
        by.push(count);
        i += 1;
    }
    by
}

/// The sum of the present counts, or `None` if it is more than a buffer can
/// hold.
pub fn checked_total_count(counts: &Vec<Option<IdxSize>>) -> (total: Option<usize>)
    ensures
        match total {
            Some(t) => t == total_count(counts@) && t <= max_buffer_len(),
            None => total_count(counts@) > max_buffer_len(),
        },
{
    let limit: u64 = buffer_limit();
    let n: usize = counts.len();
    let mut total: u64 = 0;
    let mut i: usize = 0;
    while i < n
        invariant
            n == counts@.len(),
            i <= n,
            limit == max_buffer_len(),
            total == total_count(counts@.take(i as int)),
            total <= limit,
        decreases n - i,
    {
        let step: u64 = match counts[i] {
            Some(c) => c as u64,
            None => 0,
        };
        proof {
            lemma_total_count_take(counts@, i as int);
        }
        total = total + step;
        if total > limit {
            proof {
                lemma_total_count_monotone(counts@, i + 1);
            }
            return None;
        }
        i += 1;
    }
    assert(counts@.take(n as int) =~= counts@);
    Some(total as usize)
}

/// Borrowed byte strings as sequences of bytes.
pub open spec fn byte_items(values: Seq<Option<&[u8]>>) -> Seq<Option<Seq<u8>>> {
    Seq::new(
        values.len(),
        |i: int|
            match values[i] {
                Some(bytes) => Some(bytes@),
                None => None,
            },
    )
}

/// The number of bytes that all copies take together, or `None` if it is
/// more than a buffer can hold.
pub(crate) fn checked_total_size(counts: &Vec<Option<IdxSize>>, values: &Vec<Option<&[u8]>>) -> (total:
    Option<usize>)
    requires
        counts@.len() == values@.len(),
    ensures
        match total {
            Some(t) => t == total_size(counts@, blob_sizes(byte_items(values@))) && t
                <= max_buffer_len(),
            None => total_size(counts@, blob_sizes(byte_items(values@))) > max_buffer_len(),
        },
{
    let ghost sizes = blob_sizes(byte_items(values@));
    let limit: u128 = buffer_limit() as u128;
    let n: usize = counts.len();
    let mut total: u128 = 0;
    let mut i: usize = 0;
    while i < n
        invariant
            n == counts@.len(),
            n == values@.len(),
            sizes == blob_sizes(byte_items(values@)),
            i <= n,
            limit == max_buffer_len(),
            total == total_size(counts@.take(i as int), sizes),
            total <= limit,
        decreases n - i,
    {
        let count: u128 = match counts[i] {
            Some(c) => c as u128,
            None => 0,
        };
        let size: u128 = match values[i] {
            Some(bytes) => bytes.len() as u128,
            None => 0,
        };
        proof {
            lemma_total_size_take(counts@, sizes, i as int);
            assert(count * size <= 0xffff_ffff * 0xffff_ffff_ffff_ffff) by (nonlinear_arith)
                requires
                    0 <= count <= 0xffff_ffff,
                    0 <= size <= 0xffff_ffff_ffff_ffff,
            ;
        }
        total = total + count * size;
        if total > limit {
            proof {
                lemma_total_size_monotone(counts@, sizes, i + 1);
            }
            return None;
        }
        i += 1;
    }
    assert(counts@.take(n as int) =~= counts@);
    Some(total as usize)
}

} // verus!
