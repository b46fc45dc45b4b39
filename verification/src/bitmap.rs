//! Validity buffers are `arrow2` bitmaps: one bit per element. What is
//! stated here of `arrow2::bitmap::MutableBitmap` is taken on trust from its
//! source; what the rest of this crate says of validity is proved from it.
use vstd::prelude::*;
use arrow2::bitmap::MutableBitmap;

verus! {

/// `arrow2::bitmap::MutableBitmap`, a growable sequence of bits that is
/// packed eight to a byte.
#[verifier::external_type_specification]
#[verifier::external_body]
pub struct ExMutableBitmap(MutableBitmap);

/// The bits that a bitmap holds, in order. `arrow2` documents the bitmap as
/// semantically equivalent to a `Vec<bool>`; this is that vector.
pub uninterp spec fn bitmap_bits(bitmap: MutableBitmap) -> Seq<bool>;

/// `MutableBitmap::with_capacity` returns a bitmap that holds no bits.
pub assume_specification[ MutableBitmap::with_capacity ](capacity: usize) -> (bitmap: MutableBitmap)
    ensures
        bitmap_bits(bitmap) == Seq::<bool>::empty(),
;

/// `MutableBitmap::push` appends one bit. Its length is a `usize` that the
/// call increases by one, so the bitmap must not be full.
pub assume_specification[ MutableBitmap::push ](bitmap: &mut MutableBitmap, value: bool)
    requires
        bitmap_bits(*old(bitmap)).len() < usize::MAX,
    ensures
        bitmap_bits(*final(bitmap)) == bitmap_bits(*old(bitmap)).push(value),
;

/// `MutableBitmap::len` returns the number of bits.
pub assume_specification[ MutableBitmap::len ](bitmap: &MutableBitmap) -> (n: usize)
    ensures
        n == bitmap_bits(*bitmap).len(),
;

/// `MutableBitmap::get` returns the bit at `index`, which must be one of the
/// bitmap's positions.
pub assume_specification[ MutableBitmap::get ](bitmap: &MutableBitmap, index: usize) -> (bit: bool)
    requires
        index < bitmap_bits(*bitmap).len(),
    ensures
        bit == bitmap_bits(*bitmap)[index as int],
;

} // verus!
