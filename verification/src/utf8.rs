//! Arrays of text: a binary array whose present elements are UTF-8.
use vstd::prelude::*;
use vstd::string::StringSliceAdditionalSpecFns;
use vstd::utf8::{
    decode_utf8, encode_utf8, encode_utf8_decode_utf8, encode_utf8_valid_utf8, valid_utf8,
};
use arrow2::bitmap::MutableBitmap;
use crate::array::{Array, offsets_cut, slices};
use crate::binary::BinaryArray;
use crate::bitmap::bitmap_bits;

verus! {

/// Whether every present element is valid UTF-8.
pub open spec fn all_utf8(elems: Seq<Option<Seq<u8>>>) -> bool {
    forall|i: int|
        0 <= i < elems.len() ==> (#[trigger] elems[i] matches Some(bytes) ==> valid_utf8(bytes))
}

/// The bytes between offset `i` and the one after it.
pub open spec fn slot(offsets: Seq<i64>, values: Seq<u8>, i: int) -> Seq<u8> {
    values.subrange(offsets[i] as int, offsets[i + 1] as int)
}

/// Whether the bytes between every two consecutive offsets are valid UTF-8,
/// be the slot present or absent.
pub open spec fn slots_are_utf8(offsets: Seq<i64>, values: Seq<u8>) -> bool {
    forall|i: int| 0 <= i < offsets.len() - 1 ==> valid_utf8(#[trigger] slot(offsets, values, i))
}

/// The characters that an element of UTF-8 bytes stands for.
pub open spec fn decode_elem(elem: Option<Seq<u8>>) -> Option<Seq<char>> {
    match elem {
        Some(bytes) => Some(decode_utf8(bytes)),
        None => None,
    }
}

/// The UTF-8 bytes of an element of text.
pub open spec fn encode_elem(elem: Option<Seq<char>>) -> Option<Seq<u8>> {
    match elem {
        Some(chars) => Some(encode_utf8(chars)),
        None => None,
    }
}

/// Elements of UTF-8 bytes, read as text.
pub open spec fn decoded(elems: Seq<Option<Seq<u8>>>) -> Seq<Option<Seq<char>>> {
    elems.map_values(|elem: Option<Seq<u8>>| decode_elem(elem))
}

/// Elements of text, written as UTF-8 bytes.
pub open spec fn encoded(elems: Seq<Option<Seq<char>>>) -> Seq<Option<Seq<u8>>> {
    elems.map_values(|elem: Option<Seq<char>>| encode_elem(elem))
}

/// The sizes of texts: each copy takes as many bytes as the UTF-8 form of
/// the text has, and a copy of an absent text takes none.
pub open spec fn text_sizes(items: Seq<Option<Seq<char>>>) -> Seq<nat> {
    Seq::new(
        items.len(),
        |i: int|
            match items[i] {
                Some(chars) => encode_utf8(chars).len(),
                None => 0,
            },
    )
}

/// Text that is written as UTF-8 and read back is the same text, and what
/// was written is valid UTF-8.
pub proof fn lemma_encoded_decoded(elems: Seq<Option<Seq<char>>>)
    ensures
        all_utf8(encoded(elems)),
        decoded(encoded(elems)) == elems,
{
    assert forall|i: int| 0 <= i < elems.len() implies (#[trigger] encoded(elems)[i] matches Some(
        bytes,
    ) ==> valid_utf8(bytes)) && decoded(encoded(elems))[i] == elems[i] by {
        if let Some(chars) = elems[i] {
            encode_utf8_valid_utf8(chars);
            encode_utf8_decode_utf8(chars);
        }
    }
}

/// `core::str::from_utf8`: the text that `bytes` encode. The standard
/// library documents that it succeeds exactly on UTF-8, and that the text
/// it returns is made of the very bytes it was given.
#[verifier::external_body]
fn str_from_utf8(bytes: &[u8]) -> (text: Option<&str>)
    ensures
        text is Some <==> valid_utf8(bytes@),
        text matches Some(s) ==> s.spec_bytes() == bytes@,
{
    core::str::from_utf8(bytes).ok()
}

/// A nullable array of text, stored as UTF-8.
pub struct Utf8Array {
    bytes: BinaryArray,
}

impl Utf8Array {
    #[verifier::type_invariant]
    spec fn holds_utf8(self) -> bool {
        all_utf8(self.bytes.elems())
    }

    /// The binary array that holds the encoded text.
    pub closed spec fn spec_bytes(&self) -> BinaryArray {
        self.bytes
    }

    /// The text array over `bytes`, whose present elements are UTF-8.
    pub(crate) fn from_binary(bytes: BinaryArray) -> (array: Self)
        requires
            all_utf8(bytes.elems()),
        ensures
            array.spec_bytes() == bytes,
            array.elems() == decoded(bytes.elems()),
    {
        Utf8Array { bytes }
    }

    /// The number of elements, absent ones included.
    pub fn len(&self) -> (n: usize)
        ensures
            n == self.elems().len(),
    {
        self.bytes.len()
    }

    /// The binary array that holds the encoded text. Its present elements
    /// are UTF-8.
    pub fn bytes(&self) -> (bytes: &BinaryArray)
        ensures
            *bytes == self.spec_bytes(),
            all_utf8(bytes.elems()),
            self.elems() == decoded(bytes.elems()),
    {
        proof {
            use_type_invariant(self);
        }
        &self.bytes
    }

    /// The offsets buffer, the flat buffer of all bytes and the validity
    /// buffer. Every slot of the bytes is valid UTF-8.
    pub fn into_parts(self) -> (parts: (Vec<i64>, Vec<u8>, MutableBitmap))
        ensures
            parts.0@ == self.spec_bytes().spec_offsets(),
            parts.1@ == self.spec_bytes().spec_values(),
            bitmap_bits(parts.2) == self.spec_bytes().spec_validity(),
            offsets_cut(parts.0@, parts.1@.len()),
            bitmap_bits(parts.2).len() + 1 == parts.0@.len(),
            slots_are_utf8(parts.0@, parts.1@),
            self.elems() == decoded(slices(parts.0@, bitmap_bits(parts.2), parts.1@)),
    {
        proof {
            use_type_invariant(&self);
        }
        let ghost elems = self.bytes.elems();
        let parts = self.bytes.into_parts();
        proof {
            assert forall|i: int| 0 <= i < parts.0@.len() - 1 implies valid_utf8(
                #[trigger] slot(parts.0@, parts.1@, i),
            ) by {
                if bitmap_bits(parts.2)[i] {
                    assert(elems[i] == Some(slot(parts.0@, parts.1@, i)));
                } else {
                    assert(parts.0@[i] == parts.0@[i + 1]);
                    assert(slot(parts.0@, parts.1@, i).len() == 0);
                }
            }
        }
        parts
    }

    /// The element at position `i`, or `None` past the end. The inner
    /// `None` is an absent element.
    pub fn get(&self, i: usize) -> (elem: Option<Option<&str>>)
        ensures
            i >= self.elems().len() ==> elem is None,
            i < self.elems().len() ==> match elem {
                Some(Some(text)) => self.elems()[i as int] == Some(text@),
                Some(None) => self.elems()[i as int] is None,
                None => false,
            },
    {
        proof {
            use_type_invariant(self);
        }
        match self.bytes.get(i) {
            None => None,
            Some(None) => Some(None),
            Some(Some(bytes)) => {
                let text = str_from_utf8(bytes);
                proof {
                    if let Some(s) = text {
                        encode_utf8_decode_utf8(s@);
                    }
                }
                Some(text)
            },
        }
    }
}

impl Array for Utf8Array {
    type Item = Seq<char>;

    type Owned = String;

    closed spec fn elems(&self) -> Seq<Option<Seq<char>>> {
        decoded(self.bytes.elems())
    }

    open spec fn item_of(owned: String) -> Seq<char> {
        owned@
    }

    fn value(&self, i: usize) -> (elem: Option<Option<String>>) {
        match self.get(i) {
            None => None,
            Some(None) => Some(None),
            Some(Some(text)) => Some(Some(text.to_owned())),
        }
    }
}

} // verus!
