//! What vectors of strings and of byte strings hold, as sequences of
//! sequences.

use vstd::prelude::*;

verus! {

/// The characters of each string of `strings`, in order.
pub open spec fn texts(strings: Seq<String>) -> Seq<Seq<char>> {
    Seq::new(strings.len(), |i: int| strings[i]@)
}

/// The bytes of each vector of `vectors`, in order.
pub open spec fn byte_strings(vectors: Seq<Vec<u8>>) -> Seq<Seq<u8>> {
    Seq::new(vectors.len(), |i: int| vectors[i]@)
}

} // verus!
