//! The bytes handed to the GPU for a mesh's index buffer.
use vstd::prelude::*;

verus! {

/// The value of the four bytes at `4 * k` read least significant first.
pub open spec fn word_le(bytes: Seq<u8>, k: int) -> int {
    bytes[4 * k] + 256 * bytes[4 * k + 1] + 65536 * bytes[4 * k + 2] + 16777216 * bytes[4 * k + 3]
}

/// The value of the four bytes at `4 * k` read most significant first.
pub open spec fn word_be(bytes: Seq<u8>, k: int) -> int {
    bytes[4 * k + 3] + 256 * bytes[4 * k + 2] + 65536 * bytes[4 * k + 1] + 16777216 * bytes[4 * k]
}

/// Whether `bytes` is `words`, four bytes each, in one byte order or the
/// other, the same order for every word.
pub open spec fn words_as_bytes(words: Seq<u32>, bytes: Seq<u8>) -> bool {
    &&& bytes.len() == 4 * words.len()
    &&& {
        ||| forall|k: int| 0 <= k < words.len() ==> #[trigger] word_le(bytes, k) == words[k]
        ||| forall|k: int| 0 <= k < words.len() ==> #[trigger] word_be(bytes, k) == words[k]
    }
}

/// Calls `bytemuck::cast_slice::<u32, u8>` and copies the result: the
/// memory of the indices seen as bytes, four per index. The contract claims
/// the length and that each index is stored whole in its four bytes, in the
/// machine's byte order; which of the two orders that is depends on the
/// machine and is not stated.
#[verifier::external_body]
fn index_bytes(indices: &[u32]) -> (bytes: Vec<u8>)
    ensures
        words_as_bytes(indices@, bytes@),
{
    bytemuck::cast_slice::<u32, u8>(indices).to_vec()
}

/// The contents of a GPU index buffer and the index count to draw with.
pub struct IndexBuffer {
    pub bytes: Vec<u8>,
    pub count: u32,
}

/// The index buffer of a mesh: its indices as bytes, and their number as a
/// `u32` (taken modulo 2^32, as the draw call receives it).
pub fn index_buffer(indices: &Vec<u32>) -> (buffer: IndexBuffer)
    ensures
        words_as_bytes(indices@, buffer.bytes@),
        buffer.count == indices@.len() as u32,
{
    let bytes = index_bytes(indices.as_slice());
    IndexBuffer { bytes, count: indices.len() as u32 }
}

} // verus!
