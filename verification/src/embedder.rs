//! What embedders take and return.

use vstd::prelude::*;
use vstd::string::*;
use vstd::utf8::*;

use crate::text::{decimal, to_decimal};

verus! {

/// How a store keeps the vectors of an embedder.
#[derive(Clone, Copy, Debug, PartialEq, Eq, Structural)]
pub enum VectorEncoding {
    /// 32-bit floats.
    Float32,
    /// One bit per dimension, set where the value is not negative.
    Binary,
}

impl Default for VectorEncoding {
    fn default() -> (r: VectorEncoding)
        ensures
            r == VectorEncoding::Float32,
    {
        VectorEncoding::Float32
    }
}

/// One document's chunks, with the document as their context.
#[derive(Clone, Debug, PartialEq, Eq)]
pub struct DocumentChunks {
    pub document_context: String,
    pub chunks: Vec<String>,
}

/// One vector per chunk, in the order of the chunks, as the bits of 32-bit
/// floats.
pub type EmbeddedDocument = Vec<Vec<u32>>;

/// The sum over the first `n` bytes of byte, position and dimension multiplied,
/// with wrap-around.
pub open spec fn byte_sum(bytes: Seq<u8>, n: nat, i: u64) -> u64
    decreases n,
{
    if n == 0 {
        0
    } else {
        byte_sum(bytes, (n - 1) as nat, i).wrapping_add(
            (bytes[n - 1] as u64).wrapping_mul(((n - 1) as u64).wrapping_add(1)).wrapping_mul(
                i.wrapping_add(7),
            ),
        )
    }
}

/// The integer from which dimension `i` of the vector of a text is made.
pub open spec fn mixed(bytes: Seq<u8>, i: u64) -> u64 {
    byte_sum(bytes, bytes.len(), i).wrapping_add(i.wrapping_mul(0x9e3779b97f4a7c15))
}

/// A deterministic embedder for tests.
#[derive(Clone, Debug)]
pub struct FakeEmbedder {
    dim: usize,
    model: String,
}

impl FakeEmbedder {
    /// The number of dimensions.
    pub closed spec fn dims(self) -> usize {
        self.dim
    }

    /// The name of the model.
    pub closed spec fn name(self) -> Seq<char> {
        self.model@
    }

    /// An embedder of `dim` dimensions.
    pub fn new(dim: usize) -> (r: FakeEmbedder)
        ensures
            r.dims() == dim,
            r.name() == "fake-embedder-dim"@ + decimal(dim as int),
    {
        let mut model = "fake-embedder-dim".to_owned();
        let digits = to_decimal(dim as u64);
        model.append(digits.as_str());
        FakeEmbedder { dim, model }
    }

    /// The integer from which dimension `i` of the vector of `text` is made:
    /// position mixed with bytes, with wrap-around.
    pub fn mix(&self, text: &str, i: usize) -> (r: u64)
        ensures
            r == mixed(encode_utf8(text@), i as u64),
    {
        let bytes = text.as_bytes();
        let n: usize = bytes.len();
        let mut sum: u64 = 0;
        let mut j: usize = 0;
        while j < n
            invariant
                0 <= j <= n,
                n == bytes@.len(),
                sum == byte_sum(bytes@, j as nat, i as u64),
            decreases n - j,
        {
            let b: u64 = bytes[j] as u64;
            let term: u64 = b.wrapping_mul((j as u64).wrapping_add(1)).wrapping_mul(
                (i as u64).wrapping_add(7),
            );
            sum = sum.wrapping_add(term);
            j += 1;
        }
        sum.wrapping_add((i as u64).wrapping_mul(0x9e3779b97f4a7c15))
    }

    /// The number of dimensions.
    pub fn embedding_dim(&self) -> (r: usize)
        ensures
            r == self.dims(),
    {
        self.dim
    }

    /// The name of the model.
    pub fn model_id(&self) -> (r: &str)
        ensures
            r@ == self.name(),
    {
        self.model.as_str()
    }
}

/// One more byte adds itself, times its place from 1 on, times the dimension from 7
/// on, with wrap-around; no byte is left out.
pub proof fn law_every_byte_is_mixed_in(bytes: Seq<u8>, b: u8, i: u64)
    requires
        bytes.len() < u64::MAX,
    ensures
        mixed(Seq::empty(), i) == i.wrapping_mul(0x9e3779b97f4a7c15),
        byte_sum(bytes.push(b), bytes.len() + 1, i) == byte_sum(bytes, bytes.len(), i).wrapping_add(
            (b as u64).wrapping_mul((bytes.len() as u64).wrapping_add(1)).wrapping_mul(
                i.wrapping_add(7),
            ),
        ),
        mixed(bytes.push(b), i) == byte_sum(bytes.push(b), bytes.len() + 1, i).wrapping_add(
            i.wrapping_mul(0x9e3779b97f4a7c15),
        ),
{
    lemma_byte_sum_prefix(bytes, bytes.push(b), bytes.len(), i);
}

proof fn lemma_byte_sum_prefix(a: Seq<u8>, b: Seq<u8>, n: nat, i: u64)
    requires
        n <= a.len(),
        n <= b.len(),
        forall|k: int| 0 <= k < n ==> a[k] == b[k],
    ensures
        byte_sum(a, n, i) == byte_sum(b, n, i),
    decreases n,
{
    if n > 0 {
        lemma_byte_sum_prefix(a, b, (n - 1) as nat, i);
    }
}

} // verus!
