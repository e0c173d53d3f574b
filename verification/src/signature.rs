//! The signature of nine weights.

use crate::digest::{sha256, sha256_digest};
use crate::hex::{hex_lower, lemma_hex_lower_injective, to_hex_lower};
use crate::vector::DhatuVector;
use vstd::prelude::*;
use vstd::slice::slice_subrange;

verus! {

/// The eight bytes of a pattern, lowest first.
pub open spec fn le_bytes(bits: u64) -> Seq<u8> {
    seq![
        (bits % 0x100) as u8,
        (bits / 0x100 % 0x100) as u8,
        (bits / 0x1_0000 % 0x100) as u8,
        (bits / 0x100_0000 % 0x100) as u8,
        (bits / 0x1_0000_0000 % 0x100) as u8,
        (bits / 0x100_0000_0000 % 0x100) as u8,
        (bits / 0x1_0000_0000_0000 % 0x100) as u8,
        (bits / 0x100_0000_0000_0000 % 0x100) as u8,
    ]
}

/// The weights as bytes: eight for each weight, in order.
pub open spec fn encoding(weights: Seq<u64>) -> Seq<u8> {
    Seq::new(8 * weights.len(), |i: int| le_bytes(weights[i / 8])[i % 8])
}

/// The signature that belongs to a digest: its first eight bytes in
/// lower-case hexadecimal, sixteen characters.
pub open spec fn digest_signature(digest: Seq<u8>) -> Seq<char> {
    hex_lower(digest.take(8))
}

/// The signature of nine weights, from the digest of their encoding.
pub open spec fn signature_of(weights: Seq<u64>) -> Seq<char> {
    digest_signature(sha256_digest(encoding(weights)))
}

/// A pattern is the sum of its bytes, each at its place.
pub proof fn lemma_le_bytes_value(bits: u64)
    ensures
        le_bytes(bits).len() == 8,
        bits == le_bytes(bits)[0] + 0x100 * le_bytes(bits)[1] + 0x1_0000 * le_bytes(bits)[2]
            + 0x100_0000 * le_bytes(bits)[3] + 0x1_0000_0000 * le_bytes(bits)[4]
            + 0x100_0000_0000 * le_bytes(bits)[5] + 0x1_0000_0000_0000 * le_bytes(bits)[6]
            + 0x100_0000_0000_0000 * le_bytes(bits)[7],
{
    assert(bits == (bits % 0x100) + 0x100 * (bits / 0x100 % 0x100) + 0x1_0000 * (bits / 0x1_0000
        % 0x100) + 0x100_0000 * (bits / 0x100_0000 % 0x100) + 0x1_0000_0000 * (bits
        / 0x1_0000_0000 % 0x100) + 0x100_0000_0000 * (bits / 0x100_0000_0000 % 0x100)
        + 0x1_0000_0000_0000 * (bits / 0x1_0000_0000_0000 % 0x100) + 0x100_0000_0000_0000 * (bits
        / 0x100_0000_0000_0000 % 0x100)) by (bit_vector);
}

/// Different weights have different encodings.
pub proof fn lemma_encoding_injective(a: Seq<u64>, b: Seq<u64>)
    ensures
        encoding(a) == encoding(b) <==> a == b,
{
    if encoding(a) == encoding(b) {
        assert(encoding(a).len() == 8 * a.len());
        assert(encoding(b).len() == 8 * b.len());
        assert forall|i: int| 0 <= i < a.len() implies a[i] == b[i] by {
            lemma_le_bytes_value(a[i]);
            lemma_le_bytes_value(b[i]);
            assert forall|j: int| 0 <= j < 8 implies le_bytes(a[i])[j] == le_bytes(b[i])[j] by {
                assert(encoding(a)[8 * i + j] == le_bytes(a[i])[j]);
                assert(encoding(b)[8 * i + j] == le_bytes(b[i])[j]);
            }
        }
        assert(a =~= b);
    }
}

/// Two digests give the same signature exactly if they agree in their first
/// eight bytes.
pub proof fn lemma_digest_signature_injective(a: Seq<u8>, b: Seq<u8>)
    ensures
        digest_signature(a) == digest_signature(b) <==> a.take(8) == b.take(8),
{
    lemma_hex_lower_injective(a.take(8), b.take(8));
}

/// Two vectors have the same signature exactly if they are the same vector,
/// unless they are different vectors whose digests agree in the first eight
/// bytes: such a pair is left out.
pub proof fn lemma_signature_tells_vectors_apart(a: Seq<u64>, b: Seq<u64>)
    requires
        a != b ==> sha256_digest(encoding(a)).take(8) != sha256_digest(encoding(b)).take(8),
    ensures
        signature_of(a) == signature_of(b) <==> a == b,
{
    lemma_digest_signature_injective(sha256_digest(encoding(a)), sha256_digest(encoding(b)));
}

/// The signature that belongs to a digest: its first eight bytes in
/// lower-case hexadecimal.
pub fn signature_of_digest(digest: &[u8; 32]) -> (signature: String)
    ensures
        signature@ == digest_signature(digest@),
        signature@.len() == 16,
{
    to_hex_lower(slice_subrange(digest.as_slice(), 0, 8))
}

impl DhatuVector {
    /// The weights as bytes, eight for each weight with the lowest first.
    pub fn to_le_bytes(&self) -> (bytes: Vec<u8>)
        ensures
            bytes@ == encoding(self.weights@),
    {
        let mut bytes: Vec<u8> = Vec::new();
        let mut i: usize = 0;
        while i < 9
            invariant
                i <= 9,
                bytes@.len() == 8 * i,
                forall|j: int| 0 <= j < 8 * i ==> bytes@[j] == encoding(self.weights@)[j],
            decreases 9 - i,
        {
            let w: u64 = self.weights[i];
            let ghost before = bytes@;
            bytes.push((w % 0x100) as u8);
            bytes.push((w / 0x100 % 0x100) as u8);
            bytes.push((w / 0x1_0000 % 0x100) as u8);
            bytes.push((w / 0x100_0000 % 0x100) as u8);
            bytes.push((w / 0x1_0000_0000 % 0x100) as u8);
            bytes.push((w / 0x100_0000_0000 % 0x100) as u8);
            bytes.push((w / 0x1_0000_0000_0000 % 0x100) as u8);
            bytes.push((w / 0x100_0000_0000_0000 % 0x100) as u8);
            assert(bytes@ =~= before + le_bytes(w));
            i = i + 1;
        }
        assert(bytes@ =~= encoding(self.weights@));
        bytes
    }

    /// The signature: sixteen lower-case hexadecimal characters that depend
    /// on the weights alone.
    pub fn signature(&self) -> (signature: String)
        ensures
            signature@ == signature_of(self.weights@),
            signature@.len() == 16,
    {
        let bytes = self.to_le_bytes();
        let digest = sha256(bytes.as_slice());
        signature_of_digest(&digest)
    }
}

} // verus!
