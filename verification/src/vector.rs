//! The nine weights of a piece of content.

use crate::binary64::{
    encodes_nan, lemma_unit_ratio_bits_range, lemma_unit_ratio_near, scaled_value, unit_ratio,
    unit_ratio_bits, ONE,
};
use crate::dhatu::Dhatu;
use crate::digest::{sha256, sha256_digest};
use vstd::arithmetic::power2::pow2;
use vstd::prelude::*;

verus! {

/// Nine weights, one per category in declaration order, each an IEEE-754
/// binary64 bit pattern.
#[derive(Debug, Clone)]
pub struct DhatuVector {
    pub weights: [u64; 9],
}

/// What is hashed for a category: its name, two colons, then the content.
pub open spec fn category_message(dhatu: Dhatu, content: Seq<u8>) -> Seq<u8> {
    dhatu.name_bytes() + seq![0x3au8, 0x3au8] + content
}

/// The raw weight that a 32-byte digest gives: the sum of five of its bytes.
pub open spec fn digest_weight(digest: Seq<u8>) -> u16 {
    (digest[0] + digest[5] + digest[13] + digest[21] + digest[29]) as u16
}

/// The raw weights of a piece of content, one per category.
pub open spec fn raw_weights(content: Seq<u8>) -> Seq<u16> {
    Seq::new(
        9,
        |i: int| digest_weight(sha256_digest(category_message(Dhatu::at(i), content))),
    )
}

/// The sum of nine raw weights.
pub open spec fn total(raw: Seq<u16>) -> nat {
    (raw[0] + raw[1] + raw[2] + raw[3] + raw[4] + raw[5] + raw[6] + raw[7] + raw[8]) as nat
}

/// Nine raw weights, each divided by their sum and rounded to binary64. Where
/// the sum is zero every weight is zero, and stays so.
///
/// A raw weight counts 1024ths. A count of 1024ths and a sum of nine of them
/// are exact in binary64, and an IEEE-754 division returns the number nearest
/// to the true quotient, in which the common scale cancels: so dividing the
/// scaled numbers as floating-point numbers gives these patterns.
pub open spec fn normalized(raw: Seq<u16>) -> Seq<u64> {
    Seq::new(9, |i: int| unit_ratio_bits(raw[i] as nat, total(raw)) as u64)
}

/// Normalized weights encode numbers between 0 and 1, so none is a NaN, and
/// where the raw weights are not all zero each is the pattern of its share.
pub proof fn lemma_normalized_range(raw: Seq<u16>)
    requires
        raw.len() == 9,
    ensures
        normalized(raw).len() == 9,
        forall|i: int|
            0 <= i < 9 ==> (#[trigger] normalized(raw)[i]) == unit_ratio_bits(
                raw[i] as nat,
                total(raw),
            ),
        forall|i: int| 0 <= i < 9 ==> (#[trigger] normalized(raw)[i]) <= ONE,
        forall|i: int| 0 <= i < 9 ==> !encodes_nan(#[trigger] normalized(raw)[i]),
{
    assert forall|i: int| 0 <= i < 9 implies (#[trigger] normalized(raw)[i]) == unit_ratio_bits(
        raw[i] as nat,
        total(raw),
    ) && normalized(raw)[i] <= ONE by {
        if total(raw) > 0 {
            lemma_unit_ratio_bits_range(raw[i] as nat, total(raw));
        }
    }
}

/// The sum of the numbers that nine weights encode, times `2^1074`.
pub open spec fn scaled_sum(weights: Seq<u64>) -> int {
    scaled_value(weights[0]) + scaled_value(weights[1]) + scaled_value(weights[2]) + scaled_value(
        weights[3],
    ) + scaled_value(weights[4]) + scaled_value(weights[5]) + scaled_value(weights[6])
        + scaled_value(weights[7]) + scaled_value(weights[8])
}

/// Where the raw weights are not all zero, the numbers that the normalized
/// weights encode add up to 1, to within nine times `2^-54`. The statement is
/// scaled by `2^1074`, which makes every term an integer.
pub proof fn lemma_normalized_sum(raw: Seq<u16>)
    requires
        raw.len() == 9,
        total(raw) > 0,
    ensures
        pow2(1074) - 9 * pow2(1020) <= scaled_sum(normalized(raw)) <= pow2(1074) + 9 * pow2(1020),
{
    let den = total(raw);
    let one = pow2(1074);
    let unit = pow2(1020);
    let weights = normalized(raw);
    lemma_normalized_range(raw);
    assert forall|i: int| 0 <= i < 9 implies -(den * unit) <= scaled_value(#[trigger] weights[i])
        * den - raw[i] * one <= den * unit by {
        lemma_unit_ratio_near(raw[i] as nat, den);
    }
    let v0 = scaled_value(weights[0]);
    let v1 = scaled_value(weights[1]);
    let v2 = scaled_value(weights[2]);
    let v3 = scaled_value(weights[3]);
    let v4 = scaled_value(weights[4]);
    let v5 = scaled_value(weights[5]);
    let v6 = scaled_value(weights[6]);
    let v7 = scaled_value(weights[7]);
    let v8 = scaled_value(weights[8]);
    let sum = scaled_sum(weights);
    let bound = den * unit;
    assert(sum * den == v0 * den + v1 * den + v2 * den + v3 * den + v4 * den + v5 * den + v6 * den
        + v7 * den + v8 * den) by (nonlinear_arith)
        requires
            sum == v0 + v1 + v2 + v3 + v4 + v5 + v6 + v7 + v8,
    ;
    assert(den * one == raw[0] * one + raw[1] * one + raw[2] * one + raw[3] * one + raw[4] * one
        + raw[5] * one + raw[6] * one + raw[7] * one + raw[8] * one) by (nonlinear_arith)
        requires
            den == raw[0] + raw[1] + raw[2] + raw[3] + raw[4] + raw[5] + raw[6] + raw[7] + raw[8],
    ;
    assert(-(9 * bound) <= sum * den - den * one <= 9 * bound);
    assert(one - 9 * unit <= sum <= one + 9 * unit) by (nonlinear_arith)
        requires
            -(9 * bound) <= sum * den - den * one <= 9 * bound,
            bound == den * unit,
            den > 0,
    ;
}

/// The SHA-256 digest of a category's message for `content`.
pub fn category_digest(dhatu: Dhatu, content: &[u8]) -> (digest: [u8; 32])
    ensures
        digest@ == sha256_digest(category_message(dhatu, content@)),
{
    let name = dhatu.as_bytes();
    let mut message: Vec<u8> = Vec::new();
    let mut i: usize = 0;
    while i < name.len()
        invariant
            i <= name.len(),
            message@ == name@.take(i as int),
        decreases name.len() - i,
    {
        message.push(name[i]);
        i = i + 1;
    }
    assert(message@ =~= name@);
    message.push(0x3a);
    message.push(0x3a);
    let mut j: usize = 0;
    while j < content.len()
        invariant
            j <= content.len(),
            message@ == name@ + seq![0x3au8, 0x3au8] + content@.take(j as int),
        decreases content.len() - j,
    {
        message.push(content[j]);
        j = j + 1;
    }
    assert(message@ =~= category_message(dhatu, content@)) by {
        assert(content@.take(content@.len() as int) =~= content@);
    }
    sha256(message.as_slice())
}

/// The raw weight of a digest: the sum of its bytes at offsets 0, 5, 13, 21
/// and 29.
pub fn weight_of_digest(digest: &[u8; 32]) -> (raw: u16)
    ensures
        raw == digest_weight(digest@),
        raw <= 1275,
{
    digest[0] as u16 + digest[5] as u16 + digest[13] as u16 + digest[21] as u16
        + digest[29] as u16
}

impl DhatuVector {
    /// Normalizes nine raw weights: each becomes its share of their sum, as
    /// the nearest binary64 number.
    pub fn from_raw_weights(raw: [u16; 9]) -> (vector: Self)
        ensures
            vector.weights@ == normalized(raw@),
    {
        let sum: u32 = raw[0] as u32 + raw[1] as u32 + raw[2] as u32 + raw[3] as u32
            + raw[4] as u32 + raw[5] as u32 + raw[6] as u32 + raw[7] as u32 + raw[8] as u32;
        let mut weights: [u64; 9] = [0; 9];
        if sum > 0 {
            let mut i: usize = 0;
            while i < 9
                invariant
                    i <= 9,
                    sum == total(raw@),
                    sum > 0,
                    forall|j: int| 0 <= j < i ==> weights@[j] == normalized(raw@)[j],
                decreases 9 - i,
            {
                weights[i] = unit_ratio(raw[i] as u32, sum);
                i = i + 1;
            }
        }
        assert(weights@ =~= normalized(raw@));
        DhatuVector { weights }
    }

    /// The weights of `content`: for each category the digest of its message
    /// gives a raw weight, and the nine raw weights are normalized.
    pub fn from_content(content: &[u8]) -> (vector: Self)
        ensures
            vector.weights@ == normalized(raw_weights(content@)),
    {
        let mut raw: [u16; 9] = [0; 9];
        let mut i: usize = 0;
        while i < 9
            invariant
                i <= 9,
                forall|j: int| 0 <= j < i ==> raw@[j] == raw_weights(content@)[j],
            decreases 9 - i,
        {
            let digest = category_digest(Dhatu::from_index(i), content);
            raw[i] = weight_of_digest(&digest);
            i = i + 1;
        }
        assert(raw@ =~= raw_weights(content@));
        Self::from_raw_weights(raw)
    }
}

} // verus!
