//! The Internet (one's-complement) checksum, used by the IPv4 header and,
//! over a pseudo-header, by the TCP and UDP headers.

use vstd::prelude::*;

verus! {

/// Sum of the big-endian 16-bit words of `data`; an odd trailing byte is
/// treated as the high byte of a final word (zero padding on the right).
pub open spec fn spec_word_sum(data: Seq<u8>) -> int
    decreases data.len(),
{
    if data.len() == 0 {
        0
    } else if data.len() == 1 {
        data[0] * 256
    } else {
        data[0] * 256 + data[1] + spec_word_sum(data.skip(2))
    }
}

/// End-around-carry folding of a non-negative sum into 16 bits.
pub open spec fn spec_fold(s: int) -> int
    decreases s,
    when s >= 0
{
    if s < 0x10000 {
        s
    } else {
        spec_fold(s % 0x10000 + s / 0x10000)
    }
}

/// The Internet checksum of `data`: one's complement of the folded word sum.
pub open spec fn spec_checksum(data: Seq<u8>) -> int {
    0xFFFF - spec_fold(spec_word_sum(data))
}

proof fn lemma_word_sum_bounds(data: Seq<u8>)
    ensures
        0 <= spec_word_sum(data) <= 0xFFFF * ((data.len() + 1) / 2),
    decreases data.len(),
{
    if data.len() <= 1 {
    } else {
        lemma_word_sum_bounds(data.skip(2));
    }
}

proof fn lemma_fold_bounds(s: int)
    requires
        s >= 0,
    ensures
        0 <= spec_fold(s) <= 0xFFFF,
    decreases s,
{
    if s < 0x10000 {
    } else {
        lemma_fold_bounds(s % 0x10000 + s / 0x10000);
    }
}

/// The checksum is always a 16-bit value.
pub proof fn lemma_checksum_bounds(data: Seq<u8>)
    ensures
        0 <= spec_checksum(data) <= 0xFFFF,
{
    lemma_word_sum_bounds(data);
    lemma_fold_bounds(spec_word_sum(data));
}

/// Computes the Internet checksum of `data`: sum the big-endian 16-bit words
/// (padding an odd trailing byte with zero), fold the carries back into the
/// low 16 bits, and take the one's complement.
pub fn internet_checksum(data: &[u8]) -> (c: u16)
    requires
        data@.len() <= 0xFFFF,
    ensures
        c == spec_checksum(data@),
{
    let n = data.len();
    let mut acc: u64 = 0;
    let mut i: usize = 0;
    proof {
        assert(data@.skip(0) =~= data@);
    }
    while i < n
        invariant
            n == data@.len() <= 0xFFFF,
            i <= n,
            i % 2 == 0 || i == n,
            acc + spec_word_sum(data@.skip(i as int)) == spec_word_sum(data@),
            0 <= acc <= 0xFFFF * ((i + 1) / 2),
        decreases n - i,
    {
        proof {
            lemma_word_sum_bounds(data@.skip(i as int));
        }
        if i + 1 < n {
            proof {
                assert(data@.skip(i as int).skip(2) =~= data@.skip(i + 2));
                assert(data@.skip(i as int)[0] == data@[i as int]);
                assert(data@.skip(i as int)[1] == data@[i + 1]);
            }
            acc = acc + (data[i] as u64) * 256 + (data[i + 1] as u64);
            i = i + 2;
        } else {
            proof {
                assert(data@.skip(i as int).len() == 1);
                assert(data@.skip(i as int)[0] == data@[i as int]);
            }
            acc = acc + (data[i] as u64) * 256;
            i = i + 1;
        }
    }
    proof {
        assert(spec_word_sum(data@.skip(n as int)) == 0);
        lemma_word_sum_bounds(data@);
    }
    while acc > 0xFFFF
        invariant
            acc >= 0,
            spec_fold(acc as int) == spec_fold(spec_word_sum(data@)),
        decreases acc,
    {
        acc = acc % 0x10000 + acc / 0x10000;
    }
    0xFFFF - (acc as u16)
}

} // verus!
