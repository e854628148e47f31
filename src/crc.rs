//! XOR checksum over the body of a 90-byte report.
//!
//! The checksum covers bytes 1 through 86 inclusive. The fast path folds the
//! window eight bytes at a time through a 64-bit accumulator and proves that
//! the result is the same as folding the window one byte at a time.

use vstd::prelude::*;

use crate::error::HidError;

verus! {

/// First byte covered by the checksum.
pub const CRC_START: usize = 1;

/// One past the last byte covered by the checksum.
pub const CRC_END: usize = 87;

/// Byte-by-byte XOR fold, from the left.
pub open spec fn xor_fold(s: Seq<u8>) -> u8
    decreases s.len(),
{
    if s.len() == 0 {
        0
    } else {
        xor_fold(s.drop_last()) ^ s.last()
    }
}

/// The checksum of a buffer: the XOR of bytes 1..=86, or 0 for a buffer
/// too short to hold that window.
pub open spec fn checksum_of(buf: Seq<u8>) -> u8 {
    if buf.len() < CRC_END {
        0
    } else {
        xor_fold(buf.subrange(CRC_START as int, CRC_END as int))
    }
}

/// The eight bytes of a word XORed together.
spec fn word_xor(w: u64) -> u8 {
    ((w & 0xFF) as u8) ^ (((w >> 8u64) & 0xFF) as u8) ^ (((w >> 16u64) & 0xFF) as u8) ^ (((w
        >> 24u64) & 0xFF) as u8) ^ (((w >> 32u64) & 0xFF) as u8) ^ (((w >> 40u64) & 0xFF) as u8)
        ^ (((w >> 48u64) & 0xFF) as u8) ^ (((w >> 56u64) & 0xFF) as u8)
}

/// Eight bytes read as a little-endian word.
spec fn le_word(b0: u8, b1: u8, b2: u8, b3: u8, b4: u8, b5: u8, b6: u8, b7: u8) -> u64 {
    (b0 as u64) | ((b1 as u64) << 8u64) | ((b2 as u64) << 16u64) | ((b3 as u64) << 24u64) | ((
    b4 as u64) << 32u64) | ((b5 as u64) << 40u64) | ((b6 as u64) << 48u64) | ((b7 as u64)
        << 56u64)
}

proof fn lemma_word_xor_distributes(a: u64, b: u64)
    ensures
        word_xor(a ^ b) == word_xor(a) ^ word_xor(b),
{
    assert(word_xor(a ^ b) == word_xor(a) ^ word_xor(b)) by (bit_vector);
}

proof fn lemma_word_xor_of_bytes(
    f: u8,
    b0: u8,
    b1: u8,
    b2: u8,
    b3: u8,
    b4: u8,
    b5: u8,
    b6: u8,
    b7: u8,
)
    ensures
        f ^ word_xor(le_word(b0, b1, b2, b3, b4, b5, b6, b7)) == f ^ b0 ^ b1 ^ b2 ^ b3 ^ b4 ^ b5
            ^ b6 ^ b7,
{
    assert(f ^ word_xor(le_word(b0, b1, b2, b3, b4, b5, b6, b7)) == f ^ b0 ^ b1 ^ b2 ^ b3 ^ b4
        ^ b5 ^ b6 ^ b7) by (bit_vector);
}

/// Extending a window by one byte XORs that byte into the fold.
proof fn lemma_xor_fold_extend(s: Seq<u8>, lo: int, hi: int)
    requires
        0 <= lo <= hi < s.len(),
    ensures
        xor_fold(s.subrange(lo, hi + 1)) == xor_fold(s.subrange(lo, hi)) ^ s[hi],
{
    assert(s.subrange(lo, hi + 1).drop_last() =~= s.subrange(lo, hi));
}

fn word_xor_exec(w: u64) -> (r: u8)
    ensures
        r == word_xor(w),
{
    ((w & 0xFF) as u8) ^ (((w >> 8u64) & 0xFF) as u8) ^ (((w >> 16u64) & 0xFF) as u8) ^ (((w
        >> 24u64) & 0xFF) as u8) ^ (((w >> 32u64) & 0xFF) as u8) ^ (((w >> 40u64) & 0xFF) as u8)
        ^ (((w >> 48u64) & 0xFF) as u8) ^ (((w >> 56u64) & 0xFF) as u8)
}

fn le_word_exec(buf: &[u8], i: usize) -> (w: u64)
    requires
        i + 8 <= buf.len(),
    ensures
        w == le_word(
            buf[i as int],
            buf[i + 1],
            buf[i + 2],
            buf[i + 3],
            buf[i + 4],
            buf[i + 5],
            buf[i + 6],
            buf[i + 7],
        ),
{
    (buf[i] as u64) | ((buf[i + 1] as u64) << 8u64) | ((buf[i + 2] as u64) << 16u64) | ((buf[i
        + 3] as u64) << 24u64) | ((buf[i + 4] as u64) << 32u64) | ((buf[i + 5] as u64) << 40u64)
        | ((buf[i + 6] as u64) << 48u64) | ((buf[i + 7] as u64) << 56u64)
}

/// Checksum of a report buffer: XOR of bytes 1..=86.
///
/// Ten 8-byte groups are combined with 64-bit XOR, the accumulator's bytes
/// are folded together, and the six trailing bytes are folded in one by one.
/// A buffer shorter than 87 bytes gives 0.
pub fn fast_crc_impl(buf: &[u8]) -> (r: u8)
    ensures
        r == checksum_of(buf@),
        buf@.len() >= CRC_END ==> r == xor_fold(buf@.subrange(1, 87)),
        buf@.len() < CRC_END ==> r == 0,
{
    if buf.len() < CRC_END {
        return 0;
    }
    let mut acc: u64 = 0;
    let mut i: usize = CRC_START;
    proof {
        assert(word_xor(0u64) == 0u8) by (bit_vector);
        assert(buf@.subrange(1, 1) =~= Seq::<u8>::empty());
    }
    while i + 8 <= CRC_END
        invariant
            CRC_START <= i <= CRC_END,
            buf@.len() >= CRC_END,
            word_xor(acc) == xor_fold(buf@.subrange(1, i as int)),
        decreases CRC_END - i,
    {
        let w = le_word_exec(buf, i);
        proof {
            let s = buf@;
            let f = xor_fold(s.subrange(1, i as int));
            lemma_word_xor_distributes(acc, w);
            lemma_word_xor_of_bytes(
                f,
                s[i as int],
                s[i + 1],
                s[i + 2],
                s[i + 3],
                s[i + 4],
                s[i + 5],
                s[i + 6],
                s[i + 7],
            );
            lemma_xor_fold_extend(s, 1, i as int);
            lemma_xor_fold_extend(s, 1, i + 1);
            lemma_xor_fold_extend(s, 1, i + 2);
            lemma_xor_fold_extend(s, 1, i + 3);
            lemma_xor_fold_extend(s, 1, i + 4);
            lemma_xor_fold_extend(s, 1, i + 5);
            lemma_xor_fold_extend(s, 1, i + 6);
            lemma_xor_fold_extend(s, 1, i + 7);
        }
        acc = acc ^ w;
        i = i + 8;
    }
    let mut result: u8 = word_xor_exec(acc);
    while i < CRC_END
        invariant
            CRC_START <= i <= CRC_END,
            buf@.len() >= CRC_END,
            result == xor_fold(buf@.subrange(1, i as int)),
        decreases CRC_END - i,
    {
        proof {
            lemma_xor_fold_extend(buf@, 1, i as int);
        }
        result = result ^ buf[i];
        i = i + 1;
    }
    result
}


/// Checksum of a report buffer, for callers that may hand in a short buffer.
///
/// A buffer shorter than 87 bytes is refused with `InvalidReportSize`.
pub fn fast_crc(buf: &[u8]) -> (r: Result<u8, HidError>)
    ensures
        buf@.len() < CRC_END ==> r == Err::<u8, HidError>(
            HidError::InvalidReportSize { expected: CRC_END, actual: buf@.len() as usize },
        ),
        buf@.len() >= CRC_END ==> r == Ok::<u8, HidError>(xor_fold(buf@.subrange(1, 87))),
{
    if buf.len() < CRC_END {
        return Err(HidError::InvalidReportSize { expected: CRC_END, actual: buf.len() });
    }
    Ok(fast_crc_impl(buf))
}

/// The checksum depends on bytes 1..=86 alone: two buffers of at least 87
/// bytes that agree there have the same checksum, whatever byte 0 and the
/// bytes from 87 on hold.
pub proof fn lemma_checksum_ignores_bytes_outside_window(a: Seq<u8>, b: Seq<u8>)
    requires
        a.len() >= CRC_END,
        b.len() >= CRC_END,
        forall|i: int| CRC_START <= i < CRC_END ==> a[i] == b[i],
    ensures
        checksum_of(a) == checksum_of(b),
{
    assert(a.subrange(1, 87) =~= b.subrange(1, 87));
}

} // verus!
