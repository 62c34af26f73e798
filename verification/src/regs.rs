//! Byte lanes of 32-bit registers and word-addressed register stores.

use std::collections::HashMap;
use vstd::prelude::*;

verus! {

/// Bit position of the byte lane that `offset` addresses inside its word.
pub open spec fn lane_shift(offset: u64) -> u64 {
    ((offset % 4) * 8) as u64
}

/// The word-aligned offset containing `offset`.
pub open spec fn word_base(offset: u64) -> u64 {
    (offset - offset % 4) as u64
}

/// The byte lane of `word` that `offset` addresses (little-endian lanes).
pub open spec fn byte_of(word: u32, offset: u64) -> u8 {
    ((word >> lane_shift(offset)) & 0xFF) as u8
}

/// `word` with the lane that `offset` addresses replaced by `value`.
pub open spec fn with_byte(word: u32, offset: u64, value: u8) -> u32 {
    (word & !(0xFFu32 << lane_shift(offset))) | ((value as u32) << lane_shift(offset))
}

/// The value a word store reads at `offset`: the stored word, or zero.
pub open spec fn word_in(m: Map<u64, u32>, offset: u64) -> u32 {
    if m.contains_key(offset) {
        m[offset]
    } else {
        0
    }
}

/// `offset & !3`.
pub fn align_word(offset: u64) -> (r: u64)
    ensures
        r == word_base(offset),
        r % 4 == 0,
        r <= offset,
{
    let r = offset & !3u64;
    assert(offset & !3u64 == (offset - offset % 4) as u64) by (bit_vector);
    assert((offset & !3u64) % 4 == 0) by (bit_vector);
    r
}

/// Bit position of the lane addressed by `offset`.
pub fn lane_of(offset: u64) -> (r: u64)
    ensures
        r == lane_shift(offset),
        r <= 24,
{
    let low = offset & 3;
    assert(offset & 3 == offset % 4) by (bit_vector);
    low * 8
}

/// Extract the lane of `word` that `offset` addresses.
pub fn get_byte(word: u32, offset: u64) -> (r: u8)
    ensures
        r == byte_of(word, offset),
{
    let sh = lane_of(offset);
    ((word >> sh) & 0xFF) as u8
}

/// Replace the lane of `word` that `offset` addresses.
pub fn set_byte(word: u32, offset: u64, value: u8) -> (r: u32)
    ensures
        r == with_byte(word, offset, value),
        byte_of(r, offset) == value,
{
    let sh = lane_of(offset);
    let r = (word & !(0xFFu32 << sh)) | ((value as u32) << sh);
    assert(((((word & !(0xFFu32 << sh)) | ((value as u32) << sh)) >> sh) & 0xFF) as u8 == value)
        by (bit_vector)
        requires
            sh <= 24,
    ;
    r
}

/// Proof that replacing a lane of a word leaves the other three lanes alone.
pub proof fn lemma_with_byte_other_lanes(word: u32, offset: u64, value: u8, other: u64)
    requires
        offset % 4 != other % 4,
    ensures
        byte_of(with_byte(word, offset, value), other) == byte_of(word, other),
{
    let a = lane_shift(offset);
    let b = lane_shift(other);
    assert(a <= 24 && b <= 24 && a % 8 == 0 && b % 8 == 0 && a != b);
    assert(((((word & !(0xFFu32 << a)) | ((value as u32) << a)) >> b) & 0xFF) as u8 == ((word
        >> b) & 0xFF) as u8) by (bit_vector)
        requires
            a <= 24,
            b <= 24,
            a == 0 || a == 8 || a == 16 || a == 24,
            b == 0 || b == 8 || b == 16 || b == 24,
            a != b,
    ;
}

/// `a + b` modulo 2^64.
pub open spec fn wrap_add(a: u64, b: u64) -> u64 {
    if a + b <= u64::MAX {
        (a + b) as u64
    } else {
        (a + b - 0x1_0000_0000_0000_0000) as u64
    }
}

/// `a + b` modulo 2^64, as `u64::wrapping_add` computes it.
pub fn wrapping_add(a: u64, b: u64) -> (r: u64)
    ensures
        r == wrap_add(a, b),
{
    if a <= u64::MAX - b {
        a + b
    } else {
        b - (u64::MAX - a) - 1
    }
}

/// The stored word at `offset`, or zero when nothing was stored there.
pub fn map_word(m: &HashMap<u64, u32>, offset: u64) -> (r: u32)
    ensures
        r == word_in(m@, offset),
{
    match m.get(&offset) {
        Some(v) => *v,
        None => 0,
    }
}

} // verus!
