//! Word and byte arithmetic for a target whose control primitive moves one
//! aligned eight-byte word at a time.

use vstd::prelude::*;

verus! {

/// Number of bytes in one machine word of the target.
pub const WORD_BYTES: u64 = 8;

/// The single-byte software-trap instruction that marks a breakpoint.
pub const TRAP_BYTE: u8 = 0xcc;

/// The word-aligned address of the word that holds `addr`.
pub open spec fn word_base(addr: u64) -> u64 {
    (addr - addr % 8) as u64
}

/// Position of `addr` inside its word, counted from the least significant byte.
pub open spec fn byte_index(addr: u64) -> u64 {
    addr % 8
}

/// Byte number `index` (0 is the least significant) of `word`.
pub open spec fn byte_of(word: u64, index: u64) -> u8 {
    ((word >> (8 * index) as u64) & 0xff) as u8
}

/// The eight bytes of `word`, least significant first: the order in which
/// they lie in the target's memory.
pub open spec fn word_bytes(word: u64) -> Seq<u8> {
    seq![
        byte_of(word, 0),
        byte_of(word, 1),
        byte_of(word, 2),
        byte_of(word, 3),
        byte_of(word, 4),
        byte_of(word, 5),
        byte_of(word, 6),
        byte_of(word, 7),
    ]
}

/// A word is determined by its eight bytes.
pub proof fn lemma_word_bytes_injective(a: u64, b: u64)
    requires
        word_bytes(a) == word_bytes(b),
    ensures
        a == b,
{
    let x = word_bytes(a);
    let y = word_bytes(b);
    assert(x[0] == y[0] && x[1] == y[1] && x[2] == y[2] && x[3] == y[3]);
    assert(x[4] == y[4] && x[5] == y[5] && x[6] == y[6] && x[7] == y[7]);
    assert(a == b) by (bit_vector)
        requires
            ((a >> 0u64) & 0xff) as u8 == ((b >> 0u64) & 0xff) as u8,
            ((a >> 8u64) & 0xff) as u8 == ((b >> 8u64) & 0xff) as u8,
            ((a >> 16u64) & 0xff) as u8 == ((b >> 16u64) & 0xff) as u8,
            ((a >> 24u64) & 0xff) as u8 == ((b >> 24u64) & 0xff) as u8,
            ((a >> 32u64) & 0xff) as u8 == ((b >> 32u64) & 0xff) as u8,
            ((a >> 40u64) & 0xff) as u8 == ((b >> 40u64) & 0xff) as u8,
            ((a >> 48u64) & 0xff) as u8 == ((b >> 48u64) & 0xff) as u8,
            ((a >> 56u64) & 0xff) as u8 == ((b >> 56u64) & 0xff) as u8,
    ;
}

/// Rounds `addr` down to the start of its word.
pub fn align_addr_to_word(addr: u64) -> (base: u64)
    ensures
        base == word_base(addr),
        base % 8 == 0,
        base <= addr < base + 8,
{
    let base: u64 = addr & 0xffff_ffff_ffff_fff8u64;
    assert(addr & 0xffff_ffff_ffff_fff8u64 == (addr - addr % 8) as u64) by (bit_vector);
    base
}

/// Reads one byte out of a word.
pub fn extract_byte(word: u64, index: u64) -> (byte: u8)
    requires
        index < 8,
    ensures
        byte == word_bytes(word)[index as int],
        byte == byte_of(word, index),
{
    let shift: u64 = 8 * index;
    let byte: u8 = ((word >> shift) & 0xff) as u8;
    byte
}

proof fn lemma_replaced_byte(word: u64, index: u64, value: u8, k: u64)
    by (bit_vector)
    requires
        index < 8,
        k < 8,
    ensures
        ((((word & !(0xffu64 << (8 * index) as u64)) | ((value as u64) << (8 * index) as u64)) >> (8
            * k) as u64) & 0xff) as u8 == (if k == index {
            value
        } else {
            ((word >> (8 * k) as u64) & 0xff) as u8
        }),
{
}

/// Puts `value` in place of byte number `index` of `word` and leaves the
/// other seven bytes as they are.
pub fn replace_byte(word: u64, index: u64, value: u8) -> (out: u64)
    requires
        index < 8,
    ensures
        word_bytes(out) == word_bytes(word).update(index as int, value),
{
    let shift: u64 = 8 * index;
    let cleared: u64 = word & !(0xffu64 << shift);
    let out: u64 = cleared | ((value as u64) << shift);
    proof {
        lemma_replaced_byte(word, index, value, 0);
        lemma_replaced_byte(word, index, value, 1);
        lemma_replaced_byte(word, index, value, 2);
        lemma_replaced_byte(word, index, value, 3);
        lemma_replaced_byte(word, index, value, 4);
        lemma_replaced_byte(word, index, value, 5);
        lemma_replaced_byte(word, index, value, 6);
        lemma_replaced_byte(word, index, value, 7);
        assert(word_bytes(out) =~= word_bytes(word).update(index as int, value));
    }
    out
}

} // verus!
