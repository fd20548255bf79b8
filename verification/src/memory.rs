//! Word-granular byte patching. The tracing primitive moves whole machine
//! words, so a single byte is changed by reading the word that holds it,
//! splicing the byte in and writing the word back.

use vstd::prelude::*;

verus! {

/// Bytes in one machine word of the traced process.
pub const WORD_BYTES: usize = 8;

/// The one-byte breakpoint instruction.
pub const TRAP_BYTE: u8 = 0xcc;

/// Width of the trap instruction: how far the instruction pointer has moved
/// past a breakpoint's address when the stop is observed.
pub const TRAP_WIDTH: usize = 1;

/// The byte at position `offset` (0 is the lowest address) of a
/// little-endian word.
pub open spec fn byte_of(word: u64, offset: u64) -> u8 {
    ((word >> (8 * offset)) & 0xff) as u8
}

/// The word with the byte at position `offset` replaced by `val`.
pub open spec fn spliced(word: u64, offset: u64, val: u8) -> u64 {
    (word & !(0xffu64 << (8 * offset))) | ((val as u64) << (8 * offset))
}

/// The start of the word that holds `addr`.
pub open spec fn word_base(addr: int) -> int {
    addr - addr % 8
}

/// The position of `addr` inside its word.
pub open spec fn word_offset(addr: int) -> int {
    addr % 8
}

/// What a word looks like after `rounds` passes through a breakpoint at
/// `offset`: each pass puts `original` back and then the trap again.
pub open spec fn after_step_overs(word: u64, offset: u64, original: u8, rounds: nat) -> u64
    decreases rounds,
{
    if rounds == 0 {
        word
    } else {
        spliced(
            spliced(after_step_overs(word, offset, original, (rounds - 1) as nat), offset, original),
            offset,
            TRAP_BYTE,
        )
    }
}

/// Rounds an address down to the start of its word.
pub fn align_addr_to_word(addr: usize) -> (base: usize)
    ensures
        base as int == word_base(addr as int),
        base <= addr,
        addr - base < 8,
{
    let a: u64 = addr as u64;
    let b: u64 = a & !7u64;
    assert(b == a - a % 8 && b <= a) by (bit_vector)
        requires
            b == a & !7u64,
    ;
    b as usize
}

/// The position of `addr` inside its word.
pub fn byte_offset(addr: usize) -> (offset: usize)
    ensures
        offset as int == word_offset(addr as int),
        offset < 8,
{
    addr - align_addr_to_word(addr)
}

/// Reads one byte out of a word.
pub fn extract_byte(word: u64, offset: usize) -> (byte: u8)
    requires
        offset < 8,
    ensures
        byte == byte_of(word, offset as u64),
{
    let k: u64 = offset as u64;
    assert(8 * k < 64) by (bit_vector)
        requires
            k < 8,
    ;
    ((word >> (8 * k)) & 0xff) as u8
}

/// Replaces one byte of a word and hands back the new word together with
/// the byte that was there.
pub fn splice_byte(word: u64, offset: usize, val: u8) -> (out: (u8, u64))
    requires
        offset < 8,
    ensures
        out.0 == byte_of(word, offset as u64),
        out.1 == spliced(word, offset as u64, val),
{
    let k: u64 = offset as u64;
    assert(8 * k < 64) by (bit_vector)
        requires
            k < 8,
    ;
    let original: u8 = extract_byte(word, offset);
    let masked: u64 = word & !(0xffu64 << (8 * k));
    let updated: u64 = masked | ((val as u64) << (8 * k));
    (original, updated)
}

/// A spliced byte reads back as written, and every other byte of the word
/// is untouched.
pub proof fn lemma_splice_reads_back(word: u64, offset: u64, val: u8, other: u64)
    requires
        offset < 8,
        other < 8,
    ensures
        byte_of(spliced(word, offset, val), offset) == val,
        other != offset ==> byte_of(spliced(word, offset, val), other) == byte_of(word, other),
{
    assert(byte_of(spliced(word, offset, val), offset) == val) by (bit_vector)
        requires
            offset < 8,
    ;
    assert(other != offset ==> byte_of(spliced(word, offset, val), other) == byte_of(word, other))
        by (bit_vector)
        requires
            offset < 8,
            other < 8,
    ;
}

/// Putting the original byte back over a patch restores the whole word.
pub proof fn lemma_restore_round_trip(word: u64, offset: u64, val: u8)
    requires
        offset < 8,
    ensures
        spliced(spliced(word, offset, val), offset, byte_of(word, offset)) == word,
{
    assert(spliced(spliced(word, offset, val), offset, byte_of(word, offset)) == word)
        by (bit_vector)
        requires
            offset < 8,
    ;
}

/// Splicing the same position twice keeps only the second byte.
pub proof fn lemma_splice_overwrites(word: u64, offset: u64, first: u8, second: u8)
    requires
        offset < 8,
    ensures
        spliced(spliced(word, offset, first), offset, second) == spliced(word, offset, second),
{
    assert(spliced(spliced(word, offset, first), offset, second) == spliced(word, offset, second))
        by (bit_vector)
        requires
            offset < 8,
    ;
}

/// However often a breakpoint is stepped over, the patched word stays what
/// it was after the first patch: the trap is in place and the other bytes
/// are those of the original word.
pub proof fn lemma_step_over_keeps_patch(word: u64, offset: u64, rounds: nat)
    requires
        offset < 8,
    ensures
        after_step_overs(spliced(word, offset, TRAP_BYTE), offset, byte_of(word, offset), rounds)
            == spliced(word, offset, TRAP_BYTE),
    decreases rounds,
{
    if rounds > 0 {
        lemma_step_over_keeps_patch(word, offset, (rounds - 1) as nat);
        lemma_restore_round_trip(word, offset, TRAP_BYTE);
    }
}

} // verus!
