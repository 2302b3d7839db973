//! Machine code as text.

use crate::memory::{extract_byte, word_bytes};
use iced_x86::{Decoder, DecoderOptions, FastFormatter};
use vstd::prelude::*;

verus! {

/// The number of bytes of the instruction that starts at `position` in
/// `data`, as the decoder of the crate `iced_x86` finds it in code for 64
/// bits that is loaded at address 0.
pub uninterp spec fn instruction_size(data: Seq<u8>, position: nat) -> nat;

/// The text of the instruction that starts at `position` in `data`, as the
/// fast formatter of the crate `iced_x86` writes it for code for 64 bits
/// that is loaded at address 0.
pub uninterp spec fn instruction_text(data: Seq<u8>, position: nat) -> Seq<char>;

/// `Decoder::decode`, `Instruction::len` and `FastFormatter::format` of
/// the crate `iced_x86`, for the one instruction that starts at `position`
/// in `data`. The bytes are taken as code for 64 bits that is loaded at
/// address 0, without decoder options. What comes back is the length that
/// the decoder gives the instruction and the text that the formatter
/// writes for it; both depend on the bytes and the position only, and the
/// contract gives them their names and claims nothing else of them.
#[verifier::external_body]
fn decode_at(data: &Vec<u8>, position: usize) -> (found: (usize, String))
    requires
        position < data@.len(),
    ensures
        found.0 == instruction_size(data@, position as nat),
        found.1@ == instruction_text(data@, position as nat),
{
    let code = &data[position..];
    let mut decoder = Decoder::with_ip(64, code, position as u64, DecoderOptions::NONE);
    let instruction = decoder.decode();
    let mut text = String::new();
    FastFormatter::new().format(&instruction, &mut text);
    (instruction.len(), text)
}

/// The texts of the instructions of `data` from `position` on, one after
/// the other: each instruction begins where the one before it ends, and
/// the last one is the one that reaches the end of `data` or has no
/// length.
pub open spec fn listing(data: Seq<u8>, position: nat) -> Seq<Seq<char>>
    decreases data.len() - position,
{
    if position >= data.len() {
        Seq::empty()
    } else if instruction_size(data, position) == 0 || position + instruction_size(data, position)
        > data.len() {
        seq![instruction_text(data, position)]
    } else {
        seq![instruction_text(data, position)] + listing(
            data,
            position + instruction_size(data, position),
        )
    }
}

/// Where the instruction after the one at `position` begins, in code of
/// `len` bytes: behind the instruction, or at the end of the code where
/// the instruction reaches it or has no length.
pub open spec fn following(len: nat, position: nat, size: nat) -> nat {
    if size == 0 || position + size > len {
        len
    } else {
        position + size
    }
}

/// Goes on from an instruction of `size` bytes at `position` to where the
/// next one begins.
pub fn step_past(len: usize, position: usize, size: usize) -> (next: usize)
    requires
        position < len,
    ensures
        next == following(len as nat, position as nat, size as nat),
        position < next <= len,
{
    match position.checked_add(size) {
        Some(next) => {
            if size == 0 || next > len {
                len
            } else {
                next
            }
        },
        None => len,
    }
}

/// `lines` holds the texts of `texts`.
pub open spec fn spells(lines: Seq<String>, texts: Seq<Seq<char>>) -> bool {
    &&& lines.len() == texts.len()
    &&& forall|i: int| 0 <= i < lines.len() ==> (#[trigger] lines[i])@ == texts[i]
}

/// Writes the machine code in `data` out as text, one instruction after
/// the other.
pub fn disassemble(data: &Vec<u8>) -> (lines: Vec<String>)
    ensures
        spells(lines@, listing(data@, 0)),
{
    let mut lines: Vec<String> = Vec::new();
    let mut position: usize = 0;
    while position < data.len()
        invariant
            position <= data@.len(),
            forall|i: int| 0 <= i < lines@.len() ==> (#[trigger] lines@[i])@ == listing(data@, 0)[i],
            lines@.len() + listing(data@, position as nat).len() == listing(data@, 0).len(),
            forall|i: int|
                0 <= i < listing(data@, position as nat).len() ==> listing(
                    data@,
                    position as nat,
                )[i] == #[trigger] listing(data@, 0)[lines@.len() + i],
        decreases data@.len() - position,
    {
        let ghost here = listing(data@, position as nat);
        let (size, text) = decode_at(data, position);
        lines.push(text);
        let next: usize = step_past(data.len(), position, size);
        proof {
            let after = listing(data@, next as nat);
            let rest = if size == 0 || position + size > data@.len() {
                Seq::<Seq<char>>::empty()
            } else {
                listing(data@, (position + size) as nat)
            };
            assert(here =~= seq![instruction_text(data@, position as nat)] + rest);
            assert(rest =~= after);
            assert(here[0] == listing(data@, 0)[lines@.len() - 1 + 0]);
            assert forall|i: int| 0 <= i < after.len() implies after[i] == #[trigger] listing(
                data@,
                0,
            )[lines@.len() + i] by {
                assert(after[i] == here[i + 1]);
                assert(here[i + 1] == listing(data@, 0)[lines@.len() - 1 + (i + 1)]);
            }
        }
        position = next;
    }
    lines
}

/// The bytes of `word` in the order in which they lie in memory.
pub fn bytes_of(word: u64) -> (bytes: Vec<u8>)
    ensures
        bytes@ == word_bytes(word),
{
    let mut bytes: Vec<u8> = Vec::new();
    let mut i: u64 = 0;
    while i < 8
        invariant
            i <= 8,
            bytes@.len() == i,
            forall|k: int| 0 <= k < i ==> bytes@[k] == word_bytes(word)[k],
        decreases 8 - i,
    {
        bytes.push(extract_byte(word, i));
        i += 1;
    }
    proof {
        assert(bytes@ =~= word_bytes(word));
    }
    bytes
}

} // verus!
