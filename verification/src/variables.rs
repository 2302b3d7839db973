//! From a variable's declaration to its value: where its bytes are and what
//! they mean.

use crate::control::{Value, ValueKind};
use crate::debug_info::Location;
use crate::text::str_eq;
use vstd::prelude::*;

verus! {

/// Distance between the frame base that locations are counted from and the
/// frame pointer: the saved frame pointer and the return address lie in
/// between, one word each.
pub const FRAME_BASE_OFFSET: u64 = 16;

/// The kind of value that a declared type name stands for.
pub open spec fn kind_named(declared: Seq<char>) -> Option<ValueKind> {
    if declared == "int"@ {
        Some(ValueKind::Int)
    } else if declared == "long int"@ {
        Some(ValueKind::Long)
    } else if declared == "float"@ {
        Some(ValueKind::Float)
    } else if declared == "double"@ {
        Some(ValueKind::Double)
    } else {
        None
    }
}

/// The lower four bytes of a word.
pub open spec fn low_half(word: u64) -> u32 {
    (word % 0x1_0000_0000) as u32
}

/// The number that 32 bits stand for in two's complement.
pub open spec fn signed32(bits: u32) -> int {
    if bits < 0x8000_0000 {
        bits as int
    } else {
        bits - 0x1_0000_0000
    }
}

/// The number that 64 bits stand for in two's complement.
pub open spec fn signed64(bits: u64) -> int {
    if bits < 0x8000_0000_0000_0000 {
        bits as int
    } else {
        bits - 0x1_0000_0000_0000_0000
    }
}

/// What `word` holds when read as a value of `kind`.
pub open spec fn decoded(kind: ValueKind, word: u64) -> Value {
    match kind {
        ValueKind::Int => Value::Int(signed32(low_half(word)) as i32),
        ValueKind::Long => Value::Long(signed64(word) as i64),
        ValueKind::Float => Value::Float(low_half(word)),
        ValueKind::Double => Value::Double(word),
    }
}

/// The address of a variable while the frame pointer is `fp`, if it lies in
/// the address space.
pub open spec fn located(location: Location, fp: u64) -> Option<u64> {
    match location {
        Location::Address(a) => Some(a),
        Location::FramePointerOffset(offset) => {
            let a = fp + offset + FRAME_BASE_OFFSET;
            if 0 <= a <= u64::MAX {
                Some(a as u64)
            } else {
                None
            }
        },
    }
}

/// Tells from the name of a declared type how its values are read; `None`
/// for a type that is not supported.
pub fn value_kind(declared: &str) -> (kind: Option<ValueKind>)
    ensures
        kind == kind_named(declared@),
{
    if str_eq(declared, "int") {
        Some(ValueKind::Int)
    } else if str_eq(declared, "long int") {
        Some(ValueKind::Long)
    } else if str_eq(declared, "float") {
        Some(ValueKind::Float)
    } else if str_eq(declared, "double") {
        Some(ValueKind::Double)
    } else {
        None
    }
}

/// Reads `word` as a value of `kind`. The 32-bit kinds use the lower four
/// bytes of the word only.
pub fn decode(kind: ValueKind, word: u64) -> (value: Value)
    ensures
        value == decoded(kind, word),
{
    match kind {
        ValueKind::Int => {
            let low: u32 = (word % 0x1_0000_0000) as u32;
            if low < 0x8000_0000 {
                Value::Int(low as i32)
            } else {
                Value::Int((low as i64 - 0x1_0000_0000) as i32)
            }
        },
        ValueKind::Long => {
            if word < 0x8000_0000_0000_0000 {
                Value::Long(word as i64)
            } else {
                Value::Long((word as i128 - 0x1_0000_0000_0000_0000) as i64)
            }
        },
        ValueKind::Float => Value::Float((word % 0x1_0000_0000) as u32),
        ValueKind::Double => Value::Double(word),
    }
}

/// Computes the address of a variable from its location and the frame
/// pointer.
pub fn locate(location: Location, fp: u64) -> (addr: Option<u64>)
    ensures
        addr == located(location, fp),
{
    match location {
        Location::Address(a) => Some(a),
        Location::FramePointerOffset(offset) => {
            let a: i128 = fp as i128 + offset as i128 + FRAME_BASE_OFFSET as i128;
            if 0 <= a && a <= u64::MAX as i128 {
                Some(a as u64)
            } else {
                None
            }
        },
    }
}

} // verus!
