//! The 16-bit typed values of the machine: `Word`, the immediate operand of
//! an instruction, and `StackValues`, the runtime operand on the evaluation
//! stack.

use vstd::prelude::*;

verus! {

/// A tagged 16-bit immediate inside an instruction. A half-precision float
/// is carried by its bit pattern, so every variant is an exact plain value.
#[derive(Debug, Clone, Copy, PartialEq, Eq, Structural)]
pub enum Word {
    /// A Unicode scalar value; only values up to U+FFFF encode losslessly.
    Char(char),
    U16(u16),
    /// IEEE 754 binary16, as its raw bit pattern.
    F16(u16),
    I16(i16),
}

/// The two heap regions of the machine.
#[derive(Debug, Clone, Copy, PartialEq, Eq, Structural)]
pub enum PointerType {
    /// Byte-granular memory.
    RawPointer,
    /// Memory granular in units of `StackValues`.
    StackValuesPointer,
}

/// A runtime operand on the evaluation stack. A pointer carries its address
/// together with the region it points into.
#[derive(Debug, Clone, Copy, PartialEq, Eq, Structural)]
pub enum StackValues {
    U16(u16),
    I16(i16),
    Pointer(u16, PointerType),
}

impl Word {
    /// The 16-bit payload of the word, independent of its tag.
    pub open spec fn bits_spec(self) -> u16 {
        match self {
            Word::U16(x) => x,
            Word::F16(x) => x,
            Word::I16(x) => x as u16,
            Word::Char(c) => (c as u32) as u16,
        }
    }

    /// A word is well formed when its payload survives the two-byte encoding;
    /// only a `Char` above U+FFFF does not.
    pub open spec fn wf(self) -> bool {
        match self {
            Word::Char(c) => (c as u32) < 0x10000,
            _ => true,
        }
    }

    /// The big-endian two-byte encoding of the payload.
    pub fn to_be_bytes(&self) -> (r: [u8; 2])
        ensures
            r[0] == self.bits_spec() / 256,
            r[1] == self.bits_spec() % 256,
    {
        let bits: u16 = match self {
            Word::U16(x) => *x,
            Word::F16(x) => *x,
            Word::I16(x) => *x as u16,
            Word::Char(c) => (*c as u32) as u16,
        };
        [(bits / 256) as u8, (bits % 256) as u8]
    }
}

} // verus!
