//! Opcodes and instructions, with the opcode-byte mapping used by the
//! bytecode codec and the operand-count table used by the parser.

use vstd::prelude::*;
use crate::word::Word;

verus! {

/// The opcodes of the machine.
#[allow(non_camel_case_types)]
#[derive(Debug, Clone, Copy, PartialEq, Eq, Structural)]
pub enum InstructionType {
    INST_NOOP,
    INST_PUSH,
    INST_POP,
    INST_ADD,
    INST_AND,
    INST_OR,
    INST_XOR,
    INST_NOT,
    INST_SHL,
    INST_SHR,
    INST_MUL,
    INST_DIV,
    INST_SUB,
    INST_JMPZ,
    INST_JMPEQ,
    INST_JMPNEQ,
    INST_JMPNZ,
    INST_PUSH_STR,
    INST_ALLOC,
    INST_ALLOC_RAW,
    INST_SYSCALL,
    INST_DUP,
    INST_INSWAP,
    INST_PRINT,
    INST_LOAD,
    INST_STORE,
    INST_DEREF,
    INST_REF,
    INST_DEBUG,
    INST_CALL,
    INST_RET,
    INST_PUT,
    INST_STD_SYSCALL,
    INST_DLL_LOAD,
    INST_DLL_CALL,
}

impl InstructionType {
    /// The opcode byte under which this instruction serializes.
    pub open spec fn opcode_spec(self) -> u8 {
        match self {
            InstructionType::INST_NOOP => 0,
            InstructionType::INST_PUSH => 1,
            InstructionType::INST_POP => 2,
            InstructionType::INST_ADD => 3,
            InstructionType::INST_AND => 4,
            InstructionType::INST_OR => 5,
            InstructionType::INST_XOR => 6,
            InstructionType::INST_NOT => 7,
            InstructionType::INST_SHL => 8,
            InstructionType::INST_SHR => 9,
            InstructionType::INST_MUL => 10,
            InstructionType::INST_DIV => 11,
            InstructionType::INST_SUB => 12,
            InstructionType::INST_JMPZ => 13,
            InstructionType::INST_JMPEQ => 14,
            InstructionType::INST_JMPNEQ => 15,
            InstructionType::INST_JMPNZ => 16,
            InstructionType::INST_PUSH_STR => 17,
            InstructionType::INST_ALLOC => 18,
            InstructionType::INST_ALLOC_RAW => 19,
            InstructionType::INST_SYSCALL => 20,
            InstructionType::INST_DUP => 21,
            InstructionType::INST_INSWAP => 22,
            InstructionType::INST_PRINT => 23,
            InstructionType::INST_LOAD => 24,
            InstructionType::INST_STORE => 25,
            InstructionType::INST_DEREF => 26,
            InstructionType::INST_REF => 27,
            InstructionType::INST_DEBUG => 28,
            InstructionType::INST_CALL => 29,
            InstructionType::INST_RET => 30,
            InstructionType::INST_PUT => 31,
            InstructionType::INST_STD_SYSCALL => 32,
            InstructionType::INST_DLL_LOAD => 33,
            InstructionType::INST_DLL_CALL => 34,
        }
    }

    /// The opcode that a byte decodes to, if any.
    pub open spec fn from_opcode_spec(value: u8) -> Option<InstructionType> {
        if value == 0 { Some(InstructionType::INST_NOOP) }
        else if value == 1 { Some(InstructionType::INST_PUSH) }
        else if value == 2 { Some(InstructionType::INST_POP) }
        else if value == 3 { Some(InstructionType::INST_ADD) }
        else if value == 4 { Some(InstructionType::INST_AND) }
        else if value == 5 { Some(InstructionType::INST_OR) }
        else if value == 6 { Some(InstructionType::INST_XOR) }
        else if value == 7 { Some(InstructionType::INST_NOT) }
        else if value == 8 { Some(InstructionType::INST_SHL) }
        else if value == 9 { Some(InstructionType::INST_SHR) }
        else if value == 10 { Some(InstructionType::INST_MUL) }
        else if value == 11 { Some(InstructionType::INST_DIV) }
        else if value == 12 { Some(InstructionType::INST_SUB) }
        else if value == 13 { Some(InstructionType::INST_JMPZ) }
        else if value == 14 { Some(InstructionType::INST_JMPEQ) }
        else if value == 15 { Some(InstructionType::INST_JMPNEQ) }
        else if value == 16 { Some(InstructionType::INST_JMPNZ) }
        else if value == 17 { Some(InstructionType::INST_PUSH_STR) }
        else if value == 18 { Some(InstructionType::INST_ALLOC) }
        else if value == 19 { Some(InstructionType::INST_ALLOC_RAW) }
        else if value == 20 { Some(InstructionType::INST_SYSCALL) }
        else if value == 21 { Some(InstructionType::INST_DUP) }
        else if value == 22 { Some(InstructionType::INST_INSWAP) }
        else if value == 23 { Some(InstructionType::INST_PRINT) }
        else if value == 24 { Some(InstructionType::INST_LOAD) }
        else if value == 25 { Some(InstructionType::INST_STORE) }
        else if value == 26 { Some(InstructionType::INST_DEREF) }
        else if value == 27 { Some(InstructionType::INST_REF) }
        else if value == 28 { Some(InstructionType::INST_DEBUG) }
        else if value == 29 { Some(InstructionType::INST_CALL) }
        else if value == 30 { Some(InstructionType::INST_RET) }
        else if value == 31 { Some(InstructionType::INST_PUT) }
        else if value == 32 { Some(InstructionType::INST_STD_SYSCALL) }
        else if value == 33 { Some(InstructionType::INST_DLL_LOAD) }
        else if value == 34 { Some(InstructionType::INST_DLL_CALL) }
        else { None }
    }

    /// The opcode byte, executable form.
    pub fn opcode(&self) -> (r: u8)
        ensures
            r == self.opcode_spec(),
    {
        match self {
            InstructionType::INST_NOOP => 0,
            InstructionType::INST_PUSH => 1,
            InstructionType::INST_POP => 2,
            InstructionType::INST_ADD => 3,
            InstructionType::INST_AND => 4,
            InstructionType::INST_OR => 5,
            InstructionType::INST_XOR => 6,
            InstructionType::INST_NOT => 7,
            InstructionType::INST_SHL => 8,
            InstructionType::INST_SHR => 9,
            InstructionType::INST_MUL => 10,
            InstructionType::INST_DIV => 11,
            InstructionType::INST_SUB => 12,
            InstructionType::INST_JMPZ => 13,
            InstructionType::INST_JMPEQ => 14,
            InstructionType::INST_JMPNEQ => 15,
            InstructionType::INST_JMPNZ => 16,
            InstructionType::INST_PUSH_STR => 17,
            InstructionType::INST_ALLOC => 18,
            InstructionType::INST_ALLOC_RAW => 19,
            InstructionType::INST_SYSCALL => 20,
            InstructionType::INST_DUP => 21,
            InstructionType::INST_INSWAP => 22,
            InstructionType::INST_PRINT => 23,
            InstructionType::INST_LOAD => 24,
            InstructionType::INST_STORE => 25,
            InstructionType::INST_DEREF => 26,
            InstructionType::INST_REF => 27,
            InstructionType::INST_DEBUG => 28,
            InstructionType::INST_CALL => 29,
            InstructionType::INST_RET => 30,
            InstructionType::INST_PUT => 31,
            InstructionType::INST_STD_SYSCALL => 32,
            InstructionType::INST_DLL_LOAD => 33,
            InstructionType::INST_DLL_CALL => 34,
        }
    }

    /// Decode an opcode byte; an unknown byte is an error.
    pub fn try_from(value: u8) -> (r: Result<InstructionType, ()>)
        ensures
            match r {
                Ok(tt) => Self::from_opcode_spec(value) == Some(tt),
                Err(()) => Self::from_opcode_spec(value) is None,
            },
    {
        if value == 0 { Ok(InstructionType::INST_NOOP) }
        else if value == 1 { Ok(InstructionType::INST_PUSH) }
        else if value == 2 { Ok(InstructionType::INST_POP) }
        else if value == 3 { Ok(InstructionType::INST_ADD) }
        else if value == 4 { Ok(InstructionType::INST_AND) }
        else if value == 5 { Ok(InstructionType::INST_OR) }
        else if value == 6 { Ok(InstructionType::INST_XOR) }
        else if value == 7 { Ok(InstructionType::INST_NOT) }
        else if value == 8 { Ok(InstructionType::INST_SHL) }
        else if value == 9 { Ok(InstructionType::INST_SHR) }
        else if value == 10 { Ok(InstructionType::INST_MUL) }
        else if value == 11 { Ok(InstructionType::INST_DIV) }
        else if value == 12 { Ok(InstructionType::INST_SUB) }
        else if value == 13 { Ok(InstructionType::INST_JMPZ) }
        else if value == 14 { Ok(InstructionType::INST_JMPEQ) }
        else if value == 15 { Ok(InstructionType::INST_JMPNEQ) }
        else if value == 16 { Ok(InstructionType::INST_JMPNZ) }
        else if value == 17 { Ok(InstructionType::INST_PUSH_STR) }
        else if value == 18 { Ok(InstructionType::INST_ALLOC) }
        else if value == 19 { Ok(InstructionType::INST_ALLOC_RAW) }
        else if value == 20 { Ok(InstructionType::INST_SYSCALL) }
        else if value == 21 { Ok(InstructionType::INST_DUP) }
        else if value == 22 { Ok(InstructionType::INST_INSWAP) }
        else if value == 23 { Ok(InstructionType::INST_PRINT) }
        else if value == 24 { Ok(InstructionType::INST_LOAD) }
        else if value == 25 { Ok(InstructionType::INST_STORE) }
        else if value == 26 { Ok(InstructionType::INST_DEREF) }
        else if value == 27 { Ok(InstructionType::INST_REF) }
        else if value == 28 { Ok(InstructionType::INST_DEBUG) }
        else if value == 29 { Ok(InstructionType::INST_CALL) }
        else if value == 30 { Ok(InstructionType::INST_RET) }
        else if value == 31 { Ok(InstructionType::INST_PUT) }
        else if value == 32 { Ok(InstructionType::INST_STD_SYSCALL) }
        else if value == 33 { Ok(InstructionType::INST_DLL_LOAD) }
        else if value == 34 { Ok(InstructionType::INST_DLL_CALL) }
        else { Err(()) }
    }

    /// How many logical arguments the assembler expects after the mnemonic:
    /// most opcodes take none or one; `DLL_CALL` takes a count and a name.
    pub open spec fn arity_spec(self) -> nat {
        match self {
            InstructionType::INST_PUSH => 1,
            InstructionType::INST_JMPZ => 1,
            InstructionType::INST_JMPEQ => 1,
            InstructionType::INST_JMPNEQ => 1,
            InstructionType::INST_JMPNZ => 1,
            InstructionType::INST_PUSH_STR => 1,
            InstructionType::INST_ALLOC => 1,
            InstructionType::INST_ALLOC_RAW => 1,
            InstructionType::INST_SYSCALL => 1,
            InstructionType::INST_INSWAP => 1,
            InstructionType::INST_LOAD => 1,
            InstructionType::INST_STORE => 1,
            InstructionType::INST_CALL => 1,
            InstructionType::INST_STD_SYSCALL => 1,
            InstructionType::INST_DLL_CALL => 2,
            _ => 0,
        }
    }

    /// The operand-count table, executable form.
    pub fn arity(&self) -> (r: usize)
        ensures
            r == self.arity_spec(),
    {
        match self {
            InstructionType::INST_PUSH => 1,
            InstructionType::INST_JMPZ => 1,
            InstructionType::INST_JMPEQ => 1,
            InstructionType::INST_JMPNEQ => 1,
            InstructionType::INST_JMPNZ => 1,
            InstructionType::INST_PUSH_STR => 1,
            InstructionType::INST_ALLOC => 1,
            InstructionType::INST_ALLOC_RAW => 1,
            InstructionType::INST_SYSCALL => 1,
            InstructionType::INST_INSWAP => 1,
            InstructionType::INST_LOAD => 1,
            InstructionType::INST_STORE => 1,
            InstructionType::INST_CALL => 1,
            InstructionType::INST_STD_SYSCALL => 1,
            InstructionType::INST_DLL_CALL => 2,
            _ => 0,
        }
    }
}

/// Decoding inverts encoding on every opcode.
pub proof fn lemma_opcode_round_trip(tt: InstructionType)
    ensures
        InstructionType::from_opcode_spec(tt.opcode_spec()) == Some(tt),
{
}

/// An instruction: an opcode and its optional immediate operands.
#[derive(Debug, Clone, PartialEq, Eq)]
pub struct Instruction {
    pub tt: InstructionType,
    pub values: Option<Vec<Word>>,
}

impl Instruction {
    /// The operand sequence, with `None` read as empty.
    pub open spec fn args_spec(self) -> Seq<Word> {
        match self.values {
            Some(v) => v@,
            None => Seq::empty(),
        }
    }

    /// Well-formed for serialization: at most 255 operands, each of them
    /// encodable, and no empty operand vector standing in for `None`.
    pub open spec fn wf(self) -> bool {
        &&& self.args_spec().len() <= 255
        &&& (forall|i: int| 0 <= i < self.args_spec().len() ==> (#[trigger] self.args_spec()[i]).wf())
        &&& (self.values matches Some(v) ==> v@.len() > 0)
    }
}


/// A `PUSH` of an unsigned immediate.
#[allow(non_snake_case)]
pub fn DEFINE_PUSH(x: u16) -> (r: Instruction)
    ensures
        r.tt == InstructionType::INST_PUSH,
        r.args_spec() == seq![Word::U16(x)],
{
    let vs = vec![Word::U16(x)];
    proof {
        assert(vs@ =~= seq![Word::U16(x)]);
    }
    Instruction { tt: InstructionType::INST_PUSH, values: Some(vs) }
}

/// An instruction with no operands.
fn plain(tt: InstructionType) -> (r: Instruction)
    ensures
        r.tt == tt,
        r.values is None,
        r.args_spec() == Seq::<Word>::empty(),
{
    Instruction { tt, values: None }
}

/// An instruction with one unsigned operand.
fn with_u16(tt: InstructionType, x: u16) -> (r: Instruction)
    ensures
        r.tt == tt,
        r.args_spec() == seq![Word::U16(x)],
{
    let vs = vec![Word::U16(x)];
    proof {
        assert(vs@ =~= seq![Word::U16(x)]);
    }
    Instruction { tt, values: Some(vs) }
}

/// An instruction with one signed operand.
fn with_i16(tt: InstructionType, x: i16) -> (r: Instruction)
    ensures
        r.tt == tt,
        r.args_spec() == seq![Word::I16(x)],
{
    let vs = vec![Word::I16(x)];
    proof {
        assert(vs@ =~= seq![Word::I16(x)]);
    }
    Instruction { tt, values: Some(vs) }
}

#[allow(non_snake_case)]
pub fn DEFINE_POP() -> (r: Instruction)
    ensures
        r.tt == InstructionType::INST_POP && r.values is None,
{
    plain(InstructionType::INST_POP)
}

#[allow(non_snake_case)]
pub fn DEFINE_ADD() -> (r: Instruction)
    ensures
        r.tt == InstructionType::INST_ADD && r.values is None,
{
    plain(InstructionType::INST_ADD)
}

#[allow(non_snake_case)]
pub fn DEFINE_MUL() -> (r: Instruction)
    ensures
        r.tt == InstructionType::INST_MUL && r.values is None,
{
    plain(InstructionType::INST_MUL)
}

#[allow(non_snake_case)]
pub fn DEFINE_DIV() -> (r: Instruction)
    ensures
        r.tt == InstructionType::INST_DIV && r.values is None,
{
    plain(InstructionType::INST_DIV)
}

#[allow(non_snake_case)]
pub fn DEFINE_SUB() -> (r: Instruction)
    ensures
        r.tt == InstructionType::INST_SUB && r.values is None,
{
    plain(InstructionType::INST_SUB)
}

#[allow(non_snake_case)]
pub fn DEFINE_JMPZ(x: i16) -> (r: Instruction)
    ensures
        r.tt == InstructionType::INST_JMPZ,
        r.args_spec() == seq![Word::I16(x)],
{
    with_i16(InstructionType::INST_JMPZ, x)
}

#[allow(non_snake_case)]
pub fn DEFINE_JMPEQ(x: i16) -> (r: Instruction)
    ensures
        r.tt == InstructionType::INST_JMPEQ,
        r.args_spec() == seq![Word::I16(x)],
{
    with_i16(InstructionType::INST_JMPEQ, x)
}

#[allow(non_snake_case)]
pub fn DEFINE_JMPNZ(x: i16) -> (r: Instruction)
    ensures
        r.tt == InstructionType::INST_JMPNZ,
        r.args_spec() == seq![Word::I16(x)],
{
    with_i16(InstructionType::INST_JMPNZ, x)
}

/// A `PUSH_STR` with its length and characters inline.
#[allow(non_snake_case)]
pub fn DEFINE_PUSH_STR(x: &str) -> (r: Instruction)
    ensures
        r.tt == InstructionType::INST_PUSH_STR,
        r.args_spec().len() == x@.len() + 1,
        r.args_spec()[0] == Word::U16(x@.len() as u16),
        forall|i: int| 0 <= i < x@.len() ==> r.args_spec()[i + 1] == Word::Char(x@[i]),
{
    let cs = crate::lexer::str_chars(x);
    let n = cs.len();
    let l: u16 = #[verifier::truncate] (n as u16);
    let mut vs: Vec<Word> = Vec::new();
    vs.push(Word::U16(l));
    let mut i: usize = 0;
    while i < n
        invariant
            i <= n,
            n == cs@.len(),
            cs@ == x@,
            l == cs@.len() as u16,
            vs@.len() == i + 1,
            vs@[0] == Word::U16(l),
            forall|j: int| 0 <= j < i ==> (#[trigger] vs@[j + 1]) == Word::Char(cs@[j]),
        decreases n - i,
    {
        let c = cs[i];
        let w = char_operand(c);
        vs.push(w);
        i = i + 1;
    }
    Instruction { tt: InstructionType::INST_PUSH_STR, values: Some(vs) }
}

/// A character operand word.
fn char_operand(c: char) -> (w: Word)
    ensures
        w == Word::Char(c),
{
    Word::Char(c)
}

#[allow(non_snake_case)]
pub fn DEFINE_SYSCALL(x: u16) -> (r: Instruction)
    ensures
        r.tt == InstructionType::INST_SYSCALL,
        r.args_spec() == seq![Word::U16(x)],
{
    with_u16(InstructionType::INST_SYSCALL, x)
}

#[allow(non_snake_case)]
pub fn DEFINE_ALLOC(x: u16) -> (r: Instruction)
    ensures
        r.tt == InstructionType::INST_ALLOC,
        r.args_spec() == seq![Word::U16(x)],
{
    with_u16(InstructionType::INST_ALLOC, x)
}

#[allow(non_snake_case)]
pub fn DEFINE_ALLOC_RAW(x: u16) -> (r: Instruction)
    ensures
        r.tt == InstructionType::INST_ALLOC_RAW,
        r.args_spec() == seq![Word::U16(x)],
{
    with_u16(InstructionType::INST_ALLOC_RAW, x)
}

#[allow(non_snake_case)]
pub fn DEFINE_DUP() -> (r: Instruction)
    ensures
        r.tt == InstructionType::INST_DUP && r.values is None,
{
    plain(InstructionType::INST_DUP)
}

#[allow(non_snake_case)]
pub fn DEFINE_INSWAP(x: u16) -> (r: Instruction)
    ensures
        r.tt == InstructionType::INST_INSWAP,
        r.args_spec() == seq![Word::U16(x)],
{
    with_u16(InstructionType::INST_INSWAP, x)
}

#[allow(non_snake_case)]
pub fn DEFINE_PRINT() -> (r: Instruction)
    ensures
        r.tt == InstructionType::INST_PRINT && r.values is None,
{
    plain(InstructionType::INST_PRINT)
}

/// A `LOAD`, with or without its pool index.
#[allow(non_snake_case)]
pub fn DEFINE_LOAD(x: Option<u16>) -> (r: Instruction)
    ensures
        r.tt == InstructionType::INST_LOAD,
        match x {
            Some(v) => r.args_spec() == seq![Word::U16(v)],
            None => r.values is None,
        },
{
    match x {
        Some(v) => with_u16(InstructionType::INST_LOAD, v),
        None => plain(InstructionType::INST_LOAD),
    }
}

#[allow(non_snake_case)]
pub fn DEFINE_STORE(x: u16) -> (r: Instruction)
    ensures
        r.tt == InstructionType::INST_STORE,
        r.args_spec() == seq![Word::U16(x)],
{
    with_u16(InstructionType::INST_STORE, x)
}

#[allow(non_snake_case)]
pub fn DEFINE_DEREF() -> (r: Instruction)
    ensures
        r.tt == InstructionType::INST_DEREF && r.values is None,
{
    plain(InstructionType::INST_DEREF)
}

/// A `DEREF` carrying an explicit operand, which execution ignores.
#[allow(non_snake_case)]
pub fn DEFINE_DEREF_FOREIGN(x: u16) -> (r: Instruction)
    ensures
        r.tt == InstructionType::INST_DEREF,
        r.args_spec() == seq![Word::U16(x)],
{
    with_u16(InstructionType::INST_DEREF, x)
}

#[allow(non_snake_case)]
pub fn DEFINE_REF() -> (r: Instruction)
    ensures
        r.tt == InstructionType::INST_REF && r.values is None,
{
    plain(InstructionType::INST_REF)
}

#[allow(non_snake_case)]
pub fn DEBUG() -> (r: Instruction)
    ensures
        r.tt == InstructionType::INST_DEBUG && r.values is None,
{
    plain(InstructionType::INST_DEBUG)
}

#[allow(non_snake_case)]
pub fn DEFINE_CALL(x: u16) -> (r: Instruction)
    ensures
        r.tt == InstructionType::INST_CALL,
        r.args_spec() == seq![Word::U16(x)],
{
    with_u16(InstructionType::INST_CALL, x)
}

#[allow(non_snake_case)]
pub fn DEFINE_RET() -> (r: Instruction)
    ensures
        r.tt == InstructionType::INST_RET && r.values is None,
{
    plain(InstructionType::INST_RET)
}

#[allow(non_snake_case)]
pub fn DEFINE_PUT() -> (r: Instruction)
    ensures
        r.tt == InstructionType::INST_PUT && r.values is None,
{
    plain(InstructionType::INST_PUT)
}

#[allow(non_snake_case)]
pub fn DEFINE_STD_SYSCALL(x: u16) -> (r: Instruction)
    ensures
        r.tt == InstructionType::INST_STD_SYSCALL,
        r.args_spec() == seq![Word::U16(x)],
{
    with_u16(InstructionType::INST_STD_SYSCALL, x)
}

#[allow(non_snake_case)]
pub fn DEFINE_DLL_LOAD() -> (r: Instruction)
    ensures
        r.tt == InstructionType::INST_DLL_LOAD && r.values is None,
{
    plain(InstructionType::INST_DLL_LOAD)
}

/// A `DLL_CALL` with its argument count and its symbol name inline.
#[allow(non_snake_case)]
pub fn DEFINE_DLL_CALL(arg_count: u16, x: &str) -> (r: Instruction)
    ensures
        r.tt == InstructionType::INST_DLL_CALL,
        r.args_spec().len() == x@.len() + 2,
        r.args_spec()[0] == Word::U16(arg_count),
        r.args_spec()[1] == Word::U16(x@.len() as u16),
        forall|i: int| 0 <= i < x@.len() ==> r.args_spec()[i + 2] == Word::Char(x@[i]),
{
    let cs = crate::lexer::str_chars(x);
    let n = cs.len();
    let l: u16 = #[verifier::truncate] (n as u16);
    let mut vs: Vec<Word> = Vec::new();
    vs.push(Word::U16(arg_count));
    vs.push(Word::U16(l));
    let mut i: usize = 0;
    while i < n
        invariant
            i <= n,
            n == cs@.len(),
            cs@ == x@,
            l == cs@.len() as u16,
            vs@.len() == i + 2,
            vs@[0] == Word::U16(arg_count),
            vs@[1] == Word::U16(l),
            forall|j: int| 0 <= j < i ==> (#[trigger] vs@[j + 2]) == Word::Char(cs@[j]),
        decreases n - i,
    {
        let c = cs[i];
        let w = char_operand(c);
        vs.push(w);
        i = i + 1;
    }
    Instruction { tt: InstructionType::INST_DLL_CALL, values: Some(vs) }
}

} // verus!
