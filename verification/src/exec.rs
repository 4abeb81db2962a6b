//! Execution: one fetch/decode/execute step at a time. Work that only the
//! host can do — printing, host syscalls, files, dynamic libraries — is
//! returned to the caller as an `Effect`; the caller performs it and hands
//! any result back through the resume functions.

use vstd::prelude::*;
use crate::instruction::InstructionType;
use crate::vm::{covers, range_disjoint, range_in_region, MemRange, QuarkVM, VmFault, CONST_POOL_SIZE, MAX_STACK_SIZE};
use crate::word::{PointerType, StackValues, Word};

verus! {

/// Outside work that an instruction asks the host to do.
#[derive(Debug, Clone, PartialEq, Eq)]
pub enum Effect {
    /// Nothing for the host; step again.
    Quiet,
    /// Write the value to standard output in a readable form.
    Print(StackValues),
    /// Dump the machine state for inspection.
    Debug,
    /// Terminate with the given code.
    Exit(u16),
    /// Invoke a raw host syscall; the host pushes the result back.
    Syscall { num: u16, args: Vec<StackValues> },
    /// Open the named file and register it; the path is the cell string's
    /// values. The host calls `register_fd` with its entry index.
    OpenFile { path: Vec<u16> },
    /// Read up to `len` bytes from the entry `entry` into the raw region at
    /// `addr`; the host calls `complete_read`.
    Read { addr: u16, entry: u16, len: u16 },
    /// Write the given bytes to the entry `entry`; the host pushes the count
    /// transferred back.
    Write { data: Vec<u8>, entry: u16 },
    /// Open the named shared library; the host calls `register_library`.
    LoadLibrary { path: Vec<u16> },
    /// Call the named symbol of the library `handle` with the given
    /// arguments; the host pushes the returned value back.
    ForeignCall { handle: u16, symbol: Vec<u16>, args: Vec<StackValues> },
}

/// The opcodes that pop two operands and push one result.
pub open spec fn is_binop(op: InstructionType) -> bool {
    ||| op == InstructionType::INST_ADD
    ||| op == InstructionType::INST_SUB
    ||| op == InstructionType::INST_MUL
    ||| op == InstructionType::INST_DIV
    ||| op == InstructionType::INST_AND
    ||| op == InstructionType::INST_OR
    ||| op == InstructionType::INST_XOR
    ||| op == InstructionType::INST_SHL
    ||| op == InstructionType::INST_SHR
}

/// The straight-line opcodes: no branching and a fixed stack effect, with
/// the program counter advancing by one.
pub open spec fn is_straight_op(op: InstructionType) -> bool {
    ||| is_binop(op)
    ||| op == InstructionType::INST_NOOP
    ||| op == InstructionType::INST_PUSH
    ||| op == InstructionType::INST_POP
    ||| op == InstructionType::INST_NOT
    ||| op == InstructionType::INST_DUP
    ||| op == InstructionType::INST_INSWAP
    ||| op == InstructionType::INST_LOAD
    ||| op == InstructionType::INST_STORE
    ||| op == InstructionType::INST_PUSH_STR
    ||| op == InstructionType::INST_ALLOC
    ||| op == InstructionType::INST_ALLOC_RAW
    ||| op == InstructionType::INST_DEREF
    ||| op == InstructionType::INST_REF
    ||| op == InstructionType::INST_PUT
    ||| op == InstructionType::INST_PRINT
    ||| op == InstructionType::INST_DEBUG
}

/// How a straight-line opcode changes the stack height when it succeeds.
pub open spec fn net_stack_effect(op: InstructionType) -> int {
    if is_binop(op) {
        -1
    } else if op == InstructionType::INST_PUSH || op == InstructionType::INST_DUP || op
        == InstructionType::INST_LOAD || op == InstructionType::INST_PUSH_STR || op
        == InstructionType::INST_ALLOC || op == InstructionType::INST_ALLOC_RAW || op
        == InstructionType::INST_REF {
        1
    } else if op == InstructionType::INST_POP || op == InstructionType::INST_STORE {
        -1
    } else if op == InstructionType::INST_PUT {
        -2
    } else {
        0
    }
}

/// An address within a live allocation of the region, the one-past-the-end
/// address included: the bound pointer arithmetic is validated against.
pub open spec fn in_alloc_incl(allocs: Seq<MemRange>, a: int, region: PointerType) -> bool {
    exists|i: int|
        0 <= i < allocs.len() && (#[trigger] allocs[i]).region == region && allocs[i].base <= a
            <= allocs[i].base + allocs[i].size
}

/// The index of the live allocation that covers an address of a region.
pub open spec fn covering_index(allocs: Seq<MemRange>, a: int, rg: PointerType) -> int {
    choose|i: int|
        0 <= i < allocs.len() && (#[trigger] allocs[i]).region == rg && allocs[i].base <= a
            < allocs[i].base + allocs[i].size
}

/// Under the heap invariant, at most one allocation covers an address.
proof fn lemma_covering_unique(vm: QuarkVM, a: int, rg: PointerType, k: int)
    requires
        vm.wf(),
        0 <= k < vm.allocated_memory@.len(),
        vm.allocated_memory@[k].region == rg,
        vm.allocated_memory@[k].base <= a < vm.allocated_memory@[k].base
            + vm.allocated_memory@[k].size,
    ensures
        covering_index(vm.allocated_memory@, a, rg) == k,
{
    let m = covering_index(vm.allocated_memory@, a, rg);
    assert(0 <= m < vm.allocated_memory@.len() && vm.allocated_memory@[m].region == rg
        && vm.allocated_memory@[m].base <= a < vm.allocated_memory@[m].base
        + vm.allocated_memory@[m].size);
    if m != k {
        assert(vm.entries()[m] == vm.allocated_memory@[m]);
        assert(vm.entries()[k] == vm.allocated_memory@[k]);
        if m < k {
            assert(range_disjoint(vm.entries()[m], vm.entries()[k]));
        } else {
            assert(range_disjoint(vm.entries()[k], vm.entries()[m]));
        }
        assert(false);
    }
}

/// Truncated 16-bit signed division, the machine's `DIV` on signed words:
/// the quotient rounds toward zero, and the one overflowing case wraps.
pub open spec fn i16_div_spec(t: i16, s: i16) -> i16 {
    let ta = if t < 0 {
        -(t as int)
    } else {
        t as int
    };
    let sa = if s < 0 {
        -(s as int)
    } else {
        s as int
    };
    let q = ta / sa;
    if (t < 0) == (s < 0) {
        q as i16
    } else {
        (-q) as i16
    }
}

/// What a two-operand opcode produces from the popped top `t`, the value
/// `s` below it, and the allocation table (for pointer arithmetic), or the
/// fault it dies with.
pub open spec fn binop_spec(
    op: InstructionType,
    t: StackValues,
    s: StackValues,
    allocs: Seq<MemRange>,
) -> Result<StackValues, VmFault> {
    match (t, s) {
        (StackValues::U16(t), StackValues::U16(s)) => if op == InstructionType::INST_ADD {
            Ok(StackValues::U16((t + s) as u16))
        } else if op == InstructionType::INST_SUB {
            Ok(StackValues::U16(if s >= t { (s - t) as u16 } else { 0u16 }))
        } else if op == InstructionType::INST_MUL {
            Ok(StackValues::U16((t * s) as u16))
        } else if op == InstructionType::INST_DIV {
            if s == 0 {
                Err(VmFault::DivisionByZero)
            } else {
                Ok(StackValues::U16(t / s))
            }
        } else if op == InstructionType::INST_AND {
            Ok(StackValues::U16(t & s))
        } else if op == InstructionType::INST_OR {
            Ok(StackValues::U16(t | s))
        } else if op == InstructionType::INST_XOR {
            Ok(StackValues::U16(t ^ s))
        } else if op == InstructionType::INST_SHL {
            if s >= 16 {
                Err(VmFault::ShiftOutOfRange)
            } else {
                Ok(StackValues::U16(((t as u32) << s) as u16))
            }
        } else if op == InstructionType::INST_SHR {
            if s >= 16 {
                Err(VmFault::ShiftOutOfRange)
            } else {
                Ok(StackValues::U16(t >> s))
            }
        } else {
            Err(VmFault::TypeMismatch)
        },
        (StackValues::I16(t), StackValues::I16(s)) => if op == InstructionType::INST_ADD {
            Ok(StackValues::I16((t + s) as i16))
        } else if op == InstructionType::INST_SUB {
            Ok(StackValues::I16((s - t) as i16))
        } else if op == InstructionType::INST_MUL {
            Ok(StackValues::I16((t * s) as i16))
        } else if op == InstructionType::INST_DIV {
            if s == 0 {
                Err(VmFault::DivisionByZero)
            } else {
                Ok(StackValues::I16(i16_div_spec(t, s)))
            }
        } else if op == InstructionType::INST_AND {
            Ok(StackValues::I16(t & s))
        } else if op == InstructionType::INST_OR {
            Ok(StackValues::I16(t | s))
        } else if op == InstructionType::INST_XOR {
            Ok(StackValues::I16(t ^ s))
        } else if op == InstructionType::INST_SHL {
            if s < 0 || s >= 16 {
                Err(VmFault::ShiftOutOfRange)
            } else {
                Ok(StackValues::I16(((t as i32) << s) as i16))
            }
        } else if op == InstructionType::INST_SHR {
            if s < 0 || s >= 16 {
                Err(VmFault::ShiftOutOfRange)
            } else {
                Ok(StackValues::I16(((t as i32) >> s) as i16))
            }
        } else {
            Err(VmFault::TypeMismatch)
        },
        (StackValues::U16(off), StackValues::Pointer(p, rg)) => if op
            == InstructionType::INST_ADD {
            if p + off <= 65535 && in_alloc_incl(allocs, p + off, rg) {
                Ok(StackValues::Pointer((p + off) as u16, rg))
            } else {
                Err(VmFault::InvalidPointer)
            }
        } else if op == InstructionType::INST_SUB {
            if p - off >= 0 && in_alloc_incl(allocs, p - off, rg) {
                Ok(StackValues::Pointer((p - off) as u16, rg))
            } else {
                Err(VmFault::InvalidPointer)
            }
        } else {
            Err(VmFault::TypeMismatch)
        },
        (StackValues::Pointer(p, rg), StackValues::U16(off)) => if op
            == InstructionType::INST_ADD {
            if p + off <= 65535 && in_alloc_incl(allocs, p + off, rg) {
                Ok(StackValues::Pointer((p + off) as u16, rg))
            } else {
                Err(VmFault::InvalidPointer)
            }
        } else if op == InstructionType::INST_SUB {
            if p - off >= 0 && in_alloc_incl(allocs, p - off, rg) {
                Ok(StackValues::Pointer((p - off) as u16, rg))
            } else {
                Err(VmFault::InvalidPointer)
            }
        } else {
            Err(VmFault::TypeMismatch)
        },
        _ => Err(VmFault::TypeMismatch),
    }
}

/// The value of a numeric stack entry read as a signed word, the coercion
/// the conditional jumps apply; a pointer has none.
pub open spec fn as_signed(v: StackValues) -> Option<i16> {
    match v {
        StackValues::U16(x) => Some(x as i16),
        StackValues::I16(x) => Some(x),
        StackValues::Pointer(_, _) => None,
    }
}

/// The jump target carried by an instruction's first operand.
pub open spec fn jump_target_spec(args: Seq<Word>) -> Result<u16, VmFault> {
    if args.len() == 0 {
        Err(VmFault::MissingOperand)
    } else {
        match args[0] {
            Word::U16(v) => Ok(v),
            Word::I16(v) => Ok(v as u16),
            _ => Err(VmFault::BadOperand),
        }
    }
}


/// The immediate a `PUSH` carries, as a stack value.
pub open spec fn push_imm_spec(args: Seq<Word>) -> Result<StackValues, VmFault> {
    if args.len() == 0 {
        Err(VmFault::MissingOperand)
    } else {
        match args[0] {
            Word::U16(v) => Ok(StackValues::U16(v)),
            Word::I16(v) => Ok(StackValues::I16(v)),
            _ => Err(VmFault::BadOperand),
        }
    }
}

/// The `U16` immediate many opcodes carry (a size, an index, a count).
pub open spec fn u16_imm_spec(args: Seq<Word>) -> Result<u16, VmFault> {
    if args.len() == 0 {
        Err(VmFault::MissingOperand)
    } else {
        match args[0] {
            Word::U16(v) => Ok(v),
            _ => Err(VmFault::BadOperand),
        }
    }
}

/// The cell-region string starting at `a`: the run of nonzero numeric cells
/// before a zero cell, or nothing if the run leaves the region or meets a
/// cell that is not a `U16`.
pub open spec fn cell_string_at(heap: Seq<StackValues>, a: int) -> Option<Seq<u16>>
    decreases heap.len() - a,
{
    if a < 0 || a >= heap.len() {
        None
    } else {
        match heap[a] {
            StackValues::U16(x) => if x == 0 {
                Some(Seq::empty())
            } else {
                match cell_string_at(heap, a + 1) {
                    Some(s) => Some(seq![x] + s),
                    None => None,
                }
            },
            _ => None,
        }
    }
}

/// The raw-region string starting at `a`: bytes before a zero byte, widened.
pub open spec fn raw_string_at(memory: Seq<u8>, a: int) -> Option<Seq<u16>>
    decreases memory.len() - a,
{
    if a < 0 || a >= memory.len() {
        None
    } else if memory[a] == 0 {
        Some(Seq::empty())
    } else {
        match raw_string_at(memory, a + 1) {
            Some(s) => Some(seq![memory[a] as u16] + s),
            None => None,
        }
    }
}

impl QuarkVM {
    /// Everything but the stack is as it was.
    pub open spec fn only_stack_changed(self, other: Self) -> bool {
        &&& self.memory == other.memory
        &&& self.heap == other.heap
        &&& self.constant_pools == other.constant_pools
        &&& self.call_stack == other.call_stack
        &&& self.free_list == other.free_list
        &&& self.allocated_memory == other.allocated_memory
        &&& self.pc == other.pc
        &&& self.running == other.running
        &&& self.instructions == other.instructions
        &&& self.fd_table == other.fd_table
        &&& self.dll_count == other.dll_count
    }

    /// Whether an address sits inside a live allocation of the region, with
    /// the one-past-the-end address accepted when `incl` asks for it.
    fn address_in_allocation(&self, a: u32, region: PointerType, incl: bool) -> (r: bool)
        ensures
            incl ==> r == in_alloc_incl(self.allocated_memory@, a as int, region),
            !incl ==> r == covers(self.allocated_memory@, a as int, region),
    {
        let mut i: usize = 0;
        while i < self.allocated_memory.len()
            invariant
                i <= self.allocated_memory@.len(),
                forall|k: int|
                    0 <= k < i ==> !((#[trigger] self.allocated_memory@[k]).region == region
                        && self.allocated_memory@[k].base <= a as int && (if incl {
                        a as int <= self.allocated_memory@[k].base
                            + self.allocated_memory@[k].size
                    } else {
                        (a as int) < self.allocated_memory@[k].base
                            + self.allocated_memory@[k].size
                    })),
            decreases self.allocated_memory@.len() - i,
        {
            let e = self.allocated_memory[i];
            if e.region == region && (e.base as u32) <= a {
                let end = e.base as u32 + e.size as u32;
                if (incl && a <= end) || (!incl && a < end) {
                    return true;
                }
            }
            i = i + 1;
        }
        false
    }

    /// Execute one two-operand opcode on the stack. The two operands leave
    /// the stack and the result defined by `binop_spec` replaces them; a
    /// fault leaves everything but the operands untouched.
    fn binop_step(&mut self, op: InstructionType) -> (r: Result<(), VmFault>)
        requires
            old(self).wf(),
            is_binop(op),
        ensures
            final(self).wf(),
            final(self).only_stack_changed(*old(self)),
            old(self).stack@.len() < 2 ==> r == Err::<(), VmFault>(VmFault::StackUnderflow)
                && final(self).stack == old(self).stack,
            old(self).stack@.len() >= 2 ==> match binop_spec(
                op,
                old(self).stack@.last(),
                old(self).stack@[old(self).stack@.len() - 2],
                old(self).allocated_memory@,
            ) {
                Ok(v) => r is Ok && final(self).stack@ == old(self).stack@.drop_last().drop_last()
                    .push(v),
                Err(f) => r == Err::<(), VmFault>(f) && final(self).stack@ == old(
                    self,
                ).stack@.drop_last().drop_last(),
            },
    {
        if self.stack.len() < 2 {
            return Err(VmFault::StackUnderflow);
        }
        let t = self.pop_stack();
        let s = self.pop_stack();
        let ghost spec_result = binop_spec(op, t, s, self.allocated_memory@);
        let v: StackValues = match (t, s) {
            (StackValues::U16(t), StackValues::U16(s)) => {
                match op {
                    InstructionType::INST_ADD => StackValues::U16(
                        #[verifier::truncate] ((t as u32 + s as u32) as u16),
                    ),
                    InstructionType::INST_SUB => StackValues::U16(
                        if s >= t {
                            s - t
                        } else {
                            0
                        },
                    ),
                    InstructionType::INST_MUL => {
                        proof {
                            assert((t as u32) * (s as u32) <= 0xfffe0001) by (nonlinear_arith)
                                requires
                                    t as u32 <= 65535,
                                    s as u32 <= 65535,
                            ;
                        }
                        StackValues::U16(#[verifier::truncate] ((t as u32 * s as u32) as u16))
                    },
                    InstructionType::INST_DIV => {
                        if s == 0 {
                            return Err(VmFault::DivisionByZero);
                        }
                        StackValues::U16(t / s)
                    },
                    InstructionType::INST_AND => StackValues::U16(t & s),
                    InstructionType::INST_OR => StackValues::U16(t | s),
                    InstructionType::INST_XOR => StackValues::U16(t ^ s),
                    InstructionType::INST_SHL => {
                        if s >= 16 {
                            return Err(VmFault::ShiftOutOfRange);
                        }
                        StackValues::U16(#[verifier::truncate] (((t as u32) << s) as u16))
                    },
                    _ => {
                        if s >= 16 {
                            return Err(VmFault::ShiftOutOfRange);
                        }
                        StackValues::U16(t >> s)
                    },
                }
            },
            (StackValues::I16(t), StackValues::I16(s)) => {
                match op {
                    InstructionType::INST_ADD => StackValues::I16(
                        #[verifier::truncate] ((t as i32 + s as i32) as i16),
                    ),
                    InstructionType::INST_SUB => StackValues::I16(
                        #[verifier::truncate] ((s as i32 - t as i32) as i16),
                    ),
                    InstructionType::INST_MUL => {
                        proof {
                            assert(-0x40000000 <= (t as i32) * (s as i32) <= 0x40000000)
                                by (nonlinear_arith)
                                requires
                                    -32768 <= t as i32 <= 32767,
                                    -32768 <= s as i32 <= 32767,
                            ;
                        }
                        StackValues::I16(#[verifier::truncate] ((t as i32 * s as i32) as i16))
                    },
                    InstructionType::INST_DIV => {
                        if s == 0 {
                            return Err(VmFault::DivisionByZero);
                        }
                        StackValues::I16(i16_div_exec(t, s))
                    },
                    InstructionType::INST_AND => StackValues::I16(t & s),
                    InstructionType::INST_OR => StackValues::I16(t | s),
                    InstructionType::INST_XOR => StackValues::I16(t ^ s),
                    InstructionType::INST_SHL => {
                        if s < 0 || s >= 16 {
                            return Err(VmFault::ShiftOutOfRange);
                        }
                        StackValues::I16(#[verifier::truncate] (((t as i32) << (s as u32)) as i16))
                    },
                    _ => {
                        if s < 0 || s >= 16 {
                            return Err(VmFault::ShiftOutOfRange);
                        }
                        StackValues::I16(#[verifier::truncate] (((t as i32) >> (s as u32)) as i16))
                    },
                }
            },
            (StackValues::U16(off), StackValues::Pointer(p, rg)) => {
                match self.pointer_adjust(op, p, off, rg) {
                    Ok(v) => v,
                    Err(f) => {
                        return Err(f);
                    },
                }
            },
            (StackValues::Pointer(p, rg), StackValues::U16(off)) => {
                match self.pointer_adjust(op, p, off, rg) {
                    Ok(v) => v,
                    Err(f) => {
                        return Err(f);
                    },
                }
            },
            _ => {
                return Err(VmFault::TypeMismatch);
            },
        };
        proof {
            assert(spec_result == Ok::<StackValues, VmFault>(v));
        }
        self.push_stack(v);
        Ok(())
    }

    /// Adjust a pointer by an offset, `ADD` or `SUB`, and validate the
    /// result against the allocation table, the one-past-the-end address
    /// allowed.
    fn pointer_adjust(&self, op: InstructionType, p: u16, off: u16, rg: PointerType) -> (r:
        Result<StackValues, VmFault>)
        requires
            is_binop(op),
        ensures
            r == binop_spec(
                op,
                StackValues::Pointer(p, rg),
                StackValues::U16(off),
                self.allocated_memory@,
            ),
            r == binop_spec(
                op,
                StackValues::U16(off),
                StackValues::Pointer(p, rg),
                self.allocated_memory@,
            ),
    {
        match op {
            InstructionType::INST_ADD => {
                let a = p as u32 + off as u32;
                if a <= 65535 && self.address_in_allocation(a, rg, true) {
                    Ok(StackValues::Pointer(a as u16, rg))
                } else {
                    Err(VmFault::InvalidPointer)
                }
            },
            InstructionType::INST_SUB => {
                if p >= off {
                    let a = (p - off) as u32;
                    if self.address_in_allocation(a, rg, true) {
                        Ok(StackValues::Pointer(a as u16, rg))
                    } else {
                        Err(VmFault::InvalidPointer)
                    }
                } else {
                    Err(VmFault::InvalidPointer)
                }
            },
            _ => Err(VmFault::TypeMismatch),
        }
    }

    /// Follow a zero-terminated string in the given region, returning its
    /// cell values (bytes widened for the raw region).
    pub fn get_str_from_ptr(&self, str_ptr: u16, region: PointerType) -> (r: Result<
        Vec<u16>,
        VmFault,
    >)
        ensures
            match region {
                PointerType::StackValuesPointer => match cell_string_at(
                    self.heap@,
                    str_ptr as int,
                ) {
                    Some(s) => r matches Ok(v) && v@ == s,
                    None => r == Err::<Vec<u16>, VmFault>(VmFault::InvalidString),
                },
                PointerType::RawPointer => match raw_string_at(self.memory@, str_ptr as int) {
                    Some(s) => r matches Ok(v) && v@ == s,
                    None => r == Err::<Vec<u16>, VmFault>(VmFault::InvalidString),
                },
            },
    {
        let mut acc: Vec<u16> = Vec::new();
        let mut a: usize = str_ptr as usize;
        match region {
            PointerType::StackValuesPointer => {
                while a < self.heap.len()
                    invariant
                        region == PointerType::StackValuesPointer,
                        str_ptr as int <= a,
                        cell_string_at(self.heap@, str_ptr as int) == match cell_string_at(
                            self.heap@,
                            a as int,
                        ) {
                            Some(s) => Some(acc@ + s),
                            None => None::<Seq<u16>>,
                        },
                    decreases self.heap@.len() - a,
                {
                    match self.heap[a] {
                        StackValues::U16(x) => {
                            if x == 0 {
                                proof {
                                    assert(acc@ + Seq::<u16>::empty() =~= acc@);
                                }
                                return Ok(acc);
                            }
                            let ghost acc0 = acc@;
                            acc.push(x);
                            proof {
                                if cell_string_at(self.heap@, a + 1) is Some {
                                    let s = cell_string_at(self.heap@, a + 1)->Some_0;
                                    assert((acc0 + (seq![x] + s)) =~= (acc0.push(x) + s));
                                }
                            }
                        },
                        _ => {
                            return Err(VmFault::InvalidString);
                        },
                    }
                    a = a + 1;
                }
                Err(VmFault::InvalidString)
            },
            PointerType::RawPointer => {
                while a < self.memory.len()
                    invariant
                        region == PointerType::RawPointer,
                        str_ptr as int <= a,
                        raw_string_at(self.memory@, str_ptr as int) == match raw_string_at(
                            self.memory@,
                            a as int,
                        ) {
                            Some(s) => Some(acc@ + s),
                            None => None::<Seq<u16>>,
                        },
                    decreases self.memory@.len() - a,
                {
                    let x = self.memory[a];
                    if x == 0 {
                        proof {
                            assert(acc@ + Seq::<u16>::empty() =~= acc@);
                        }
                        return Ok(acc);
                    }
                    let ghost acc0 = acc@;
                    acc.push(x as u16);
                    proof {
                        if raw_string_at(self.memory@, a + 1) is Some {
                            let s = raw_string_at(self.memory@, a + 1)->Some_0;
                            assert((acc0 + (seq![x as u16] + s)) =~= (acc0.push(x as u16) + s));
                        }
                    }
                    a = a + 1;
                }
                Err(VmFault::InvalidString)
            },
        }
    }
}

/// Truncated signed division on machine words, computed through unsigned
/// magnitudes so that the one overflowing quotient wraps.
fn i16_div_exec(t: i16, s: i16) -> (r: i16)
    requires
        s != 0,
    ensures
        r == i16_div_spec(t, s),
{
    let ta: u32 = if t < 0 {
        (-(t as i32)) as u32
    } else {
        t as u32
    };
    let sa: u32 = if s < 0 {
        (-(s as i32)) as u32
    } else {
        s as u32
    };
    let q: u32 = ta / sa;
    if (t < 0) == (s < 0) {
        #[verifier::truncate] (q as i16)
    } else {
        proof {
            assert(q <= 32768);
        }
        #[verifier::truncate] ((-(q as i32)) as i16)
    }
}

} // verus!

verus! {

/// The character payloads of a run of `Char` words, as 16-bit values.
pub open spec fn chars_of_words(ws: Seq<Word>) -> Option<Seq<u16>>
    decreases ws.len(),
{
    if ws.len() == 0 {
        Some(Seq::empty())
    } else {
        match ws[0] {
            Word::Char(c) => match chars_of_words(ws.drop_first()) {
                Some(s) => Some(seq![(c as u32) as u16] + s),
                None => None,
            },
            _ => None,
        }
    }
}

impl QuarkVM {
    /// The opcode about to execute.
    pub open spec fn cur_op(self) -> InstructionType {
        self.instructions@[self.pc as int].tt
    }

    /// Its immediate operands.
    pub open spec fn cur_args(self) -> Seq<Word> {
        self.instructions@[self.pc as int].args_spec()
    }

    /// The heaps, the pool and the allocator tables are as they were.
    pub open spec fn memory_unchanged(self, other: Self) -> bool {
        &&& self.memory == other.memory
        &&& self.heap == other.heap
        &&& self.constant_pools == other.constant_pools
        &&& self.free_list == other.free_list
        &&& self.allocated_memory == other.allocated_memory
    }

    /// The host-facing registers are as they were.
    pub open spec fn host_state_unchanged(self, other: Self) -> bool {
        &&& self.call_stack == other.call_stack
        &&& self.running == other.running
        &&& self.fd_table == other.fd_table
        &&& self.dll_count == other.dll_count
    }

    /// A fresh allocation was made and a pointer to it pushed.
    pub open spec fn alloc_pushed(
        pre: Self,
        post: Self,
        base: u16,
        sz: u16,
        rg: PointerType,
    ) -> bool {
        &&& post.stack@ == pre.stack@.push(StackValues::Pointer(base, rg))
        &&& post.allocated_memory@ == pre.allocated_memory@.push(
            (MemRange { base, size: sz, region: rg }),
        )
    }

    /// The string cells were written, zero-terminated, at `base`.
    pub open spec fn str_written(post: Self, base: u16, len: u16, cs: Seq<u16>) -> bool {
        &&& forall|i: int| 0 <= i < len ==> post.heap@[base + i] == StackValues::U16(cs[i])
        &&& post.heap@[base + len] == StackValues::U16(0)
    }

    /// A raw allocation's bytes were widened into a fresh cell allocation
    /// whose pointer replaced the popped one.
    pub open spec fn deref_widened(
        pre: Self,
        post: Self,
        base: u16,
        sz: u16,
        src0: u16,
    ) -> bool {
        &&& post.stack@ == pre.stack@.drop_last().push(
            StackValues::Pointer(base, PointerType::StackValuesPointer),
        )
        &&& post.allocated_memory@ == pre.allocated_memory@.push(
            (MemRange { base, size: sz, region: PointerType::StackValuesPointer }),
        )
        &&& src0 + sz <= pre.memory@.len()
        &&& covers(pre.allocated_memory@, src0 as int, PointerType::RawPointer)
        &&& forall|i: int|
            0 <= i < sz ==> (#[trigger] post.heap@[base + i]) == StackValues::U16(
                pre.memory@[src0 + i] as u16,
            )
    }

    /// What one successful or failing step means, opcode by opcode. `pre` is
    /// the machine before the step and `post` after it.
    pub open spec fn step_post(pre: Self, post: Self, r: Result<Effect, VmFault>) -> bool {
        let op = pre.cur_op();
        let args = pre.cur_args();
        let n = pre.stack@.len() as int;
        let stk = pre.stack@;
        &&& post.instructions == pre.instructions
        &&& (r is Ok && is_straight_op(op) ==> post.pc == pre.pc + 1 && post.stack@.len() == n
            + net_stack_effect(op) && post.call_stack == pre.call_stack && post.running
            == pre.running && post.fd_table == pre.fd_table && post.dll_count == pre.dll_count)
        &&& (op == InstructionType::INST_NOOP ==> r == Ok::<Effect, VmFault>(Effect::Quiet)
            && post.stack == pre.stack && post.memory_unchanged(pre))
        &&& (op == InstructionType::INST_DEBUG ==> r == Ok::<Effect, VmFault>(Effect::Debug)
            && post.stack == pre.stack && post.memory_unchanged(pre))
        &&& (op == InstructionType::INST_PUSH ==> match push_imm_spec(args) {
            Ok(v) => if n == MAX_STACK_SIZE {
                r == Err::<Effect, VmFault>(VmFault::StackOverflow)
            } else {
                r == Ok::<Effect, VmFault>(Effect::Quiet) && post.stack@ == stk.push(v)
                    && post.memory_unchanged(pre)
            },
            Err(f) => r == Err::<Effect, VmFault>(f),
        })
        &&& (op == InstructionType::INST_POP ==> if n == 0 {
            r == Err::<Effect, VmFault>(VmFault::StackUnderflow)
        } else {
            r == Ok::<Effect, VmFault>(Effect::Quiet) && post.stack@ == stk.drop_last()
                && post.memory_unchanged(pre)
        })
        &&& (is_binop(op) ==> if n < 2 {
            r == Err::<Effect, VmFault>(VmFault::StackUnderflow)
        } else {
            match binop_spec(op, stk.last(), stk[n - 2], pre.allocated_memory@) {
                Ok(v) => r == Ok::<Effect, VmFault>(Effect::Quiet) && post.stack@
                    == stk.drop_last().drop_last().push(v) && post.memory_unchanged(pre),
                Err(f) => r == Err::<Effect, VmFault>(f),
            }
        })
        &&& (op == InstructionType::INST_NOT ==> if n == 0 {
            r == Err::<Effect, VmFault>(VmFault::StackUnderflow)
        } else {
            match stk.last() {
                StackValues::U16(x) => r == Ok::<Effect, VmFault>(Effect::Quiet) && post.stack@
                    == stk.drop_last().push(StackValues::U16(!x)) && post.memory_unchanged(pre),
                _ => r == Err::<Effect, VmFault>(VmFault::TypeMismatch),
            }
        })
        &&& (op == InstructionType::INST_DUP ==> if n == 0 {
            r == Err::<Effect, VmFault>(VmFault::StackUnderflow)
        } else if n == MAX_STACK_SIZE {
            r == Err::<Effect, VmFault>(VmFault::StackOverflow)
        } else {
            r == Ok::<Effect, VmFault>(Effect::Quiet) && post.stack@ == stk.push(stk.last())
                && post.memory_unchanged(pre)
        })
        &&& (op == InstructionType::INST_INSWAP ==> match u16_imm_spec(args) {
            Ok(k) => if n == 0 || k as int >= n {
                r == Err::<Effect, VmFault>(VmFault::StackUnderflow)
            } else {
                r == Ok::<Effect, VmFault>(Effect::Quiet) && post.stack@ == stk.update(
                    n - 1,
                    stk[n - 1 - k],
                ).update(n - 1 - k, stk[n - 1]) && post.memory_unchanged(pre)
            },
            Err(f) => r == Err::<Effect, VmFault>(f),
        })
        &&& (op == InstructionType::INST_LOAD ==> match u16_imm_spec(args) {
            Ok(i) => if i as int >= CONST_POOL_SIZE {
                r == Err::<Effect, VmFault>(VmFault::PoolIndexOutOfRange)
            } else if n == MAX_STACK_SIZE {
                r == Err::<Effect, VmFault>(VmFault::StackOverflow)
            } else {
                r == Ok::<Effect, VmFault>(Effect::Quiet) && post.stack@ == stk.push(
                    pre.constant_pools@[i as int],
                ) && post.memory_unchanged(pre)
            },
            Err(f) => r == Err::<Effect, VmFault>(f),
        })
        &&& (op == InstructionType::INST_STORE ==> match u16_imm_spec(args) {
            Ok(i) => if i as int >= CONST_POOL_SIZE {
                r == Err::<Effect, VmFault>(VmFault::PoolIndexOutOfRange)
            } else if n == 0 {
                r == Err::<Effect, VmFault>(VmFault::StackUnderflow)
            } else {
                r == Ok::<Effect, VmFault>(Effect::Quiet) && post.stack@ == stk.drop_last()
                    && post.constant_pools@ == pre.constant_pools@.update(i as int, stk.last())
                    && post.memory == pre.memory && post.heap == pre.heap && post.free_list
                    == pre.free_list && post.allocated_memory == pre.allocated_memory
            },
            Err(f) => r == Err::<Effect, VmFault>(f),
        })
        &&& (op == InstructionType::INST_JMPZ || op == InstructionType::INST_JMPNZ ==> if n == 0 {
            r == Err::<Effect, VmFault>(VmFault::StackUnderflow)
        } else {
            match as_signed(stk.last()) {
                Some(x) => match jump_target_spec(args) {
                    Ok(t) => r == Ok::<Effect, VmFault>(Effect::Quiet) && post.stack == pre.stack
                        && post.memory_unchanged(pre) && post.host_state_unchanged(pre)
                        && post.pc == (if (x == 0) == (op == InstructionType::INST_JMPZ) {
                        t as int
                    } else {
                        pre.pc + 1
                    }),
                    Err(f) => r == Err::<Effect, VmFault>(f),
                },
                None => r == Err::<Effect, VmFault>(VmFault::TypeMismatch),
            }
        })
        &&& (op == InstructionType::INST_JMPEQ || op == InstructionType::INST_JMPNEQ ==> if n
            < 2 {
            r == Err::<Effect, VmFault>(VmFault::StackUnderflow)
        } else {
            match (as_signed(stk.last()), as_signed(stk[n - 2])) {
                (Some(x), Some(y)) => match jump_target_spec(args) {
                    Ok(t) => r == Ok::<Effect, VmFault>(Effect::Quiet) && post.stack == pre.stack
                        && post.memory_unchanged(pre) && post.host_state_unchanged(pre)
                        && post.pc == (if (x == y) == (op == InstructionType::INST_JMPEQ) {
                        t as int
                    } else {
                        pre.pc + 1
                    }),
                    Err(f) => r == Err::<Effect, VmFault>(f),
                },
                _ => r == Err::<Effect, VmFault>(VmFault::TypeMismatch),
            }
        })
        &&& (op == InstructionType::INST_CALL ==> match jump_target_spec(args) {
            Ok(t) => r == Ok::<Effect, VmFault>(Effect::Quiet) && post.stack == pre.stack
                && post.memory_unchanged(pre) && post.call_stack@ == pre.call_stack@.push(
                (pre.pc + 1) as u16,
            ) && post.pc == t && post.running == pre.running && post.fd_table == pre.fd_table
                && post.dll_count == pre.dll_count,
            Err(f) => r == Err::<Effect, VmFault>(f),
        })
        &&& (op == InstructionType::INST_RET ==> if pre.call_stack@.len() == 0 {
            r == Err::<Effect, VmFault>(VmFault::EmptyCallStack)
        } else {
            r == Ok::<Effect, VmFault>(Effect::Quiet) && post.stack == pre.stack
                && post.memory_unchanged(pre) && post.call_stack@ == pre.call_stack@.drop_last()
                && post.pc == pre.call_stack@.last() && post.running == pre.running
                && post.fd_table == pre.fd_table && post.dll_count == pre.dll_count
        })
        &&& (op == InstructionType::INST_PRINT ==> if n == 0 {
            r == Err::<Effect, VmFault>(VmFault::StackUnderflow)
        } else {
            match stk.last() {
                StackValues::Pointer(a, rg) => if covers(pre.allocated_memory@, a as int, rg) {
                    r == Ok::<Effect, VmFault>(
                        Effect::Print(
                            match rg {
                                PointerType::StackValuesPointer => pre.heap@[a as int],
                                PointerType::RawPointer => StackValues::U16(
                                    pre.memory@[a as int] as u16,
                                ),
                            },
                        ),
                    ) && post.stack == pre.stack && post.memory_unchanged(pre)
                } else {
                    r == Err::<Effect, VmFault>(VmFault::InvalidPointer)
                },
                v => r == Ok::<Effect, VmFault>(Effect::Print(v)) && post.stack == pre.stack
                    && post.memory_unchanged(pre),
            }
        })
        &&& (op == InstructionType::INST_ALLOC || op == InstructionType::INST_ALLOC_RAW
            ==> match u16_imm_spec(args) {
            Ok(sz) => {
                let rg = if op == InstructionType::INST_ALLOC {
                    PointerType::StackValuesPointer
                } else {
                    PointerType::RawPointer
                };
                if sz == 0 {
                    r == Err::<Effect, VmFault>(VmFault::AllocationFailed)
                } else if n == MAX_STACK_SIZE {
                    r == Err::<Effect, VmFault>(VmFault::StackOverflow)
                } else if !pre.can_allocate(sz, rg) {
                    r == Err::<Effect, VmFault>(VmFault::AllocationFailed)
                } else {
                    r == Ok::<Effect, VmFault>(Effect::Quiet) && post.pc == pre.pc + 1
                        && post.allocated_memory@.len() == pre.allocated_memory@.len() + 1
                        && Self::alloc_pushed(
                        pre,
                        post,
                        post.allocated_memory@.last().base,
                        sz,
                        rg,
                    )
                }
            },
            Err(f) => r == Err::<Effect, VmFault>(f),
        })
        &&& (op == InstructionType::INST_PUSH_STR ==> match u16_imm_spec(args) {
            Ok(len) => if args.len() != len + 1 || chars_of_words(args.drop_first()) is None {
                r is Err
            } else if len as int >= 65535 {
                r == Err::<Effect, VmFault>(VmFault::AllocationFailed)
            } else if n == MAX_STACK_SIZE {
                r == Err::<Effect, VmFault>(VmFault::StackOverflow)
            } else if !pre.can_allocate((len + 1) as u16, PointerType::StackValuesPointer) {
                r == Err::<Effect, VmFault>(VmFault::AllocationFailed)
            } else {
                let cs = chars_of_words(args.drop_first())->Some_0;
                r == Ok::<Effect, VmFault>(Effect::Quiet) && post.pc == pre.pc + 1
                    && post.allocated_memory@.len() == pre.allocated_memory@.len() + 1
                    && Self::alloc_pushed(
                    pre,
                    post,
                    post.allocated_memory@.last().base,
                    (len + 1) as u16,
                    PointerType::StackValuesPointer,
                ) && Self::str_written(post, post.allocated_memory@.last().base, len, cs)
            },
            Err(f) => r == Err::<Effect, VmFault>(f),
        })
        &&& (op == InstructionType::INST_DEREF ==> if n == 0 {
            r == Err::<Effect, VmFault>(VmFault::StackUnderflow)
        } else {
            match stk.last() {
                StackValues::Pointer(a, PointerType::StackValuesPointer) => if covers(
                    pre.allocated_memory@,
                    a as int,
                    PointerType::StackValuesPointer,
                ) {
                    r == Ok::<Effect, VmFault>(Effect::Quiet) && post.stack@
                        == stk.drop_last().push(pre.heap@[a as int]) && post.memory_unchanged(pre)
                } else {
                    r == Err::<Effect, VmFault>(VmFault::InvalidPointer)
                },
                StackValues::Pointer(a, PointerType::RawPointer) => if covers(
                    pre.allocated_memory@,
                    a as int,
                    PointerType::RawPointer,
                ) {
                    let ce = pre.allocated_memory@[covering_index(
                        pre.allocated_memory@,
                        a as int,
                        PointerType::RawPointer,
                    )];
                    if !pre.can_allocate(ce.size, PointerType::StackValuesPointer) {
                        r == Err::<Effect, VmFault>(VmFault::AllocationFailed)
                    } else {
                        r == Ok::<Effect, VmFault>(Effect::Quiet) && post.pc == pre.pc + 1
                            && post.allocated_memory@.len() == pre.allocated_memory@.len() + 1
                            && Self::deref_widened(
                            pre,
                            post,
                            post.allocated_memory@.last().base,
                            ce.size,
                            ce.base,
                        )
                    }
                } else {
                    r == Err::<Effect, VmFault>(VmFault::InvalidPointer)
                },
                _ => r == Err::<Effect, VmFault>(VmFault::TypeMismatch),
            }
        })
        &&& (op == InstructionType::INST_REF ==> if n == 0 {
            r == Err::<Effect, VmFault>(VmFault::StackUnderflow)
        } else if n == MAX_STACK_SIZE {
            r == Err::<Effect, VmFault>(VmFault::StackOverflow)
        } else if !pre.can_allocate(1, PointerType::StackValuesPointer) {
            r == Err::<Effect, VmFault>(VmFault::AllocationFailed)
        } else {
            r == Ok::<Effect, VmFault>(Effect::Quiet) && post.pc == pre.pc + 1
                && post.allocated_memory@.len() == pre.allocated_memory@.len() + 1
                && Self::alloc_pushed(
                pre,
                post,
                post.allocated_memory@.last().base,
                1,
                PointerType::StackValuesPointer,
            ) && post.heap@[post.allocated_memory@.last().base as int] == stk.last()
        })
        &&& (op == InstructionType::INST_PUT ==> if n < 2 {
            r == Err::<Effect, VmFault>(VmFault::StackUnderflow)
        } else {
            match stk.last() {
                StackValues::Pointer(a, PointerType::StackValuesPointer) => if covers(
                    pre.allocated_memory@,
                    a as int,
                    PointerType::StackValuesPointer,
                ) {
                    r == Ok::<Effect, VmFault>(Effect::Quiet) && post.stack@
                        == stk.drop_last().drop_last() && post.heap@ == pre.heap@.update(
                        a as int,
                        stk[n - 2],
                    ) && post.memory == pre.memory && post.constant_pools == pre.constant_pools
                        && post.free_list == pre.free_list && post.allocated_memory
                        == pre.allocated_memory
                } else {
                    r == Err::<Effect, VmFault>(VmFault::InvalidPointer)
                },
                StackValues::Pointer(a, PointerType::RawPointer) => if covers(
                    pre.allocated_memory@,
                    a as int,
                    PointerType::RawPointer,
                ) {
                    match stk[n - 2] {
                        StackValues::U16(v) => r == Ok::<Effect, VmFault>(Effect::Quiet)
                            && post.stack@ == stk.drop_last().drop_last() && post.memory@
                            == pre.memory@.update(a as int, (v % 256) as u8) && post.heap
                            == pre.heap && post.constant_pools == pre.constant_pools
                            && post.free_list == pre.free_list && post.allocated_memory
                            == pre.allocated_memory,
                        _ => r == Err::<Effect, VmFault>(VmFault::TypeMismatch),
                    }
                } else {
                    r == Err::<Effect, VmFault>(VmFault::InvalidPointer)
                },
                _ => r == Err::<Effect, VmFault>(VmFault::TypeMismatch),
            }
        })
        &&& (op == InstructionType::INST_SYSCALL ==> match u16_imm_spec(args) {
            Ok(argc) => if n < argc + 1 {
                r == Err::<Effect, VmFault>(VmFault::StackUnderflow)
            } else {
                match stk.last() {
                    StackValues::U16(num) => r matches Ok(Effect::Syscall { num: m, args: a })
                        && m == num && a@.len() == argc && (forall|i: int|
                        0 <= i < argc ==> a@[i] == stk[n - 2 - i]) && post.stack@ == stk.take(
                        n - 1 - argc,
                    ) && post.memory_unchanged(pre) && post.host_state_unchanged(pre) && post.pc
                        == pre.pc + 1,
                    _ => r == Err::<Effect, VmFault>(VmFault::TypeMismatch),
                }
            },
            Err(f) => r == Err::<Effect, VmFault>(f),
        })
        &&& (op == InstructionType::INST_STD_SYSCALL ==> match u16_imm_spec(args) {
            Ok(argc) => if n < argc + 1 {
                r == Err::<Effect, VmFault>(VmFault::StackUnderflow)
            } else {
                match stk.last() {
                    StackValues::U16(id) => if id == 0 {
                        let code = if argc >= 1 && stk[n - 2] is U16 {
                            stk[n - 2]->U16_0
                        } else {
                            0u16
                        };
                        r == Ok::<Effect, VmFault>(Effect::Exit(code)) && post.stack@ == stk.take(
                            n - 1 - argc,
                        ) && post.memory_unchanged(pre) && !post.running && post.pc == pre.pc + 1
                            && post.call_stack == pre.call_stack && post.fd_table == pre.fd_table
                    } else if id == 1 {
                        if argc < 1 {
                            r == Err::<Effect, VmFault>(VmFault::MissingOperand)
                        } else {
                            match stk[n - 2] {
                                StackValues::Pointer(a, rg) => {
                                    let s = match rg {
                                        PointerType::StackValuesPointer => cell_string_at(
                                            pre.heap@,
                                            a as int,
                                        ),
                                        PointerType::RawPointer => raw_string_at(
                                            pre.memory@,
                                            a as int,
                                        ),
                                    };
                                    match s {
                                        Some(path) => r matches Ok(Effect::OpenFile { path: p })
                                            && p@ == path && post.stack@ == stk.take(n - 1 - argc)
                                            && post.memory_unchanged(pre)
                                            && post.host_state_unchanged(pre) && post.pc == pre.pc
                                            + 1,
                                        None => r == Err::<Effect, VmFault>(VmFault::InvalidString),
                                    }
                                },
                                _ => r == Err::<Effect, VmFault>(VmFault::TypeMismatch),
                            }
                        }
                    } else if id == 2 {
                        if argc < 4 {
                            r == Err::<Effect, VmFault>(VmFault::MissingOperand)
                        } else {
                            match (stk[n - 2], stk[n - 3], stk[n - 4], stk[n - 5]) {
                                (
                                    StackValues::U16(mode),
                                    StackValues::Pointer(a, PointerType::RawPointer),
                                    StackValues::U16(fd),
                                    StackValues::U16(len),
                                ) => if fd as int >= pre.fd_table@.len() {
                                    r == Err::<Effect, VmFault>(VmFault::UnknownFd)
                                } else if a + len > pre.memory@.len() {
                                    r == Err::<Effect, VmFault>(VmFault::InvalidPointer)
                                } else if mode == 0 {
                                    r == Ok::<Effect, VmFault>(
                                        Effect::Read {
                                            addr: a,
                                            entry: pre.fd_table@[fd as int],
                                            len,
                                        },
                                    ) && post.stack@ == stk.take(n - 1 - argc)
                                        && post.memory_unchanged(pre)
                                        && post.host_state_unchanged(pre) && post.pc == pre.pc + 1
                                } else if mode == 1 {
                                    r matches Ok(Effect::Write { data, entry }) && entry
                                        == pre.fd_table@[fd as int] && data@.len() == len && (
                                    forall|i: int|
                                        0 <= i < len ==> data@[i] == pre.memory@[a + i])
                                        && post.stack@ == stk.take(n - 1 - argc)
                                        && post.memory_unchanged(pre)
                                        && post.host_state_unchanged(pre) && post.pc == pre.pc + 1
                                } else {
                                    r == Err::<Effect, VmFault>(VmFault::BadOperand)
                                },
                                _ => r == Err::<Effect, VmFault>(VmFault::TypeMismatch),
                            }
                        }
                    } else {
                        r == Ok::<Effect, VmFault>(Effect::Quiet) && post.stack@ == stk.take(
                            n - 1 - argc,
                        ) && post.memory_unchanged(pre) && post.host_state_unchanged(pre)
                            && post.pc == pre.pc + 1
                    },
                    _ => r == Err::<Effect, VmFault>(VmFault::TypeMismatch),
                }
            },
            Err(f) => r == Err::<Effect, VmFault>(f),
        })
        &&& (op == InstructionType::INST_DLL_LOAD ==> if n == 0 {
            r == Err::<Effect, VmFault>(VmFault::StackUnderflow)
        } else {
            match stk.last() {
                StackValues::Pointer(a, rg) => {
                    let s = match rg {
                        PointerType::StackValuesPointer => cell_string_at(pre.heap@, a as int),
                        PointerType::RawPointer => raw_string_at(pre.memory@, a as int),
                    };
                    match s {
                        Some(path) => r matches Ok(Effect::LoadLibrary { path: p }) && p@ == path
                            && post.stack@ == stk.drop_last() && post.memory_unchanged(pre)
                            && post.host_state_unchanged(pre) && post.pc == pre.pc + 1,
                        None => r == Err::<Effect, VmFault>(VmFault::InvalidString),
                    }
                },
                _ => r == Err::<Effect, VmFault>(VmFault::TypeMismatch),
            }
        })
        &&& (op == InstructionType::INST_DLL_CALL ==> match u16_imm_spec(args) {
            Ok(argc) => if args.len() < 2 || !(args[1] is U16) || chars_of_words(
                args.skip(2),
            ) is None || args.len() != 2 + (args[1]->U16_0 as int) {
                r is Err
            } else if n < argc + 1 {
                r == Err::<Effect, VmFault>(VmFault::StackUnderflow)
            } else {
                match stk.last() {
                    StackValues::U16(handle) => if handle >= pre.dll_count {
                        r == Err::<Effect, VmFault>(VmFault::UnknownLibrary)
                    } else {
                        r matches Ok(Effect::ForeignCall { handle: h, symbol: sy, args: a }) && h
                            == handle && sy@ == chars_of_words(args.skip(2))->Some_0 && a@.len()
                            == argc && (forall|i: int| 0 <= i < argc ==> a@[i] == stk[n - 2 - i])
                            && post.stack@ == stk.take(n - 1 - argc) && post.memory_unchanged(pre)
                            && post.host_state_unchanged(pre) && post.pc == pre.pc + 1
                    },
                    _ => r == Err::<Effect, VmFault>(VmFault::TypeMismatch),
                }
            },
            Err(f) => r == Err::<Effect, VmFault>(f),
        })
    }
}

} // verus!

verus! {

/// A list of `Char` words collects exactly its characters' 16-bit values.
proof fn lemma_chars_of_words_index(ws: Seq<Word>)
    requires
        chars_of_words(ws) is Some,
    ensures
        chars_of_words(ws)->Some_0.len() == ws.len(),
        forall|i: int|
            0 <= i < ws.len() ==> ((#[trigger] ws[i]) matches Word::Char(c)
                && chars_of_words(ws)->Some_0[i] == (c as u32) as u16),
    decreases ws.len(),
{
    if ws.len() > 0 {
        lemma_chars_of_words_index(ws.drop_first());
        assert forall|i: int| 0 <= i < ws.len() implies ((#[trigger] ws[i]) matches Word::Char(c)
            && chars_of_words(ws)->Some_0[i] == (c as u32) as u16) by {
            if i > 0 {
                assert(ws.drop_first()[i - 1] == ws[i]);
            }
        }
    }
}

/// A list of words that are all characters, matched value for value,
/// collects to exactly that list of values.
proof fn lemma_chars_list_complete(ws: Seq<Word>, cs: Seq<u16>)
    requires
        cs.len() == ws.len(),
        forall|i: int|
            0 <= i < ws.len() ==> ((#[trigger] ws[i]) matches Word::Char(c) && cs[i] == (
            c as u32) as u16),
    ensures
        chars_of_words(ws) == Some(cs),
    decreases ws.len(),
{
    if ws.len() == 0 {
        assert(cs =~= Seq::<u16>::empty());
    } else {
        assert forall|i: int| 0 <= i < ws.drop_first().len() implies ((
        #[trigger] ws.drop_first()[i]) matches Word::Char(c) && cs.drop_first()[i] == (
        c as u32) as u16) by {
            assert(ws.drop_first()[i] == ws[i + 1]);
        }
        lemma_chars_list_complete(ws.drop_first(), cs.drop_first());
        assert(ws[0] matches Word::Char(c) && cs[0] == (c as u32) as u16);
        assert(seq![cs[0]] + cs.drop_first() =~= cs);
    }
}

/// A word that is not a character anywhere in the list defeats collection.
proof fn lemma_chars_of_words_none(ws: Seq<Word>, i: int)
    requires
        0 <= i < ws.len(),
        !(ws[i] is Char),
    ensures
        chars_of_words(ws) is None,
    decreases ws.len(),
{
    if i > 0 {
        assert(ws.drop_first()[i - 1] == ws[i]);
        lemma_chars_of_words_none(ws.drop_first(), i - 1);
    }
}

impl QuarkVM {
    /// The `U16` immediate of the current instruction.
    fn imm_u16(&self) -> (r: Result<u16, VmFault>)
        requires
            (self.pc as int) < self.instructions@.len(),
        ensures
            r == u16_imm_spec(self.cur_args()),
    {
        match &self.instructions[self.pc as usize].values {
            Some(vs) => {
                if vs.len() == 0 {
                    Err(VmFault::MissingOperand)
                } else {
                    match vs[0] {
                        Word::U16(v) => Ok(v),
                        _ => Err(VmFault::BadOperand),
                    }
                }
            },
            None => Err(VmFault::MissingOperand),
        }
    }

    /// The immediate of a `PUSH`.
    fn imm_push(&self) -> (r: Result<StackValues, VmFault>)
        requires
            (self.pc as int) < self.instructions@.len(),
        ensures
            r == push_imm_spec(self.cur_args()),
    {
        match &self.instructions[self.pc as usize].values {
            Some(vs) => {
                if vs.len() == 0 {
                    Err(VmFault::MissingOperand)
                } else {
                    match vs[0] {
                        Word::U16(v) => Ok(StackValues::U16(v)),
                        Word::I16(v) => Ok(StackValues::I16(v)),
                        _ => Err(VmFault::BadOperand),
                    }
                }
            },
            None => Err(VmFault::MissingOperand),
        }
    }

    /// The jump target of a branching instruction.
    fn imm_target(&self) -> (r: Result<u16, VmFault>)
        requires
            (self.pc as int) < self.instructions@.len(),
        ensures
            r == jump_target_spec(self.cur_args()),
    {
        match &self.instructions[self.pc as usize].values {
            Some(vs) => {
                if vs.len() == 0 {
                    Err(VmFault::MissingOperand)
                } else {
                    match vs[0] {
                        Word::U16(v) => Ok(v),
                        Word::I16(v) => Ok(#[verifier::truncate] (v as u16)),
                        _ => Err(VmFault::BadOperand),
                    }
                }
            },
            None => Err(VmFault::MissingOperand),
        }
    }

    /// Pop `argc` values, top first.
    fn pop_args(&mut self, argc: u16) -> (r: Vec<StackValues>)
        requires
            old(self).wf(),
            argc as int <= old(self).stack@.len(),
        ensures
            final(self).wf(),
            final(self).only_stack_changed(*old(self)),
            final(self).stack@ == old(self).stack@.take(old(self).stack@.len() - argc),
            r@.len() == argc,
            forall|i: int|
                0 <= i < argc ==> r@[i] == old(self).stack@[old(self).stack@.len() - 1 - i],
    {
        let ghost stk0 = self.stack@;
        let ghost n0 = self.stack@.len() as int;
        let mut out: Vec<StackValues> = Vec::new();
        let mut i: usize = 0;
        proof {
            assert(stk0.take(n0) =~= stk0);
        }
        while i < argc as usize
            invariant
                self.wf(),
                i <= argc,
                argc <= n0,
                n0 == stk0.len(),
                self.only_stack_changed(*old(self)),
                old(self).stack@ == stk0,
                self.stack@ == stk0.take(n0 - i),
                out@.len() == i,
                forall|j: int| 0 <= j < i ==> out@[j] == stk0[n0 - 1 - j],
            decreases argc - i,
        {
            let v = self.pop_stack();
            proof {
                assert(stk0.take(n0 - i).last() == stk0[n0 - 1 - i]);
                assert(stk0.take(n0 - i).drop_last() =~= stk0.take(n0 - i - 1));
            }
            out.push(v);
            i = i + 1;
        }
        out
    }

    /// Execute the instruction under the program counter: the dispatch loop
    /// body of the machine. Host work comes back as an `Effect`; a fatal
    /// condition comes back as the fault that names it.
    pub fn determine_function(&mut self) -> (r: Result<Effect, VmFault>)
        requires
            old(self).wf(),
            (old(self).pc as int) < old(self).instructions@.len(),
        ensures
            final(self).wf(),
            Self::step_post(*old(self), *final(self), r),
    {
        let op = self.instructions[self.pc as usize].tt;
        match op {
            InstructionType::INST_NOOP => self.op_noop(),
            InstructionType::INST_DEBUG => self.op_debug(),
            InstructionType::INST_PUSH => self.op_push(),
            InstructionType::INST_POP => self.op_pop(),
            InstructionType::INST_ADD
            | InstructionType::INST_SUB
            | InstructionType::INST_MUL
            | InstructionType::INST_DIV
            | InstructionType::INST_AND
            | InstructionType::INST_OR
            | InstructionType::INST_XOR
            | InstructionType::INST_SHL
            | InstructionType::INST_SHR => self.op_binop2(op),
            InstructionType::INST_NOT => self.op_not(),
            InstructionType::INST_DUP => self.op_dup(),
            InstructionType::INST_INSWAP => self.op_inswap(),
            InstructionType::INST_LOAD => self.op_load(),
            InstructionType::INST_STORE => self.op_store(),
            InstructionType::INST_JMPZ | InstructionType::INST_JMPNZ => self.op_jmp_cond(op),
            InstructionType::INST_JMPEQ | InstructionType::INST_JMPNEQ => self.op_jmp_cmp(op),
            InstructionType::INST_CALL => self.op_call(),
            InstructionType::INST_RET => self.op_ret(),
            InstructionType::INST_PRINT => self.op_print(),
            InstructionType::INST_ALLOC | InstructionType::INST_ALLOC_RAW => self.op_alloc2(op),
            InstructionType::INST_REF => self.op_ref(),
            InstructionType::INST_PUSH_STR => self.op_push_str(),
            InstructionType::INST_DEREF => self.op_deref(),
            InstructionType::INST_PUT => self.op_put(),
            InstructionType::INST_SYSCALL => self.op_syscall(),
            InstructionType::INST_STD_SYSCALL => self.op_std_syscall(),
            InstructionType::INST_DLL_LOAD => self.op_dll_load(),
            InstructionType::INST_DLL_CALL => self.op_dll_call(),
        }
    }

    fn op_noop(&mut self) -> (r: Result<Effect, VmFault>)
        requires
            old(self).wf(),
            (old(self).pc as int) < old(self).instructions@.len(),
            old(self).cur_op() == InstructionType::INST_NOOP,
        ensures
            final(self).wf(),
            Self::step_post(*old(self), *final(self), r),
    {

                self.pc = self.pc + 1;
                Ok(Effect::Quiet)
    }

    fn op_debug(&mut self) -> (r: Result<Effect, VmFault>)
        requires
            old(self).wf(),
            (old(self).pc as int) < old(self).instructions@.len(),
            old(self).cur_op() == InstructionType::INST_DEBUG,
        ensures
            final(self).wf(),
            Self::step_post(*old(self), *final(self), r),
    {

                self.pc = self.pc + 1;
                Ok(Effect::Debug)
    }

    fn op_push(&mut self) -> (r: Result<Effect, VmFault>)
        requires
            old(self).wf(),
            (old(self).pc as int) < old(self).instructions@.len(),
            old(self).cur_op() == InstructionType::INST_PUSH,
        ensures
            final(self).wf(),
            Self::step_post(*old(self), *final(self), r),
    {

                let v = match self.imm_push() {
                    Ok(v) => v,
                    Err(f) => {
                        return Err(f);
                    },
                };
                if self.stack.len() == MAX_STACK_SIZE {
                    return Err(VmFault::StackOverflow);
                }
                self.push_stack(v);
                self.pc = self.pc + 1;
                Ok(Effect::Quiet)
    }

    fn op_pop(&mut self) -> (r: Result<Effect, VmFault>)
        requires
            old(self).wf(),
            (old(self).pc as int) < old(self).instructions@.len(),
            old(self).cur_op() == InstructionType::INST_POP,
        ensures
            final(self).wf(),
            Self::step_post(*old(self), *final(self), r),
    {

                if self.stack.len() == 0 {
                    return Err(VmFault::StackUnderflow);
                }
                self.pop_stack();
                self.pc = self.pc + 1;
                Ok(Effect::Quiet)
    }

    fn op_binop2(&mut self, op: InstructionType) -> (r: Result<Effect, VmFault>)
        requires
            old(self).wf(),
            (old(self).pc as int) < old(self).instructions@.len(),
            old(self).cur_op() == op,
            op == InstructionType::INST_ADD || op == InstructionType::INST_SUB || op == InstructionType::INST_MUL || op == InstructionType::INST_DIV || op == InstructionType::INST_AND || op == InstructionType::INST_OR || op == InstructionType::INST_XOR || op == InstructionType::INST_SHL || op == InstructionType::INST_SHR,
        ensures
            final(self).wf(),
            Self::step_post(*old(self), *final(self), r),
    {

                match self.binop_step(op) {
                    Ok(()) => {
                        self.pc = self.pc + 1;
                        Ok(Effect::Quiet)
                    },
                    Err(f) => Err(f),
                }
    }

    fn op_not(&mut self) -> (r: Result<Effect, VmFault>)
        requires
            old(self).wf(),
            (old(self).pc as int) < old(self).instructions@.len(),
            old(self).cur_op() == InstructionType::INST_NOT,
        ensures
            final(self).wf(),
            Self::step_post(*old(self), *final(self), r),
    {

                if self.stack.len() == 0 {
                    return Err(VmFault::StackUnderflow);
                }
                let t = self.pop_stack();
                match t {
                    StackValues::U16(x) => {
                        self.push_stack(StackValues::U16(!x));
                        self.pc = self.pc + 1;
                        Ok(Effect::Quiet)
                    },
                    _ => Err(VmFault::TypeMismatch),
                }
    }

    fn op_dup(&mut self) -> (r: Result<Effect, VmFault>)
        requires
            old(self).wf(),
            (old(self).pc as int) < old(self).instructions@.len(),
            old(self).cur_op() == InstructionType::INST_DUP,
        ensures
            final(self).wf(),
            Self::step_post(*old(self), *final(self), r),
    {

                if self.stack.len() == 0 {
                    return Err(VmFault::StackUnderflow);
                }
                if self.stack.len() == MAX_STACK_SIZE {
                    return Err(VmFault::StackOverflow);
                }
                let v = self.stack[self.stack.len() - 1];
                self.push_stack(v);
                self.pc = self.pc + 1;
                Ok(Effect::Quiet)
    }

    fn op_inswap(&mut self) -> (r: Result<Effect, VmFault>)
        requires
            old(self).wf(),
            (old(self).pc as int) < old(self).instructions@.len(),
            old(self).cur_op() == InstructionType::INST_INSWAP,
        ensures
            final(self).wf(),
            Self::step_post(*old(self), *final(self), r),
    {

                let k = match self.imm_u16() {
                    Ok(k) => k,
                    Err(f) => {
                        return Err(f);
                    },
                };
                let n = self.stack.len();
                if n == 0 || k as usize >= n {
                    return Err(VmFault::StackUnderflow);
                }
                let top = self.stack[n - 1];
                let other = self.stack[n - 1 - k as usize];
                self.stack[n - 1] = other;
                self.stack[n - 1 - k as usize] = top;
                self.pc = self.pc + 1;
                proof {
                    assert(self.stack@ =~= old(self).stack@.update(
                        n - 1,
                        old(self).stack@[n - 1 - k],
                    ).update(n - 1 - k, old(self).stack@[n - 1]));
                }
                Ok(Effect::Quiet)
    }

    fn op_load(&mut self) -> (r: Result<Effect, VmFault>)
        requires
            old(self).wf(),
            (old(self).pc as int) < old(self).instructions@.len(),
            old(self).cur_op() == InstructionType::INST_LOAD,
        ensures
            final(self).wf(),
            Self::step_post(*old(self), *final(self), r),
    {

                let i = match self.imm_u16() {
                    Ok(i) => i,
                    Err(f) => {
                        return Err(f);
                    },
                };
                if i as usize >= CONST_POOL_SIZE {
                    return Err(VmFault::PoolIndexOutOfRange);
                }
                if self.stack.len() == MAX_STACK_SIZE {
                    return Err(VmFault::StackOverflow);
                }
                let v = self.constant_pools[i as usize];
                self.push_stack(v);
                self.pc = self.pc + 1;
                Ok(Effect::Quiet)
    }

    fn op_store(&mut self) -> (r: Result<Effect, VmFault>)
        requires
            old(self).wf(),
            (old(self).pc as int) < old(self).instructions@.len(),
            old(self).cur_op() == InstructionType::INST_STORE,
        ensures
            final(self).wf(),
            Self::step_post(*old(self), *final(self), r),
    {

                let i = match self.imm_u16() {
                    Ok(i) => i,
                    Err(f) => {
                        return Err(f);
                    },
                };
                if i as usize >= CONST_POOL_SIZE {
                    return Err(VmFault::PoolIndexOutOfRange);
                }
                if self.stack.len() == 0 {
                    return Err(VmFault::StackUnderflow);
                }
                let v = self.pop_stack();
                self.constant_pools[i as usize] = v;
                self.pc = self.pc + 1;
                Ok(Effect::Quiet)
    }

    fn op_jmp_cond(&mut self, op: InstructionType) -> (r: Result<Effect, VmFault>)
        requires
            old(self).wf(),
            (old(self).pc as int) < old(self).instructions@.len(),
            old(self).cur_op() == op,
            op == InstructionType::INST_JMPZ || op == InstructionType::INST_JMPNZ,
        ensures
            final(self).wf(),
            Self::step_post(*old(self), *final(self), r),
    {

                if self.stack.len() == 0 {
                    return Err(VmFault::StackUnderflow);
                }
                let top = self.stack[self.stack.len() - 1];
                let x: i16 = match top {
                    StackValues::U16(v) => #[verifier::truncate] (v as i16),
                    StackValues::I16(v) => v,
                    StackValues::Pointer(_, _) => {
                        return Err(VmFault::TypeMismatch);
                    },
                };
                let t = match self.imm_target() {
                    Ok(t) => t,
                    Err(f) => {
                        return Err(f);
                    },
                };
                let taken = if matches!(op, InstructionType::INST_JMPZ) {
                    x == 0
                } else {
                    x != 0
                };
                if taken {
                    self.pc = t;
                } else {
                    self.pc = self.pc + 1;
                }
                Ok(Effect::Quiet)
    }

    fn op_jmp_cmp(&mut self, op: InstructionType) -> (r: Result<Effect, VmFault>)
        requires
            old(self).wf(),
            (old(self).pc as int) < old(self).instructions@.len(),
            old(self).cur_op() == op,
            op == InstructionType::INST_JMPEQ || op == InstructionType::INST_JMPNEQ,
        ensures
            final(self).wf(),
            Self::step_post(*old(self), *final(self), r),
    {

                if self.stack.len() < 2 {
                    return Err(VmFault::StackUnderflow);
                }
                let top = self.stack[self.stack.len() - 1];
                let below = self.stack[self.stack.len() - 2];
                let x: i16 = match top {
                    StackValues::U16(v) => #[verifier::truncate] (v as i16),
                    StackValues::I16(v) => v,
                    StackValues::Pointer(_, _) => {
                        return Err(VmFault::TypeMismatch);
                    },
                };
                let y: i16 = match below {
                    StackValues::U16(v) => #[verifier::truncate] (v as i16),
                    StackValues::I16(v) => v,
                    StackValues::Pointer(_, _) => {
                        return Err(VmFault::TypeMismatch);
                    },
                };
                let t = match self.imm_target() {
                    Ok(t) => t,
                    Err(f) => {
                        return Err(f);
                    },
                };
                let taken = if matches!(op, InstructionType::INST_JMPEQ) {
                    x == y
                } else {
                    x != y
                };
                if taken {
                    self.pc = t;
                } else {
                    self.pc = self.pc + 1;
                }
                Ok(Effect::Quiet)
    }

    fn op_call(&mut self) -> (r: Result<Effect, VmFault>)
        requires
            old(self).wf(),
            (old(self).pc as int) < old(self).instructions@.len(),
            old(self).cur_op() == InstructionType::INST_CALL,
        ensures
            final(self).wf(),
            Self::step_post(*old(self), *final(self), r),
    {

                let t = match self.imm_target() {
                    Ok(t) => t,
                    Err(f) => {
                        return Err(f);
                    },
                };
                let ret = self.pc + 1;
                self.call_stack.push(ret);
                self.pc = t;
                Ok(Effect::Quiet)
    }

    fn op_ret(&mut self) -> (r: Result<Effect, VmFault>)
        requires
            old(self).wf(),
            (old(self).pc as int) < old(self).instructions@.len(),
            old(self).cur_op() == InstructionType::INST_RET,
        ensures
            final(self).wf(),
            Self::step_post(*old(self), *final(self), r),
    {

                match self.call_stack.pop() {
                    Some(t) => {
                        self.pc = t;
                        Ok(Effect::Quiet)
                    },
                    None => Err(VmFault::EmptyCallStack),
                }
    }

    fn op_print(&mut self) -> (r: Result<Effect, VmFault>)
        requires
            old(self).wf(),
            (old(self).pc as int) < old(self).instructions@.len(),
            old(self).cur_op() == InstructionType::INST_PRINT,
        ensures
            final(self).wf(),
            Self::step_post(*old(self), *final(self), r),
    {

                if self.stack.len() == 0 {
                    return Err(VmFault::StackUnderflow);
                }
                let top = self.stack[self.stack.len() - 1];
                let shown: StackValues = match top {
                    StackValues::Pointer(a, rg) => {
                        if !self.address_in_allocation(a as u32, rg, false) {
                            return Err(VmFault::InvalidPointer);
                        }
                        proof {
                            lemma_covered_address_in_region(*self, a as int, rg);
                        }
                        match rg {
                            PointerType::StackValuesPointer => self.heap[a as usize],
                            PointerType::RawPointer => StackValues::U16(
                                self.memory[a as usize] as u16,
                            ),
                        }
                    },
                    v => v,
                };
                self.pc = self.pc + 1;
                Ok(Effect::Print(shown))
    }

    fn op_alloc2(&mut self, op: InstructionType) -> (r: Result<Effect, VmFault>)
        requires
            old(self).wf(),
            (old(self).pc as int) < old(self).instructions@.len(),
            old(self).cur_op() == op,
            op == InstructionType::INST_ALLOC || op == InstructionType::INST_ALLOC_RAW,
        ensures
            final(self).wf(),
            Self::step_post(*old(self), *final(self), r),
    {

                let sz = match self.imm_u16() {
                    Ok(sz) => sz,
                    Err(f) => {
                        return Err(f);
                    },
                };
                let rg = if matches!(op, InstructionType::INST_ALLOC) {
                    PointerType::StackValuesPointer
                } else {
                    PointerType::RawPointer
                };
                if sz == 0 {
                    return Err(VmFault::AllocationFailed);
                }
                if self.stack.len() == MAX_STACK_SIZE {
                    return Err(VmFault::StackOverflow);
                }
                match self.allocate(sz, rg) {
                    Ok(base) => {
                        self.push_stack(StackValues::Pointer(base, rg));
                        self.pc = self.pc + 1;
                        proof {
                            assert(Self::alloc_pushed(*old(self), *self, base, sz, rg));
                        }
                        Ok(Effect::Quiet)
                    },
                    Err(()) => Err(VmFault::AllocationFailed),
                }
    }

    fn op_ref(&mut self) -> (r: Result<Effect, VmFault>)
        requires
            old(self).wf(),
            (old(self).pc as int) < old(self).instructions@.len(),
            old(self).cur_op() == InstructionType::INST_REF,
        ensures
            final(self).wf(),
            Self::step_post(*old(self), *final(self), r),
    {

                if self.stack.len() == 0 {
                    return Err(VmFault::StackUnderflow);
                }
                if self.stack.len() == MAX_STACK_SIZE {
                    return Err(VmFault::StackOverflow);
                }
                let v = self.stack[self.stack.len() - 1];
                match self.allocate(1, PointerType::StackValuesPointer) {
                    Ok(base) => {
                        self.heap[base as usize] = v;
                        self.push_stack(
                            StackValues::Pointer(base, PointerType::StackValuesPointer),
                        );
                        self.pc = self.pc + 1;
                        proof {
                            assert(Self::alloc_pushed(
                                *old(self),
                                *self,
                                base,
                                1,
                                PointerType::StackValuesPointer,
                            ));
                        }
                        Ok(Effect::Quiet)
                    },
                    Err(()) => Err(VmFault::AllocationFailed),
                }
    }

    fn op_push_str(&mut self) -> (r: Result<Effect, VmFault>)
        requires
            old(self).wf(),
            (old(self).pc as int) < old(self).instructions@.len(),
            old(self).cur_op() == InstructionType::INST_PUSH_STR,
        ensures
            final(self).wf(),
            Self::step_post(*old(self), *final(self), r),
    {

                let len = match self.imm_u16() {
                    Ok(len) => len,
                    Err(f) => {
                        return Err(f);
                    },
                };
                let ghost args = self.cur_args();
                let vs = match &self.instructions[self.pc as usize].values {
                    Some(vs) => vs,
                    None => {
                        return Err(VmFault::MissingOperand);
                    },
                };
                if vs.len() != len as usize + 1 {
                    return Err(VmFault::BadOperand);
                }
                let mut cs: Vec<u16> = Vec::new();
                let mut i: usize = 0;
                while i < len as usize
                    invariant
                        *self == *old(self),
                        old(self).wf(),
                        (old(self).pc as int) < old(self).instructions@.len(),
                        old(self).cur_op() == InstructionType::INST_PUSH_STR,
                        u16_imm_spec(old(self).cur_args()) == Ok::<u16, VmFault>(len),
                        args == old(self).cur_args(),
                        i <= len,
                        vs@ == args,
                        args.len() == len as usize + 1,
                        cs@.len() == i,
                        forall|j: int|
                            0 <= j < i ==> ((#[trigger] args[j + 1]) matches Word::Char(c)
                                && cs@[j] == (c as u32) as u16),
                    decreases len - i,
                {
                    match vs[i + 1] {
                        Word::Char(c) => {
                            cs.push(#[verifier::truncate] ((c as u32) as u16));
                        },
                        _ => {
                            proof {
                                assert(args.drop_first()[i as int] == args[i + 1]);
                                lemma_chars_of_words_none(args.drop_first(), i as int);
                            }
                            return Err(VmFault::BadOperand);
                        },
                    }
                    i = i + 1;
                }
                proof {
                    lemma_chars_list_complete(args.drop_first(), cs@);
                }
                if len == 65535 {
                    return Err(VmFault::AllocationFailed);
                }
                if self.stack.len() == MAX_STACK_SIZE {
                    return Err(VmFault::StackOverflow);
                }
                let base = match self.allocate(len + 1, PointerType::StackValuesPointer) {
                    Ok(base) => base,
                    Err(()) => {
                        return Err(VmFault::AllocationFailed);
                    },
                };
                let ghost heap_mid = self.heap@;
                let mut i: usize = 0;
                while i < len as usize
                    invariant
                        self.wf(),
                        i <= len,
                        cs@.len() == len,
                        base + len < self.heap@.len(),
                        self.heap@.len() == heap_mid.len(),
                        forall|j: int| 0 <= j < i ==> self.heap@[base + j] == StackValues::U16(cs@[j]),
                        forall|j: int|
                            0 <= j < self.heap@.len() && !(base <= j < base + i)
                                ==> self.heap@[j] == heap_mid[j],
                        self.memory == old(self).memory,
                        self.stack == old(self).stack,
                        self.constant_pools == old(self).constant_pools,
                        self.call_stack == old(self).call_stack,
                        self.pc == old(self).pc,
                        self.running == old(self).running,
                        self.instructions == old(self).instructions,
                        self.fd_table == old(self).fd_table,
                        self.dll_count == old(self).dll_count,
                        self.allocated_memory@ == old(self).allocated_memory@.push(
                            MemRange {
                                base,
                                size: (len + 1) as u16,
                                region: PointerType::StackValuesPointer,
                            },
                        ),
                    decreases len - i,
                {
                    let v = cs[i];
                    self.heap[base as usize + i] = StackValues::U16(v);
                    i = i + 1;
                }
                self.heap[base as usize + len as usize] = StackValues::U16(0);
                self.push_stack(StackValues::Pointer(base, PointerType::StackValuesPointer));
                self.pc = self.pc + 1;
                proof {
                    assert(Self::alloc_pushed(
                        *old(self),
                        *self,
                        base,
                        (len + 1) as u16,
                        PointerType::StackValuesPointer,
                    ));
                    assert(Self::str_written(*self, base, len, cs@));
                }
                Ok(Effect::Quiet)
    }

    fn op_deref(&mut self) -> (r: Result<Effect, VmFault>)
        requires
            old(self).wf(),
            (old(self).pc as int) < old(self).instructions@.len(),
            old(self).cur_op() == InstructionType::INST_DEREF,
        ensures
            final(self).wf(),
            Self::step_post(*old(self), *final(self), r),
    {

                if self.stack.len() == 0 {
                    return Err(VmFault::StackUnderflow);
                }
                let top = self.pop_stack();
                match top {
                    StackValues::Pointer(a, PointerType::StackValuesPointer) => {
                        if !self.address_in_allocation(
                            a as u32,
                            PointerType::StackValuesPointer,
                            false,
                        ) {
                            return Err(VmFault::InvalidPointer);
                        }
                        proof {
                            lemma_covered_address_in_region(
                                *self,
                                a as int,
                                PointerType::StackValuesPointer,
                            );
                        }
                        let v = self.heap[a as usize];
                        self.push_stack(v);
                        self.pc = self.pc + 1;
                        Ok(Effect::Quiet)
                    },
                    StackValues::Pointer(a, PointerType::RawPointer) => {
                        let ghost mid = *self;
                        let mut k: usize = 0;
                        let mut src_base: u16 = 0;
                        let mut src_size: u16 = 0;
                        let mut found = false;
                        while k < self.allocated_memory.len() && !found
                            invariant
                                *self == mid,
                                mid.wf(),
                                k <= self.allocated_memory@.len(),
                                forall|k2: int|
                                    0 <= k2 < k ==> !((#[trigger] self.allocated_memory@[k2]).region
                                        == PointerType::RawPointer
                                        && self.allocated_memory@[k2].base <= a as int
                                        && (a as int) < self.allocated_memory@[k2].base
                                        + self.allocated_memory@[k2].size),
                                found ==> k < self.allocated_memory@.len() && ({
                                    let e = self.allocated_memory@[k as int];
                                    e.region == PointerType::RawPointer && e.base == src_base
                                        && e.size == src_size && e.base <= a < e.base + e.size
                                }),
                            decreases self.allocated_memory@.len() - k + (if found {
                                0int
                            } else {
                                1int
                            }),
                        {
                            let e = self.allocated_memory[k];
                            if matches!(e.region, PointerType::RawPointer) && e.base <= a && (
                            a as u32) < e.base as u32 + e.size as u32 {
                                src_base = e.base;
                                src_size = e.size;
                                found = true;
                            } else {
                                k = k + 1;
                            }
                        }
                        if !found {
                            proof {
                                if covers(self.allocated_memory@, a as int, PointerType::RawPointer) {
                                    let m = choose|m: int|
                                        0 <= m < self.allocated_memory@.len() && (
                                        #[trigger] self.allocated_memory@[m]).region
                                            == PointerType::RawPointer
                                            && self.allocated_memory@[m].base <= a as int
                                            && (a as int) < self.allocated_memory@[m].base
                                            + self.allocated_memory@[m].size;
                                    assert(false);
                                }
                            }
                            return Err(VmFault::InvalidPointer);
                        }
                        proof {
                            assert(covers(self.allocated_memory@, a as int, PointerType::RawPointer));
                            lemma_covering_unique(*self, a as int, PointerType::RawPointer, k as int);
                            assert(self.entries()[k as int] == self.allocated_memory@[k as int]);
                            assert(range_in_region(
                                self.entries()[k as int],
                                self.memory@.len() as int,
                                self.heap@.len() as int,
                            ));
                            assert(self.entries()[k as int].size >= 1);
                        }
                        let nbase = match self.allocate(src_size, PointerType::StackValuesPointer) {
                            Ok(b) => b,
                            Err(()) => {
                                proof {
                                    assert(!old(self).can_allocate(
                                        src_size,
                                        PointerType::StackValuesPointer,
                                    ));
                                }
                                return Err(VmFault::AllocationFailed);
                            },
                        };
                        let ghost heap_mid = self.heap@;
                        let mut i: usize = 0;
                        while i < src_size as usize
                            invariant
                                self.wf(),
                                i <= src_size,
                                nbase + src_size <= self.heap@.len(),
                                src_base + src_size <= self.memory@.len(),
                                self.heap@.len() == heap_mid.len(),
                                self.memory == old(self).memory,
                                forall|j: int|
                                    0 <= j < i ==> (#[trigger] self.heap@[nbase + j])
                                        == StackValues::U16(self.memory@[src_base + j] as u16),
                                self.stack@ == old(self).stack@.drop_last(),
                                self.constant_pools == old(self).constant_pools,
                                self.call_stack == old(self).call_stack,
                                self.pc == old(self).pc,
                                self.running == old(self).running,
                                self.instructions == old(self).instructions,
                                self.fd_table == old(self).fd_table,
                                self.dll_count == old(self).dll_count,
                                self.allocated_memory@ == old(self).allocated_memory@.push(
                                    MemRange {
                                        base: nbase,
                                        size: src_size,
                                        region: PointerType::StackValuesPointer,
                                    },
                                ),
                            decreases src_size - i,
                        {
                            let b = self.memory[src_base as usize + i];
                            self.heap[nbase as usize + i] = StackValues::U16(b as u16);
                            i = i + 1;
                        }
                        self.push_stack(StackValues::Pointer(nbase, PointerType::StackValuesPointer));
                        self.pc = self.pc + 1;
                        proof {
                            assert(Self::deref_widened(
                                *old(self),
                                *self,
                                nbase,
                                src_size,
                                src_base,
                            ));
                        }
                        Ok(Effect::Quiet)
                    },
                    _ => Err(VmFault::TypeMismatch),
                }
    }

    fn op_put(&mut self) -> (r: Result<Effect, VmFault>)
        requires
            old(self).wf(),
            (old(self).pc as int) < old(self).instructions@.len(),
            old(self).cur_op() == InstructionType::INST_PUT,
        ensures
            final(self).wf(),
            Self::step_post(*old(self), *final(self), r),
    {

                if self.stack.len() < 2 {
                    return Err(VmFault::StackUnderflow);
                }
                let p = self.pop_stack();
                let v = self.pop_stack();
                match p {
                    StackValues::Pointer(a, PointerType::StackValuesPointer) => {
                        if !self.address_in_allocation(
                            a as u32,
                            PointerType::StackValuesPointer,
                            false,
                        ) {
                            return Err(VmFault::InvalidPointer);
                        }
                        proof {
                            lemma_covered_address_in_region(
                                *self,
                                a as int,
                                PointerType::StackValuesPointer,
                            );
                        }
                        self.heap[a as usize] = v;
                        self.pc = self.pc + 1;
                        Ok(Effect::Quiet)
                    },
                    StackValues::Pointer(a, PointerType::RawPointer) => {
                        if !self.address_in_allocation(a as u32, PointerType::RawPointer, false) {
                            return Err(VmFault::InvalidPointer);
                        }
                        match v {
                            StackValues::U16(x) => {
                                proof {
                                    lemma_covered_address_in_region(
                                        *self,
                                        a as int,
                                        PointerType::RawPointer,
                                    );
                                }
                                self.memory[a as usize] = (x % 256) as u8;
                                self.pc = self.pc + 1;
                                Ok(Effect::Quiet)
                            },
                            _ => Err(VmFault::TypeMismatch),
                        }
                    },
                    _ => Err(VmFault::TypeMismatch),
                }
    }

    fn op_syscall(&mut self) -> (r: Result<Effect, VmFault>)
        requires
            old(self).wf(),
            (old(self).pc as int) < old(self).instructions@.len(),
            old(self).cur_op() == InstructionType::INST_SYSCALL,
        ensures
            final(self).wf(),
            Self::step_post(*old(self), *final(self), r),
    {

                let argc = match self.imm_u16() {
                    Ok(argc) => argc,
                    Err(f) => {
                        return Err(f);
                    },
                };
                if self.stack.len() < argc as usize + 1 {
                    return Err(VmFault::StackUnderflow);
                }
                let numv = self.pop_stack();
                let num = match numv {
                    StackValues::U16(num) => num,
                    _ => {
                        return Err(VmFault::TypeMismatch);
                    },
                };
                let sargs = self.pop_args(argc);
                self.pc = self.pc + 1;
                proof {
                    assert(self.stack@ =~= old(self).stack@.take(
                        old(self).stack@.len() - 1 - argc,
                    ));
                }
                Ok(Effect::Syscall { num, args: sargs })
    }

    fn op_std_syscall(&mut self) -> (r: Result<Effect, VmFault>)
        requires
            old(self).wf(),
            (old(self).pc as int) < old(self).instructions@.len(),
            old(self).cur_op() == InstructionType::INST_STD_SYSCALL,
        ensures
            final(self).wf(),
            Self::step_post(*old(self), *final(self), r),
    {

                let argc = match self.imm_u16() {
                    Ok(argc) => argc,
                    Err(f) => {
                        return Err(f);
                    },
                };
                if self.stack.len() < argc as usize + 1 {
                    return Err(VmFault::StackUnderflow);
                }
                let idv = self.pop_stack();
                let id = match idv {
                    StackValues::U16(id) => id,
                    _ => {
                        return Err(VmFault::TypeMismatch);
                    },
                };
                let sargs = self.pop_args(argc);
                proof {
                    assert(self.stack@ =~= old(self).stack@.take(
                        old(self).stack@.len() - 1 - argc,
                    ));
                }
                if id == 0 {
                    let code: u16 = if sargs.len() >= 1 {
                        match sargs[0] {
                            StackValues::U16(c) => c,
                            _ => 0,
                        }
                    } else {
                        0
                    };
                    self.running = false;
                    self.pc = self.pc + 1;
                    Ok(Effect::Exit(code))
                } else if id == 1 {
                    if argc < 1 {
                        return Err(VmFault::MissingOperand);
                    }
                    match sargs[0] {
                        StackValues::Pointer(a, rg) => {
                            match self.get_str_from_ptr(a, rg) {
                                Ok(path) => {
                                    self.pc = self.pc + 1;
                                    Ok(Effect::OpenFile { path })
                                },
                                Err(f) => Err(f),
                            }
                        },
                        _ => Err(VmFault::TypeMismatch),
                    }
                } else if id == 2 {
                    if argc < 4 {
                        return Err(VmFault::MissingOperand);
                    }
                    let mode = match sargs[0] {
                        StackValues::U16(m) => m,
                        _ => {
                            return Err(VmFault::TypeMismatch);
                        },
                    };
                    let a = match sargs[1] {
                        StackValues::Pointer(a, PointerType::RawPointer) => a,
                        _ => {
                            return Err(VmFault::TypeMismatch);
                        },
                    };
                    let fd = match sargs[2] {
                        StackValues::U16(fd) => fd,
                        _ => {
                            return Err(VmFault::TypeMismatch);
                        },
                    };
                    let len = match sargs[3] {
                        StackValues::U16(len) => len,
                        _ => {
                            return Err(VmFault::TypeMismatch);
                        },
                    };
                    if fd as usize >= self.fd_table.len() {
                        return Err(VmFault::UnknownFd);
                    }
                    if a as usize + len as usize > self.memory.len() {
                        return Err(VmFault::InvalidPointer);
                    }
                    let entry = self.fd_table[fd as usize];
                    if mode == 0 {
                        self.pc = self.pc + 1;
                        Ok(Effect::Read { addr: a, entry, len })
                    } else if mode == 1 {
                        let mut data: Vec<u8> = Vec::new();
                        let mut i: usize = 0;
                        while i < len as usize
                            invariant
                                i <= len,
                                a + len <= self.memory@.len(),
                                data@.len() == i,
                                forall|j: int| 0 <= j < i ==> data@[j] == self.memory@[a + j],
                            decreases len - i,
                        {
                            let b = self.memory[a as usize + i];
                            data.push(b);
                            i = i + 1;
                        }
                        self.pc = self.pc + 1;
                        Ok(Effect::Write { data, entry })
                    } else {
                        Err(VmFault::BadOperand)
                    }
                } else {
                    self.pc = self.pc + 1;
                    Ok(Effect::Quiet)
                }
    }

    fn op_dll_load(&mut self) -> (r: Result<Effect, VmFault>)
        requires
            old(self).wf(),
            (old(self).pc as int) < old(self).instructions@.len(),
            old(self).cur_op() == InstructionType::INST_DLL_LOAD,
        ensures
            final(self).wf(),
            Self::step_post(*old(self), *final(self), r),
    {

                if self.stack.len() == 0 {
                    return Err(VmFault::StackUnderflow);
                }
                let top = self.pop_stack();
                match top {
                    StackValues::Pointer(a, rg) => {
                        match self.get_str_from_ptr(a, rg) {
                            Ok(path) => {
                                self.pc = self.pc + 1;
                                Ok(Effect::LoadLibrary { path })
                            },
                            Err(f) => Err(f),
                        }
                    },
                    _ => Err(VmFault::TypeMismatch),
                }
    }

    fn op_dll_call(&mut self) -> (r: Result<Effect, VmFault>)
        requires
            old(self).wf(),
            (old(self).pc as int) < old(self).instructions@.len(),
            old(self).cur_op() == InstructionType::INST_DLL_CALL,
        ensures
            final(self).wf(),
            Self::step_post(*old(self), *final(self), r),
    {

                let argc = match self.imm_u16() {
                    Ok(argc) => argc,
                    Err(f) => {
                        return Err(f);
                    },
                };
                let ghost args = self.cur_args();
                let vs = match &self.instructions[self.pc as usize].values {
                    Some(vs) => vs,
                    None => {
                        return Err(VmFault::MissingOperand);
                    },
                };
                if vs.len() < 2 {
                    return Err(VmFault::BadOperand);
                }
                let slen = match vs[1] {
                    Word::U16(l) => l,
                    _ => {
                        return Err(VmFault::BadOperand);
                    },
                };
                if vs.len() != 2 + slen as usize {
                    return Err(VmFault::BadOperand);
                }
                let mut symbol: Vec<u16> = Vec::new();
                let mut i: usize = 0;
                while i < slen as usize
                    invariant
                        *self == *old(self),
                        old(self).wf(),
                        (old(self).pc as int) < old(self).instructions@.len(),
                        old(self).cur_op() == InstructionType::INST_DLL_CALL,
                        u16_imm_spec(old(self).cur_args()) == Ok::<u16, VmFault>(argc),
                        args == old(self).cur_args(),
                        i <= slen,
                        vs@ == args,
                        args.len() == 2 + slen as usize,
                        args[1] == Word::U16(slen),
                        symbol@.len() == i,
                        forall|j: int|
                            0 <= j < i ==> ((#[trigger] args[j + 2]) matches Word::Char(c)
                                && symbol@[j] == (c as u32) as u16),
                    decreases slen - i,
                {
                    match vs[i + 2] {
                        Word::Char(c) => {
                            symbol.push(#[verifier::truncate] ((c as u32) as u16));
                        },
                        _ => {
                            proof {
                                assert(args.skip(2)[i as int] == args[i + 2]);
                                lemma_chars_of_words_none(args.skip(2), i as int);
                            }
                            return Err(VmFault::BadOperand);
                        },
                    }
                    i = i + 1;
                }
                proof {
                    lemma_chars_list_complete(args.skip(2), symbol@);
                }
                if self.stack.len() < argc as usize + 1 {
                    return Err(VmFault::StackUnderflow);
                }
                let hv = self.pop_stack();
                let handle = match hv {
                    StackValues::U16(h) => h,
                    _ => {
                        return Err(VmFault::TypeMismatch);
                    },
                };
                if handle >= self.dll_count {
                    return Err(VmFault::UnknownLibrary);
                }
                let cargs = self.pop_args(argc);
                self.pc = self.pc + 1;
                proof {
                    assert(self.stack@ =~= old(self).stack@.take(
                        old(self).stack@.len() - 1 - argc,
                    ));
                }
                Ok(Effect::ForeignCall { handle, symbol, args: cargs })
    }
}

/// A covered address lies inside its region.
proof fn lemma_covered_address_in_region(vm: QuarkVM, a: int, rg: PointerType)
    requires
        vm.wf(),
        covers(vm.allocated_memory@, a, rg),
    ensures
        rg == PointerType::StackValuesPointer ==> a < vm.heap@.len(),
        rg == PointerType::RawPointer ==> a < vm.memory@.len(),
{
    let k = choose|k: int|
        0 <= k < vm.allocated_memory@.len() && (#[trigger] vm.allocated_memory@[k]).region == rg
            && vm.allocated_memory@[k].base <= a < vm.allocated_memory@[k].base
            + vm.allocated_memory@[k].size;
    assert(vm.entries()[k] == vm.allocated_memory@[k]);
    assert(range_in_region(vm.entries()[k], vm.memory@.len() as int, vm.heap@.len() as int));
}

} // verus!

verus! {

/// Every instruction of the program is a straight-line opcode.
pub open spec fn straight_program(instrs: Seq<crate::instruction::Instruction>) -> bool {
    forall|i: int| 0 <= i < instrs.len() ==> is_straight_op((#[trigger] instrs[i]).tt)
}

/// The net stack effect of the instructions in `[from, to)`.
pub open spec fn sum_net(instrs: Seq<crate::instruction::Instruction>, from: int, to: int) -> int
    decreases to - from,
{
    if from >= to {
        0
    } else {
        net_stack_effect(instrs[from].tt) + sum_net(instrs, from + 1, to)
    }
}

/// Extending a window one instruction to the right adds that instruction's
/// net effect.
pub proof fn lemma_sum_net_snoc(instrs: Seq<crate::instruction::Instruction>, from: int, to: int)
    requires
        from <= to,
    ensures
        sum_net(instrs, from, to + 1) == sum_net(instrs, from, to) + net_stack_effect(
            instrs[to].tt,
        ),
    decreases to - from,
{
    if from < to {
        lemma_sum_net_snoc(instrs, from + 1, to);
    } else {
        assert(sum_net(instrs, from + 1, to + 1) == 0);
    }
}

/// One quiet machine step: the machine is running, an instruction lies under
/// `pc`, and executing it returns no work for the host.
pub open spec fn quiet_step(pre: QuarkVM, post: QuarkVM) -> bool {
    &&& pre.running
    &&& (pre.pc as int) < pre.instructions@.len()
    &&& QuarkVM::step_post(pre, post, Ok(Effect::Quiet))
}

/// A chain of machines linked by quiet steps, beginning at `start`.
pub open spec fn quiet_trace(tr: Seq<QuarkVM>, start: QuarkVM) -> bool {
    &&& tr.len() >= 1
    &&& tr[0] == start
    &&& forall|i: int| 0 <= i < tr.len() - 1 ==> quiet_step(#[trigger] tr[i], tr[i + 1])
}

/// The machine with its running flag lowered and nothing else changed.
pub open spec fn halted(vm: QuarkVM) -> QuarkVM {
    QuarkVM { running: false, ..vm }
}

/// What returning from `run` means: a chain of quiet steps leads from the
/// starting machine through well-formed states to a last state, and the
/// result describes what happened there. A quiet success comes only with
/// the machine halted — `pc` ran off the program, or it was already
/// stopped — or with the whole step budget spent; a fault or a non-quiet
/// effect is the last state's own step, pinned by `step_post`.
pub open spec fn run_outcome(
    start: QuarkVM,
    tr: Seq<QuarkVM>,
    end: QuarkVM,
    r: Result<Effect, VmFault>,
    fuel: int,
) -> bool {
    &&& quiet_trace(tr, start)
    &&& tr.len() - 1 <= fuel
    &&& forall|i: int| 0 <= i < tr.len() ==> (#[trigger] tr[i]).wf()
    &&& match r {
        Ok(Effect::Quiet) => {
            let last = tr.last();
            &&& (if (last.pc as int) >= last.instructions@.len() {
                end == halted(last)
            } else {
                end == last
            })
            &&& (!end.running || tr.len() - 1 == fuel)
        },
        Ok(e) => {
            let last = tr.last();
            &&& last.running
            &&& (last.pc as int) < last.instructions@.len()
            &&& QuarkVM::step_post(last, end, Ok(e))
        },
        Err(f) => {
            let last = tr.last();
            &&& last.running
            &&& (last.pc as int) < last.instructions@.len()
            &&& QuarkVM::step_post(last, end, Err(f))
        },
    }
}

impl QuarkVM {
    /// Run the machine until it halts, needs the host, faults, or exhausts
    /// the given budget of steps. The returned state is reached by stepping:
    /// some chain of quiet steps from the starting machine, each pinned by
    /// `step_post`, ends in the returned fault, the returned effect, or a
    /// quiet halt (see `run_outcome`). Over a program free of control flow
    /// and host work, the stack also grows by exactly the summed net arity
    /// of the instructions stepped through.
    pub fn run(&mut self, fuel: usize) -> (r: Result<Effect, VmFault>)
        requires
            old(self).wf(),
        ensures
            final(self).wf(),
            final(self).instructions == old(self).instructions,
            exists|tr: Seq<QuarkVM>|
                #[trigger] run_outcome(*old(self), tr, *final(self), r, fuel as int),
            r is Ok && straight_program(old(self).instructions@) ==> old(self).pc
                <= final(self).pc && final(self).stack@.len() == old(self).stack@.len()
                + sum_net(
                old(self).instructions@,
                old(self).pc as int,
                final(self).pc as int,
            ),
    {
        let mut left = fuel;
        let ghost mut tr: Seq<QuarkVM> = seq![*old(self)];
        proof {
            assert(sum_net(old(self).instructions@, old(self).pc as int, old(self).pc as int)
                == 0);
        }
        while left > 0 && self.running && (self.pc as usize) < self.instructions.len()
            invariant
                self.wf(),
                self.instructions == old(self).instructions,
                left <= fuel,
                quiet_trace(tr, *old(self)),
                tr.last() == *self,
                tr.len() - 1 == fuel - left,
                forall|i: int| 0 <= i < tr.len() ==> (#[trigger] tr[i]).wf(),
                straight_program(old(self).instructions@) ==> old(self).pc <= self.pc
                    && self.stack@.len() == old(self).stack@.len() + sum_net(
                    old(self).instructions@,
                    old(self).pc as int,
                    self.pc as int,
                ),
            decreases left,
        {
            let ghost mid = *self;
            let e = match self.determine_function() {
                Ok(e) => e,
                Err(f) => {
                    proof {
                        assert(run_outcome(
                            *old(self),
                            tr,
                            *self,
                            Err::<Effect, VmFault>(f),
                            fuel as int,
                        ));
                    }
                    return Err(f);
                },
            };
            proof {
                if straight_program(old(self).instructions@) {
                    assert(is_straight_op(mid.cur_op()));
                    lemma_sum_net_snoc(
                        old(self).instructions@,
                        old(self).pc as int,
                        mid.pc as int,
                    );
                }
            }
            if !matches!(e, Effect::Quiet) {
                proof {
                    assert(run_outcome(
                        *old(self),
                        tr,
                        *self,
                        Ok::<Effect, VmFault>(e),
                        fuel as int,
                    ));
                }
                return Ok(e);
            }
            proof {
                assert(quiet_step(mid, *self));
                let tr2 = tr.push(*self);
                assert forall|i: int| 0 <= i < tr2.len() - 1 implies quiet_step(
                    #[trigger] tr2[i],
                    tr2[i + 1],
                ) by {
                    if i < tr.len() - 1 {
                        assert(tr2[i] == tr[i]);
                        assert(tr2[i + 1] == tr[i + 1]);
                    } else {
                        assert(tr2[i] == mid);
                        assert(tr2[i + 1] == *self);
                    }
                }
                tr = tr2;
            }
            left = left - 1;
        }
        let ghost last = *self;
        if (self.pc as usize) >= self.instructions.len() {
            self.running = false;
        }
        proof {
            if (last.pc as int) >= last.instructions@.len() {
                assert(*self == halted(last));
            }
            assert(run_outcome(
                *old(self),
                tr,
                *self,
                Ok::<Effect, VmFault>(Effect::Quiet),
                fuel as int,
            ));
        }
        Ok(Effect::Quiet)
    }

    /// Push a result the host computed (a syscall's return, a foreign call's
    /// return, a transfer count) back onto the stack.
    pub fn resume_push(&mut self, value: StackValues) -> (r: Result<(), VmFault>)
        requires
            old(self).wf(),
        ensures
            final(self).wf(),
            old(self).stack@.len() < MAX_STACK_SIZE ==> r is Ok
                && final(self).stack@ == old(self).stack@.push(value),
            old(self).stack@.len() == MAX_STACK_SIZE ==> r == Err::<(), VmFault>(
                VmFault::StackOverflow,
            ) && *final(self) == *old(self),
            final(self).only_stack_changed(*old(self)),
    {
        if self.stack.len() == MAX_STACK_SIZE {
            return Err(VmFault::StackOverflow);
        }
        self.push_stack(value);
        Ok(())
    }

    /// Register a host resource entry under a fresh logical file descriptor
    /// and push that descriptor. It fails only on a full descriptor table or
    /// a full stack, and then changes nothing.
    pub fn register_fd(&mut self, entry: u16) -> (r: Result<u16, VmFault>)
        requires
            old(self).wf(),
        ensures
            final(self).wf(),
            r is Ok <==> old(self).fd_table@.len() < 65535 && old(self).stack@.len()
                < MAX_STACK_SIZE,
            r matches Ok(fd) ==> fd as int == old(self).fd_table@.len() && final(self).fd_table@
                == old(self).fd_table@.push(entry) && final(self).stack@
                == old(self).stack@.push(StackValues::U16(fd)) && final(self).memory_unchanged(
                *old(self),
            ) && final(self).call_stack == old(self).call_stack && final(self).running == old(
                self,
            ).running && final(self).dll_count == old(self).dll_count && final(self).pc == old(
                self,
            ).pc && final(self).instructions == old(self).instructions,
            r is Err ==> *final(self) == *old(self) && r == Err::<u16, VmFault>(
                if old(self).fd_table@.len() >= 65535 {
                    VmFault::UnknownFd
                } else {
                    VmFault::StackOverflow
                },
            ),
    {
        if self.fd_table.len() >= 65535 {
            return Err(VmFault::UnknownFd);
        }
        if self.stack.len() == MAX_STACK_SIZE {
            return Err(VmFault::StackOverflow);
        }
        let fd = self.fd_table.len() as u16;
        self.fd_table.push(entry);
        self.push_stack(StackValues::U16(fd));
        Ok(fd)
    }

    /// Note that the host opened another dynamic library and push its
    /// handle, the next index in the loaded-libraries table. It fails only
    /// on a full table or a full stack, and then changes nothing.
    pub fn register_library(&mut self) -> (r: Result<u16, VmFault>)
        requires
            old(self).wf(),
        ensures
            final(self).wf(),
            r is Ok <==> old(self).dll_count < 65535 && old(self).stack@.len() < MAX_STACK_SIZE,
            r matches Ok(h) ==> h == old(self).dll_count && final(self).dll_count
                == old(self).dll_count + 1 && final(self).stack@
                == old(self).stack@.push(StackValues::U16(h)) && final(self).memory_unchanged(
                *old(self),
            ) && final(self).call_stack == old(self).call_stack && final(self).running == old(
                self,
            ).running && final(self).fd_table == old(self).fd_table && final(self).pc == old(
                self,
            ).pc && final(self).instructions == old(self).instructions,
            r is Err ==> *final(self) == *old(self) && r == Err::<u16, VmFault>(
                if old(self).dll_count >= 65535 {
                    VmFault::UnknownLibrary
                } else {
                    VmFault::StackOverflow
                },
            ),
    {
        if self.dll_count == 65535 {
            return Err(VmFault::UnknownLibrary);
        }
        if self.stack.len() == MAX_STACK_SIZE {
            return Err(VmFault::StackOverflow);
        }
        let h = self.dll_count;
        self.dll_count = self.dll_count + 1;
        self.push_stack(StackValues::U16(h));
        Ok(h)
    }

    /// Copy bytes the host read into the raw region at `addr` and push how
    /// many were transferred. It fails only when the bytes do not fit below
    /// the raw region's end or the stack is full, and then changes nothing.
    pub fn complete_read(&mut self, addr: u16, bytes: &Vec<u8>) -> (r: Result<(), VmFault>)
        requires
            old(self).wf(),
        ensures
            final(self).wf(),
            r is Ok <==> addr + bytes@.len() <= old(self).memory@.len() && old(self).stack@.len()
                < MAX_STACK_SIZE,
            r is Err ==> *final(self) == *old(self) && r == Err::<(), VmFault>(
                if addr + bytes@.len() > old(self).memory@.len() {
                    VmFault::InvalidPointer
                } else {
                    VmFault::StackOverflow
                },
            ),
            r is Ok ==> final(self).heap == old(self).heap && final(self).constant_pools == old(
                self,
            ).constant_pools && final(self).call_stack == old(self).call_stack && final(self).free_list == old(self).free_list && final(self).allocated_memory == old(
                self,
            ).allocated_memory && final(self).pc == old(self).pc && final(self).running == old(
                self,
            ).running && final(self).instructions == old(self).instructions && final(self).fd_table == old(self).fd_table && final(self).dll_count == old(self).dll_count,
            r is Ok ==> addr + bytes@.len() <= old(self).memory@.len() && final(self).memory@.len()
                == old(self).memory@.len() && (forall|i: int|
                0 <= i < bytes@.len() ==> final(self).memory@[addr + i] == bytes@[i]) && (forall|
                j: int,
            |
                0 <= j < old(self).memory@.len() && !(addr <= j < addr + bytes@.len())
                    ==> final(self).memory@[j] == old(self).memory@[j])
                && final(self).stack@ == old(self).stack@.push(
                StackValues::U16(bytes@.len() as u16),
            ),
    {
        if bytes.len() > self.memory.len() || addr as usize > self.memory.len() - bytes.len() {
            return Err(VmFault::InvalidPointer);
        }
        if self.stack.len() == MAX_STACK_SIZE {
            return Err(VmFault::StackOverflow);
        }
        let mut i: usize = 0;
        while i < bytes.len()
            invariant
                self.wf(),
                i <= bytes@.len(),
                addr + bytes@.len() <= self.memory@.len(),
                self.memory@.len() == old(self).memory@.len(),
                self.heap == old(self).heap,
                self.stack == old(self).stack,
                self.constant_pools == old(self).constant_pools,
                self.call_stack == old(self).call_stack,
                self.free_list == old(self).free_list,
                self.allocated_memory == old(self).allocated_memory,
                self.pc == old(self).pc,
                self.running == old(self).running,
                self.instructions == old(self).instructions,
                self.fd_table == old(self).fd_table,
                self.dll_count == old(self).dll_count,
                self.stack@.len() < MAX_STACK_SIZE,
                forall|j: int| 0 <= j < i ==> self.memory@[addr + j] == bytes@[j],
                forall|j: int|
                    0 <= j < old(self).memory@.len() && !(addr <= j < addr + i) ==> self.memory@[j]
                        == old(self).memory@[j],
            decreases bytes@.len() - i,
        {
            let b = bytes[i];
            self.memory[addr as usize + i] = b;
            i = i + 1;
        }
        let count = #[verifier::truncate] (bytes.len() as u16);
        self.push_stack(StackValues::U16(count));
        Ok(())
    }
}

} // verus!
