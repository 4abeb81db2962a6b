//! The machine itself: a typed operand stack, a dual-region heap with an
//! allocation table and a free list, a constant pool, a call stack, and the
//! loaded program.

use vstd::prelude::*;
use crate::codec::ByteCodeCompiler;
use crate::instruction::Instruction;
use crate::word::{PointerType, StackValues};

verus! {

/// Capacity of the evaluation stack; overflow is fatal.
pub const MAX_STACK_SIZE: usize = 4096;

/// Number of constant-pool cells.
pub const CONST_POOL_SIZE: usize = 4096;

/// The largest extent of one region, chosen so that a base, a size, and
/// their sum all fit in sixteen bits.
pub const ADDRESS_SPACE: usize = 65535;

/// A contiguous range of one heap region: a live allocation or a free-list
/// entry, depending on the table it sits in.
#[derive(Debug, Clone, Copy, PartialEq, Eq, Structural)]
pub struct MemRange {
    pub base: u16,
    pub size: u16,
    pub region: PointerType,
}

/// Whether some range in `rs` of region `region` covers address `a`.
pub open spec fn covers(rs: Seq<MemRange>, a: int, region: PointerType) -> bool {
    exists|i: int|
        0 <= i < rs.len() && (#[trigger] rs[i]).region == region && rs[i].base <= a < rs[i].base
            + rs[i].size
}

/// Two ranges overlap nowhere: they sit in different regions or one ends
/// before the other begins.
pub open spec fn range_disjoint(a: MemRange, b: MemRange) -> bool {
    ||| a.region != b.region
    ||| a.base + a.size <= b.base
    ||| b.base + b.size <= a.base
}

/// The range lies inside its region as grown so far.
pub open spec fn range_in_region(r: MemRange, raw_len: int, cell_len: int) -> bool {
    match r.region {
        PointerType::RawPointer => r.base + r.size <= raw_len,
        PointerType::StackValuesPointer => r.base + r.size <= cell_len,
    }
}

/// What the machine can abort on at run time.
#[derive(Debug, Clone, Copy, PartialEq, Eq, Structural)]
pub enum VmFault {
    /// A pop from an empty stack, or a peek deeper than the stack holds.
    StackUnderflow,
    /// A push onto a full stack.
    StackOverflow,
    /// An operand combination the opcode is not defined on.
    TypeMismatch,
    /// `DIV` with divisor zero.
    DivisionByZero,
    /// `SHL` or `SHR` by sixteen bits or more.
    ShiftOutOfRange,
    /// An instruction that needs an immediate but carries none.
    MissingOperand,
    /// An immediate of the wrong kind (for instance a float as a jump target).
    BadOperand,
    /// A constant-pool index at or past the pool's end.
    PoolIndexOutOfRange,
    /// A pointer, or an adjusted pointer, that no live allocation contains.
    InvalidPointer,
    /// `RET` with an empty call stack.
    EmptyCallStack,
    /// The heap cannot satisfy an allocation request.
    AllocationFailed,
    /// A string read from memory that never reaches a terminator, or holds a
    /// non-numeric cell.
    InvalidString,
    /// A library handle that names no loaded library.
    UnknownLibrary,
    /// A logical file descriptor with no table entry.
    UnknownFd,
}

/// The 16-bit stack virtual machine.
#[derive(Debug)]
pub struct QuarkVM {
    /// The evaluation stack; the last element is the top.
    pub stack: Vec<StackValues>,
    /// The raw region: byte-granular heap memory.
    pub memory: Vec<u8>,
    /// The cell region: heap memory granular in `StackValues`.
    pub heap: Vec<StackValues>,
    /// The constant pool, a fixed array of cells.
    pub constant_pools: Vec<StackValues>,
    /// Return addresses, pushed by `CALL` and popped by `RET`.
    pub call_stack: Vec<u16>,
    /// Freed ranges not yet reused, sorted by base within each region.
    pub free_list: Vec<MemRange>,
    /// The live allocations.
    pub allocated_memory: Vec<MemRange>,
    /// The program counter.
    pub pc: u16,
    /// False once the machine has halted.
    pub running: bool,
    /// The loaded program; immutable during execution.
    pub instructions: Vec<Instruction>,
    /// Where the program came from or goes to, if anywhere.
    pub byte_code_file: Option<ByteCodeCompiler>,
    /// Logical file descriptors: the value at index `fd` names an entry in
    /// the host's table of open resources.
    pub fd_table: Vec<u16>,
    /// How many dynamic libraries the host has opened for this machine.
    pub dll_count: u16,
}

impl QuarkVM {
    /// All heap bookkeeping entries: live allocations, then free ranges.
    pub open spec fn entries(self) -> Seq<MemRange> {
        self.allocated_memory@ + self.free_list@
    }

    /// The heap invariant: every entry is nonempty and inside its region,
    /// no two entries overlap, and the free list is ordered by base within
    /// each region.
    pub open spec fn mem_wf(self) -> bool {
        &&& self.memory@.len() <= ADDRESS_SPACE
        &&& self.heap@.len() <= ADDRESS_SPACE
        &&& forall|i: int|
            0 <= i < self.entries().len() ==> range_in_region(
                #[trigger] self.entries()[i],
                self.memory@.len() as int,
                self.heap@.len() as int,
            )
        &&& forall|i: int| 0 <= i < self.entries().len() ==> (#[trigger] self.entries()[i]).size >= 1
        &&& forall|i: int, j: int|
            0 <= i < j < self.entries().len() ==> range_disjoint(
                #[trigger] self.entries()[i],
                #[trigger] self.entries()[j],
            )
        &&& forall|i: int, j: int|
            0 <= i < j < self.free_list@.len() && (#[trigger] self.free_list@[i]).region == (
            #[trigger] self.free_list@[j]).region ==> self.free_list@[i].base
                + self.free_list@[i].size <= self.free_list@[j].base
    }

    /// The machine invariant.
    pub open spec fn wf(self) -> bool {
        &&& self.mem_wf()
        &&& self.stack@.len() <= MAX_STACK_SIZE
        &&& self.constant_pools@.len() == CONST_POOL_SIZE
        &&& self.instructions@.len() <= 65535
    }

    /// A fresh machine around a bytecode file, with an empty stack, empty
    /// heaps, and a zeroed constant pool.
    pub fn new(byte_code_compiler: ByteCodeCompiler) -> (r: Self)
        ensures
            r.wf(),
            r.stack@.len() == 0,
            r.memory@.len() == 0,
            r.heap@.len() == 0,
            r.call_stack@.len() == 0,
            r.free_list@.len() == 0,
            r.allocated_memory@.len() == 0,
            r.pc == 0,
            r.running,
            r.instructions@.len() == 0,
            r.fd_table@.len() == 0,
            r.dll_count == 0,
            r.byte_code_file == Some(byte_code_compiler),
            forall|i: int|
                0 <= i < CONST_POOL_SIZE ==> r.constant_pools@[i] == StackValues::U16(0),
    {
        let mut constant_pools: Vec<StackValues> = Vec::new();
        let mut i: usize = 0;
        while i < CONST_POOL_SIZE
            invariant
                i <= CONST_POOL_SIZE,
                constant_pools@.len() == i,
                forall|j: int| 0 <= j < i ==> constant_pools@[j] == StackValues::U16(0),
            decreases CONST_POOL_SIZE - i,
        {
            constant_pools.push(StackValues::U16(0));
            i = i + 1;
        }
        QuarkVM {
            stack: Vec::new(),
            memory: Vec::new(),
            heap: Vec::new(),
            constant_pools,
            call_stack: Vec::new(),
            free_list: Vec::new(),
            allocated_memory: Vec::new(),
            pc: 0,
            running: true,
            instructions: Vec::new(),
            byte_code_file: Some(byte_code_compiler),
            fd_table: Vec::new(),
            dll_count: 0,
        }
    }

    /// The stack pointer: the index of the top element, or minus one when
    /// the stack is empty.
    pub fn sp(&self) -> (r: i16)
        requires
            self.stack@.len() <= MAX_STACK_SIZE,
        ensures
            r as int == self.stack@.len() - 1,
    {
        (self.stack.len() as i16) - 1
    }

    /// Pop the top of the stack; the stack must not be empty.
    pub fn pop_stack(&mut self) -> (r: StackValues)
        requires
            old(self).stack@.len() > 0,
        ensures
            r == old(self).stack@.last(),
            final(self).stack@ == old(self).stack@.drop_last(),
            final(self).memory == old(self).memory,
            final(self).heap == old(self).heap,
            final(self).constant_pools == old(self).constant_pools,
            final(self).call_stack == old(self).call_stack,
            final(self).free_list == old(self).free_list,
            final(self).allocated_memory == old(self).allocated_memory,
            final(self).pc == old(self).pc,
            final(self).running == old(self).running,
            final(self).instructions == old(self).instructions,
            final(self).fd_table == old(self).fd_table,
            final(self).dll_count == old(self).dll_count,
    {
        let r = self.stack.pop().unwrap();
        proof {
            assert(final(self).stack@ =~= old(self).stack@.drop_last());
        }
        r
    }

    /// Push a value; the stack must have room.
    pub fn push_stack(&mut self, value: StackValues)
        requires
            old(self).stack@.len() < MAX_STACK_SIZE,
        ensures
            final(self).stack@ == old(self).stack@.push(value),
            final(self).memory == old(self).memory,
            final(self).heap == old(self).heap,
            final(self).constant_pools == old(self).constant_pools,
            final(self).call_stack == old(self).call_stack,
            final(self).free_list == old(self).free_list,
            final(self).allocated_memory == old(self).allocated_memory,
            final(self).pc == old(self).pc,
            final(self).running == old(self).running,
            final(self).instructions == old(self).instructions,
            final(self).fd_table == old(self).fd_table,
            final(self).dll_count == old(self).dll_count,
    {
        self.stack.push(value);
    }
}

} // verus!
