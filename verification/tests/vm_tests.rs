use proton::codec::ByteCodeCompiler;
use proton::exec::Effect;
use proton::instruction::{
    Instruction, InstructionType, DEBUG, DEFINE_ADD, DEFINE_ALLOC, DEFINE_ALLOC_RAW, DEFINE_CALL,
    DEFINE_DEREF, DEFINE_DIV, DEFINE_DUP, DEFINE_INSWAP, DEFINE_LOAD, DEFINE_POP,
    DEFINE_PRINT, DEFINE_PUSH, DEFINE_PUSH_STR, DEFINE_PUT, DEFINE_REF, DEFINE_RET, DEFINE_STORE,
    DEFINE_SUB, DEFINE_SYSCALL,
};
use proton::vm::{MemRange, QuarkVM, VmFault};
use proton::word::{PointerType, StackValues, Word};

fn machine(program: Vec<Instruction>) -> QuarkVM {
    let mut vm = QuarkVM::new(ByteCodeCompiler::new("test.qvm"));
    assert_eq!(vm.sp(), -1);
    vm.instructions = program;
    vm
}

fn plain(tt: InstructionType) -> Instruction {
    Instruction { tt, values: None }
}

#[test]
fn s1_arithmetic_chain_leaves_61() {
    let mut vm = machine(vec![
        DEFINE_PUSH(17),
        DEFINE_PUSH(27),
        DEFINE_ADD(),
        DEFINE_PUSH(37),
        DEFINE_ADD(),
        DEFINE_PUSH(20),
        DEFINE_SUB(),
        DEBUG(),
    ]);
    let effect = vm.run(100).unwrap();
    assert_eq!(effect, Effect::Debug);
    assert_eq!(vm.stack.last(), Some(&StackValues::U16(61)));
}

#[test]
fn s2_unsigned_subtraction_saturates_at_zero() {
    let mut vm = machine(vec![DEFINE_PUSH(3), DEFINE_PUSH(5), DEFINE_SUB()]);
    vm.run(100).unwrap();
    assert!(!vm.running);
    assert_eq!(vm.stack.last(), Some(&StackValues::U16(0)));
}

#[test]
fn s3_fibonacci_prints_first_ten_terms() {
    // slot 0: current, slot 1: next, slot 2: count; the loop body starts
    // at index 6 and prints the current term each pass.
    let mut vm = machine(vec![
        DEFINE_PUSH(0),
        DEFINE_STORE(0),
        DEFINE_PUSH(1),
        DEFINE_STORE(1),
        DEFINE_PUSH(10),
        DEFINE_STORE(2),
        DEFINE_LOAD(Some(0)),
        DEFINE_PRINT(),
        DEFINE_POP(),
        DEFINE_LOAD(Some(0)),
        DEFINE_LOAD(Some(1)),
        DEFINE_ADD(),
        DEFINE_STORE(3),
        DEFINE_LOAD(Some(1)),
        DEFINE_STORE(0),
        DEFINE_LOAD(Some(3)),
        DEFINE_STORE(1),
        DEFINE_LOAD(Some(2)),
        DEFINE_PUSH(1),
        DEFINE_SUB(),
        DEFINE_STORE(2),
        DEFINE_LOAD(Some(2)),
        Instruction {
            tt: InstructionType::INST_JMPNZ,
            values: Some(vec![Word::U16(6)]),
        },
        DEFINE_POP(),
    ]);
    let mut printed: Vec<u16> = Vec::new();
    loop {
        match vm.run(10_000).unwrap() {
            Effect::Print(StackValues::U16(v)) => printed.push(v),
            Effect::Quiet => {
                if !vm.running {
                    break;
                }
            }
            other => panic!("unexpected effect {:?}", other),
        }
    }
    assert_eq!(printed, vec![0, 1, 1, 2, 3, 5, 8, 13, 21, 34]);
}

#[test]
fn s4_string_print_shows_first_cell() {
    let mut vm = machine(vec![DEFINE_PUSH_STR("hi"), DEFINE_DEREF(), DEFINE_PRINT()]);
    let effect = vm.run(100).unwrap();
    assert_eq!(effect, Effect::Print(StackValues::U16(104)));
    assert_eq!(
        &vm.heap[0..3],
        &[
            StackValues::U16(104),
            StackValues::U16(105),
            StackValues::U16(0)
        ]
    );
    assert_eq!(
        vm.allocated_memory,
        vec![MemRange {
            base: 0,
            size: 3,
            region: PointerType::StackValuesPointer
        }]
    );
}

#[test]
fn s5_call_and_return_leave_99_on_top() {
    let mut vm = machine(vec![
        DEFINE_CALL(3),
        DEBUG(),
        plain(InstructionType::INST_NOOP),
        DEFINE_PUSH(99),
        DEFINE_RET(),
    ]);
    vm.determine_function().unwrap(); // CALL
    assert_eq!(vm.pc, 3);
    assert_eq!(vm.call_stack, vec![1]);
    vm.determine_function().unwrap(); // PUSH 99
    let effect = vm.determine_function().unwrap(); // RET
    assert_eq!(effect, Effect::Quiet);
    assert_eq!(vm.pc, 1);
    assert_eq!(vm.stack.last(), Some(&StackValues::U16(99)));
    assert!(vm.call_stack.is_empty());
    assert_eq!(vm.determine_function().unwrap(), Effect::Debug);
}

#[test]
fn exit_service_halts_with_code() {
    let mut vm = machine(vec![
        DEFINE_PUSH(7),
        DEFINE_PUSH(0),
        proton::instruction::DEFINE_STD_SYSCALL(1),
    ]);
    let effect = vm.run(100).unwrap();
    assert_eq!(effect, Effect::Exit(7));
    assert!(!vm.running);
}

#[test]
fn division_by_zero_is_fatal() {
    let mut vm = machine(vec![DEFINE_PUSH(0), DEFINE_PUSH(8), DEFINE_DIV()]);
    assert_eq!(vm.run(100), Err(VmFault::DivisionByZero));
}

#[test]
fn pop_of_empty_stack_is_fatal() {
    let mut vm = machine(vec![DEFINE_POP()]);
    assert_eq!(vm.run(100), Err(VmFault::StackUnderflow));
}

#[test]
fn mixed_numeric_tags_are_fatal() {
    let mut vm = machine(vec![
        DEFINE_PUSH(2),
        Instruction {
            tt: InstructionType::INST_PUSH,
            values: Some(vec![Word::I16(-1)]),
        },
        DEFINE_ADD(),
    ]);
    assert_eq!(vm.run(100), Err(VmFault::TypeMismatch));
}

#[test]
fn pointer_arithmetic_stays_inside_the_allocation() {
    let mut vm = machine(vec![DEFINE_ALLOC(4), DEFINE_PUSH(2), DEFINE_ADD()]);
    vm.run(100).unwrap();
    assert_eq!(
        vm.stack.last(),
        Some(&StackValues::Pointer(2, PointerType::StackValuesPointer))
    );
}

#[test]
fn pointer_arithmetic_outside_every_allocation_is_fatal() {
    let mut vm = machine(vec![DEFINE_ALLOC(4), DEFINE_PUSH(10), DEFINE_ADD()]);
    assert_eq!(vm.run(100), Err(VmFault::InvalidPointer));
}

#[test]
fn deref_of_a_dangling_pointer_is_fatal() {
    let mut vm = machine(vec![DEFINE_DEREF()]);
    vm.push_stack(StackValues::Pointer(100, PointerType::RawPointer));
    assert_eq!(vm.run(100), Err(VmFault::InvalidPointer));
}

#[test]
fn deref_of_a_raw_pointer_widens_bytes_into_cells() {
    let mut vm = machine(vec![DEFINE_ALLOC_RAW(2), DEFINE_DEREF()]);
    vm.run(100).unwrap();
    assert_eq!(
        vm.stack.last(),
        Some(&StackValues::Pointer(0, PointerType::StackValuesPointer))
    );
    assert_eq!(&vm.heap[0..2], &[StackValues::U16(0), StackValues::U16(0)]);
    assert_eq!(vm.allocated_memory.len(), 2);
}

#[test]
fn put_writes_through_a_cell_pointer() {
    let mut vm = machine(vec![DEFINE_PUSH(42), DEFINE_ALLOC(2), DEFINE_PUT()]);
    vm.run(100).unwrap();
    assert_eq!(vm.heap[0], StackValues::U16(42));
    assert!(vm.stack.is_empty());
}

#[test]
fn inswap_exchanges_top_with_deeper_entry() {
    let mut vm = machine(vec![
        DEFINE_PUSH(1),
        DEFINE_PUSH(2),
        DEFINE_PUSH(3),
        DEFINE_INSWAP(2),
    ]);
    vm.run(100).unwrap();
    assert_eq!(
        vm.stack,
        vec![
            StackValues::U16(3),
            StackValues::U16(2),
            StackValues::U16(1)
        ]
    );
}

#[test]
fn store_and_load_use_the_constant_pool() {
    let mut vm = machine(vec![DEFINE_PUSH(9), DEFINE_STORE(5), DEFINE_LOAD(Some(5))]);
    vm.run(100).unwrap();
    assert_eq!(vm.constant_pools[5], StackValues::U16(9));
    assert_eq!(vm.stack, vec![StackValues::U16(9)]);
}

#[test]
fn ref_allocates_a_cell_for_the_value() {
    let mut vm = machine(vec![DEFINE_PUSH(8), DEFINE_REF()]);
    vm.run(100).unwrap();
    assert_eq!(vm.heap[0], StackValues::U16(8));
    assert_eq!(
        vm.stack,
        vec![
            StackValues::U16(8),
            StackValues::Pointer(0, PointerType::StackValuesPointer)
        ]
    );
}

#[test]
fn dup_duplicates_and_jmpz_takes_zero() {
    let mut vm = machine(vec![
        DEFINE_PUSH(0),
        DEFINE_DUP(),
        Instruction {
            tt: InstructionType::INST_JMPZ,
            values: Some(vec![Word::U16(4)]),
        },
        DEFINE_PUSH(9),
        DEFINE_PUSH(7),
    ]);
    vm.run(100).unwrap();
    assert_eq!(
        vm.stack,
        vec![
            StackValues::U16(0),
            StackValues::U16(0),
            StackValues::U16(7)
        ]
    );
}

#[test]
fn shifts_use_the_second_operand_as_amount() {
    let mut vm = machine(vec![
        DEFINE_PUSH(3),
        DEFINE_PUSH(1),
        plain(InstructionType::INST_SHL),
    ]);
    vm.run(100).unwrap();
    assert_eq!(vm.stack.last(), Some(&StackValues::U16(8)));

    let mut vm = machine(vec![
        DEFINE_PUSH(16),
        DEFINE_PUSH(1),
        plain(InstructionType::INST_SHL),
    ]);
    assert_eq!(vm.run(100), Err(VmFault::ShiftOutOfRange));
}

#[test]
fn not_inverts_every_bit() {
    let mut vm = machine(vec![DEFINE_PUSH(0), plain(InstructionType::INST_NOT)]);
    vm.run(100).unwrap();
    assert_eq!(vm.stack.last(), Some(&StackValues::U16(65535)));
}

#[test]
fn raw_syscalls_come_back_as_effects() {
    let mut vm = machine(vec![DEFINE_PUSH(1), DEFINE_PUSH(60), DEFINE_SYSCALL(1)]);
    let effect = vm.run(100).unwrap();
    assert_eq!(
        effect,
        Effect::Syscall {
            num: 60,
            args: vec![StackValues::U16(1)]
        }
    );
    vm.resume_push(StackValues::U16(0)).unwrap();
    assert_eq!(vm.stack.last(), Some(&StackValues::U16(0)));
}

#[test]
fn allocator_reuses_and_coalesces_freed_ranges() {
    let mut vm = QuarkVM::new(ByteCodeCompiler::new("test.qvm"));
    assert_eq!(vm.allocate(4, PointerType::RawPointer), Ok(0));
    assert_eq!(vm.allocate(4, PointerType::RawPointer), Ok(4));
    assert!(vm.deallocate(0, PointerType::RawPointer));
    assert!(vm.deallocate(4, PointerType::RawPointer));
    assert_eq!(
        vm.free_list,
        vec![MemRange {
            base: 0,
            size: 8,
            region: PointerType::RawPointer
        }]
    );
    assert!(vm.allocated_memory.is_empty());
    assert_eq!(vm.allocate(3, PointerType::RawPointer), Ok(0));
    assert_eq!(
        vm.free_list,
        vec![MemRange {
            base: 3,
            size: 5,
            region: PointerType::RawPointer
        }]
    );
    assert_eq!(
        vm.allocated_memory,
        vec![MemRange {
            base: 0,
            size: 3,
            region: PointerType::RawPointer
        }]
    );
}

#[test]
fn deallocate_of_an_unknown_base_changes_nothing() {
    let mut vm = QuarkVM::new(ByteCodeCompiler::new("test.qvm"));
    assert_eq!(vm.allocate(4, PointerType::RawPointer), Ok(0));
    assert!(!vm.deallocate(2, PointerType::RawPointer));
    assert_eq!(vm.allocated_memory.len(), 1);
    assert!(vm.free_list.is_empty());
}

#[test]
fn regions_are_kept_apart() {
    let mut vm = QuarkVM::new(ByteCodeCompiler::new("test.qvm"));
    assert_eq!(vm.allocate(4, PointerType::RawPointer), Ok(0));
    assert_eq!(vm.allocate(4, PointerType::StackValuesPointer), Ok(0));
    assert!(vm.deallocate(0, PointerType::RawPointer));
    // the freed raw range does not satisfy a cell request
    assert_eq!(vm.allocate(2, PointerType::StackValuesPointer), Ok(4));
}

#[test]
fn straight_line_stack_growth_matches_net_arity() {
    // net effect: +1 +1 -1 +1 = 2
    let mut vm = machine(vec![
        DEFINE_PUSH(1),
        DEFINE_PUSH(2),
        DEFINE_ADD(),
        DEFINE_DUP(),
    ]);
    vm.run(100).unwrap();
    assert_eq!(vm.stack.len(), 2);
}

#[test]
fn strings_read_back_from_the_cell_region() {
    let mut vm = machine(vec![DEFINE_PUSH_STR("hi")]);
    vm.run(100).unwrap();
    assert_eq!(
        vm.get_str_from_ptr(0, PointerType::StackValuesPointer),
        Ok(vec![104, 105])
    );
    assert_eq!(
        vm.get_str_from_ptr(50, PointerType::StackValuesPointer),
        Err(VmFault::InvalidString)
    );
}

#[test]
fn complete_read_lands_in_the_raw_region() {
    let mut vm = machine(vec![DEFINE_ALLOC_RAW(4)]);
    vm.run(100).unwrap();
    vm.complete_read(0, &vec![1, 2, 3]).unwrap();
    assert_eq!(&vm.memory[0..4], &[1, 2, 3, 0]);
    assert_eq!(vm.stack.last(), Some(&StackValues::U16(3)));
}

#[test]
fn registering_descriptors_and_libraries_hands_out_indices() {
    let mut vm = QuarkVM::new(ByteCodeCompiler::new("test.qvm"));
    assert_eq!(vm.register_fd(9), Ok(0));
    assert_eq!(vm.register_fd(11), Ok(1));
    assert_eq!(vm.fd_table, vec![9, 11]);
    assert_eq!(vm.register_library(), Ok(0));
    assert_eq!(vm.register_library(), Ok(1));
    assert_eq!(vm.dll_count, 2);
    assert_eq!(
        vm.stack,
        vec![
            StackValues::U16(0),
            StackValues::U16(1),
            StackValues::U16(0),
            StackValues::U16(1)
        ]
    );
}

#[test]
fn bitwise_operators_work_on_unsigned_words() {
    let mut vm = machine(vec![
        DEFINE_PUSH(0b1100),
        DEFINE_PUSH(0b1010),
        plain(InstructionType::INST_AND),
    ]);
    vm.run(100).unwrap();
    assert_eq!(vm.stack.last(), Some(&StackValues::U16(0b1000)));

    let mut vm = machine(vec![
        DEFINE_PUSH(0b1100),
        DEFINE_PUSH(0b1010),
        plain(InstructionType::INST_XOR),
    ]);
    vm.run(100).unwrap();
    assert_eq!(vm.stack.last(), Some(&StackValues::U16(0b0110)));
}

#[test]
fn jmpeq_coerces_tags_to_signed_words() {
    // 65535 as a signed word is -1, so the comparison takes the jump
    let mut vm = machine(vec![
        Instruction {
            tt: InstructionType::INST_PUSH,
            values: Some(vec![Word::I16(-1)]),
        },
        DEFINE_PUSH(65535),
        Instruction {
            tt: InstructionType::INST_JMPEQ,
            values: Some(vec![Word::U16(4)]),
        },
        DEFINE_PUSH(7),
        DEFINE_PUSH(9),
    ]);
    vm.run(100).unwrap();
    assert_eq!(vm.stack.len(), 3);
    assert_eq!(vm.stack.last(), Some(&StackValues::U16(9)));
}

#[test]
fn library_loading_and_calling_surface_as_effects() {
    let mut vm = machine(vec![
        DEFINE_PUSH(2),
        DEFINE_PUSH_STR("m"),
        proton::instruction::DEFINE_DLL_LOAD(),
        proton::instruction::DEFINE_DLL_CALL(1, "cos"),
    ]);
    let effect = vm.run(100).unwrap();
    assert_eq!(effect, Effect::LoadLibrary { path: vec![109] });
    vm.register_library().unwrap();
    let effect = vm.run(100).unwrap();
    assert_eq!(
        effect,
        Effect::ForeignCall {
            handle: 0,
            symbol: vec![99, 111, 115],
            args: vec![StackValues::U16(2)]
        }
    );
}

#[test]
fn opening_a_file_surfaces_its_path() {
    let mut vm = machine(vec![
        DEFINE_PUSH_STR("f"),
        DEFINE_PUSH(1),
        proton::instruction::DEFINE_STD_SYSCALL(1),
    ]);
    let effect = vm.run(100).unwrap();
    assert_eq!(effect, Effect::OpenFile { path: vec![102] });
    vm.register_fd(4).unwrap();
    assert_eq!(vm.fd_table, vec![4]);
    assert_eq!(vm.stack.last(), Some(&StackValues::U16(0)));
}

#[test]
fn writing_hands_the_buffered_bytes_to_the_host() {
    let mut vm = machine(vec![
        DEFINE_PUSH(2),
        DEFINE_PUSH(0),
        DEFINE_ALLOC_RAW(4),
        DEFINE_PUSH(1),
        DEFINE_PUSH(2),
        proton::instruction::DEFINE_STD_SYSCALL(4),
    ]);
    vm.fd_table = vec![7];
    let effect = vm.run(100).unwrap();
    assert_eq!(
        effect,
        Effect::Write {
            data: vec![0, 0],
            entry: 7
        }
    );
}

#[test]
fn an_unknown_descriptor_is_fatal() {
    let mut vm = machine(vec![
        DEFINE_PUSH(2),
        DEFINE_PUSH(0),
        DEFINE_ALLOC_RAW(4),
        DEFINE_PUSH(0),
        DEFINE_PUSH(2),
        proton::instruction::DEFINE_STD_SYSCALL(4),
    ]);
    assert_eq!(vm.run(100), Err(VmFault::UnknownFd));
}

#[test]
fn allocation_is_carved_from_the_front_of_the_first_fit() {
    let mut vm = machine(vec![]);
    assert_eq!(vm.allocate(8, PointerType::RawPointer), Ok(0));
    assert_eq!(vm.allocate(2, PointerType::RawPointer), Ok(8));
    assert!(vm.deallocate(0, PointerType::RawPointer));
    // the freed range [0, 8) is first fit; requests carve it from the front
    assert_eq!(vm.allocate(3, PointerType::RawPointer), Ok(0));
    assert_eq!(vm.allocate(5, PointerType::RawPointer), Ok(3));
    // nothing fits any more: the region grows at its tail
    assert_eq!(vm.allocate(1, PointerType::RawPointer), Ok(10));
    assert_eq!(vm.memory.len(), 11);
}

#[test]
fn complete_read_outside_the_region_changes_nothing() {
    let mut vm = machine(vec![DEFINE_ALLOC_RAW(4)]);
    vm.run(100).unwrap();
    let depth = vm.stack.len();
    assert_eq!(
        vm.complete_read(3, &vec![1, 2, 3]),
        Err(VmFault::InvalidPointer)
    );
    assert_eq!(vm.stack.len(), depth);
    assert_eq!(&vm.memory[0..4], &[0, 0, 0, 0]);
}
