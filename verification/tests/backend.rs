use yjit_backend::backend::ir::{Assembler, Mem, MemBase, Op, Opnd, Target};
use yjit_backend::backend::x86_64::{c_arg_opnds, c_ret_opnd, cfp, ec, sp};
use yjit_backend::encoder::x86_64::{gp_reg, r12_reg, rax_reg, rcx_reg, rdi_reg, X86Opnd};
use yjit_backend::encoder::{CodeBlock, CodePtr};
use yjit_backend::value::Value;

#[test]
fn test_add() {
    let mut assembler = Assembler::new();
    let out = assembler.add(sp(), Opnd::UImm(1));
    let _ = assembler.add(out, Opnd::UImm(2));
}

#[test]
fn test_alloc_regs() {
    let mut assembler = Assembler::new();

    // Get the first output that we're going to reuse later.
    let out1 = assembler.add(ec(), Opnd::UImm(1));

    // Pad some instructions in to make sure it can handle that.
    let _ = assembler.add(ec(), Opnd::UImm(2));

    // Get the second output we're going to reuse.
    let out2 = assembler.add(ec(), Opnd::UImm(3));

    // Pad another instruction.
    let _ = assembler.add(ec(), Opnd::UImm(4));

    // Reuse both the previously captured outputs.
    let _ = assembler.add(out1, out2);

    // Now get a third output to make sure that the pool has registers to
    // allocate now that the previous ones have been returned.
    let out3 = assembler.add(ec(), Opnd::UImm(5));
    let _ = assembler.add(out3, Opnd::UImm(6));

    // Here we're going to allocate the registers.
    let reg1 = gp_reg(0);
    let reg2 = gp_reg(1);
    let assembler = assembler.alloc_regs(vec![reg1, reg2]);

    // Now we're going to verify that the out field has been appropriately
    // updated for each of the instructions that needs it.
    assert_eq!(assembler.insns[0].out, Opnd::Reg(reg1));
    assert_eq!(assembler.insns[2].out, Opnd::Reg(reg2));
    assert_eq!(assembler.insns[5].out, Opnd::Reg(reg1));
}

#[test]
fn live_ranges_follow_the_last_read() {
    let mut assembler = Assembler::new();
    let a = assembler.load(Opnd::UImm(1));
    let b = assembler.load(Opnd::UImm(2));
    let c = assembler.add(a, b);
    assembler.store(Opnd::mem(64, a, 8), c);
    assembler.breakpoint();
    assert_eq!(assembler.insns.len(), 5);
    assert_eq!(assembler.live_ranges, vec![3, 2, 3, 3, 4]);
    assert_eq!(a, Opnd::InsnOut { idx: 0, num_bits: 64 });
    assert_eq!(c, Opnd::InsnOut { idx: 2, num_bits: 64 });
    for i in 0..assembler.insns.len() {
        assert!(assembler.live_ranges[i] >= i);
        assert!(assembler.live_ranges[i] < assembler.insns.len());
    }
}

#[test]
fn output_width_is_that_of_the_sized_operands() {
    let mut assembler = Assembler::new();
    let narrow = assembler.load(Opnd::mem(32, Opnd::Reg(rax_reg()), 0));
    assert_eq!(narrow, Opnd::InsnOut { idx: 0, num_bits: 32 });
    let sum = assembler.add(narrow, Opnd::UImm(1));
    assert_eq!(sum, Opnd::InsnOut { idx: 1, num_bits: 32 });
    let unsized_out = assembler.load(Opnd::Imm(-1));
    assert_eq!(unsized_out, Opnd::InsnOut { idx: 2, num_bits: 64 });
}

#[test]
fn operand_conversions() {
    assert_eq!(Opnd::from(-5i32), Opnd::Imm(-5));
    assert_eq!(Opnd::from(i32::MIN), Opnd::Imm(-2147483648));
    assert_eq!(Opnd::from(7u32), Opnd::UImm(7));
    assert_eq!(Opnd::from(7usize), Opnd::UImm(7));
    assert_eq!(Opnd::from(u64::MAX), Opnd::UImm(u64::MAX));
    assert_eq!(Opnd::from(-9i64), Opnd::Imm(-9));
    assert_eq!(Opnd::from(Value(20)), Opnd::Value(Value(20)));
    assert_eq!(Target::from(CodePtr(64)), Target::CodePtr(CodePtr(64)));
    assert_eq!(Opnd::const_ptr(0x1000), Opnd::UImm(0x1000));
}

#[test]
fn width_reads_back_what_was_supplied() {
    assert_eq!(Opnd::Reg(rax_reg().sub_reg(16)).rm_num_bits(), 16);
    assert_eq!(Opnd::mem(8, Opnd::Reg(rax_reg()), 4).rm_num_bits(), 8);
    assert_eq!((Opnd::InsnOut { idx: 3, num_bits: 32 }).rm_num_bits(), 32);
    assert_eq!(Opnd::UImm(1).num_bits(), None);
    assert_eq!(Opnd::Reg(rax_reg()).num_bits(), Some(64));
}

#[test]
fn mem_keeps_base_displacement_and_width() {
    assert_eq!(
        Opnd::mem(16, Opnd::Reg(rcx_reg()), -8),
        Opnd::Mem(Mem { base: MemBase::Reg(1), disp: -8, num_bits: 16 })
    );
    assert_eq!(
        Opnd::mem(32, Opnd::InsnOut { idx: 4, num_bits: 64 }, 12),
        Opnd::Mem(Mem { base: MemBase::InsnOut(4), disp: 12, num_bits: 32 })
    );
}

#[test]
fn operand_predicates() {
    assert!(!Opnd::Absent.is_some());
    assert!(Opnd::UImm(0).is_some());
    assert_eq!(Opnd::Reg(rcx_reg()).unwrap_reg(), rcx_reg());
    assert_eq!(Target::FunPtr(77).unwrap_fun_ptr(), 77);
    assert_eq!(Target::Label(3).unwrap_label_idx(), 3);
    assert_eq!(Target::CodePtr(CodePtr(9)).unwrap_code_ptr(), CodePtr(9));
}

#[test]
fn map_index_renumbers_references_only() {
    let indices = vec![5usize, 7, 9];
    assert_eq!(
        (Opnd::InsnOut { idx: 1, num_bits: 32 }).map_index(&indices),
        Opnd::InsnOut { idx: 7, num_bits: 32 }
    );
    assert_eq!(
        Opnd::Mem(Mem { base: MemBase::InsnOut(2), disp: 4, num_bits: 64 }).map_index(&indices),
        Opnd::Mem(Mem { base: MemBase::InsnOut(9), disp: 4, num_bits: 64 })
    );
    assert_eq!(Opnd::UImm(1).map_index(&indices), Opnd::UImm(1));
    assert_eq!(Opnd::Reg(rax_reg()).map_index(&indices), Opnd::Reg(rax_reg()));
}

#[test]
fn platform_registers() {
    assert_eq!(ec(), Opnd::Reg(r12_reg()));
    assert_eq!(cfp(), Opnd::Reg(gp_reg(13)));
    assert_eq!(sp(), Opnd::Reg(gp_reg(3)));
    assert_eq!(c_ret_opnd(), Opnd::Reg(rax_reg()));
    let args = c_arg_opnds();
    assert_eq!(args.len(), 6);
    assert_eq!(args[0], Opnd::Reg(rdi_reg()));
    assert_eq!(args[5], Opnd::Reg(gp_reg(9)));
    assert_eq!(Assembler::get_alloc_regs(), vec![gp_reg(0), gp_reg(1), gp_reg(2)]);
    assert_eq!(Assembler::get_caller_save_regs().len(), 9);
}

#[test]
fn lowering_of_operands() {
    assert_eq!(X86Opnd::from(Opnd::Reg(rax_reg())), X86Opnd::Reg(rax_reg()));
    assert_eq!(Opnd::from_x86_opnd(X86Opnd::Reg(rcx_reg())), Opnd::Reg(rcx_reg()));
    let mem = Opnd::mem(32, Opnd::Reg(rcx_reg()), 16);
    assert_eq!(Opnd::from_x86_opnd(X86Opnd::from(mem)), mem);
}

#[test]
fn labels_are_numbered_in_order() {
    let mut assembler = Assembler::new();
    let first = assembler.new_label("first");
    let second = assembler.new_label("second_label");
    assert_eq!(first, Target::Label(0));
    assert_eq!(second, Target::Label(1));
    assembler.write_label(second);
    assert_eq!(assembler.insns[0].op, Op::Label);
    assert_eq!(assembler.insns[0].target, Some(second));
    assert_eq!(assembler.insns[0].opnds.len(), 0);
    assert_eq!(assembler.live_ranges, vec![0]);
    assert_eq!(assembler.label_names, vec!["first".to_string(), "second_label".to_string()]);
}

#[test]
fn draining_iterator_keeps_the_index_table() {
    let mut old = Assembler::new();
    let a = old.load(Opnd::UImm(1));
    let _ = old.add(a, Opnd::UImm(2));
    let mut target = Assembler::new();
    let mut iterator = old.into_draining_iter();

    let (index, insn) = iterator.next_unmapped().unwrap();
    assert_eq!(index, 0);
    assert_eq!(insn.op, Op::Load);
    // Two new instructions stand for the first old one.
    target.comment("first");
    let _ = target.load(Opnd::UImm(1));
    iterator.map_insn_index(&mut target);
    assert_eq!(iterator.map_opnd(a), Opnd::InsnOut { idx: 1, num_bits: 64 });

    let (index, insn) = iterator.next_mapped().unwrap();
    assert_eq!(index, 1);
    assert_eq!(insn.op, Op::Add);
    assert_eq!(insn.opnds, vec![Opnd::InsnOut { idx: 1, num_bits: 64 }, Opnd::UImm(2)]);
    assert!(iterator.next_unmapped().is_none());
    assert!(iterator.next_mapped().is_none());
}

#[test]
fn lookback_iterator_looks_around() {
    let mut assembler = Assembler::new();
    assembler.breakpoint();
    assembler.frame_setup();
    assembler.frame_teardown();
    let mut iterator = assembler.into_lookback_iter();
    assert!(iterator.get_previous().is_none());
    assert_eq!(iterator.get_next().unwrap().op, Op::FrameSetup);
    assert_eq!(iterator.get(2).unwrap().op, Op::FrameTeardown);
    assert!(iterator.get(3).is_none());
    let (index, insn) = iterator.next_unmapped().unwrap();
    assert_eq!((index, insn.op), (0, Op::Breakpoint));
    assert_eq!(iterator.get_previous().unwrap().op, Op::Breakpoint);
    assert_eq!(iterator.get_relative(0).unwrap().op, Op::FrameSetup);
    assert_eq!(iterator.get_relative(1).unwrap().op, Op::FrameTeardown);
    assert!(iterator.get_relative(2).is_none());
    assert!(iterator.get_relative(-2).is_none());
    let _ = iterator.next_unmapped();
    let _ = iterator.next_unmapped();
    assert!(iterator.next_unmapped().is_none());
}

#[test]
fn small_special_value_becomes_an_immediate() {
    let mut assembler = Assembler::new();
    // A small integer of the language: an immediate that fits 32 bits.
    assembler.cmp(Opnd::Reg(rax_reg()), Opnd::Value(Value(3)));
    let split = assembler.x86_split();
    assert_eq!(split.insns.len(), 1);
    assert_eq!(split.insns[0].op, Op::Cmp);
    assert_eq!(split.insns[0].opnds, vec![Opnd::Reg(rax_reg()), Opnd::UImm(3)]);
}

#[test]
fn heap_value_is_loaded_first() {
    let mut assembler = Assembler::new();
    assembler.cmp(Opnd::Reg(rax_reg()), Opnd::Value(Value(0x1000)));
    let split = assembler.x86_split();
    assert_eq!(split.insns.len(), 2);
    assert_eq!(split.insns[0].op, Op::Load);
    assert_eq!(split.insns[0].opnds, vec![Opnd::Value(Value(0x1000))]);
    assert_eq!(split.insns[1].op, Op::Cmp);
    assert_eq!(
        split.insns[1].opnds,
        vec![Opnd::Reg(rax_reg()), Opnd::InsnOut { idx: 0, num_bits: 64 }]
    );
    assert_eq!(split.live_ranges, vec![1, 1]);
}

#[test]
fn wide_special_value_is_loaded_first() {
    let mut assembler = Assembler::new();
    assembler.cmp(Opnd::Reg(rax_reg()), Opnd::Value(Value(0x7fff_ffff_ffff_fff1)));
    let split = assembler.x86_split();
    assert_eq!(split.insns.len(), 2);
    assert_eq!(split.insns[0].op, Op::Load);
}

#[test]
fn value_in_a_load_stays() {
    let mut assembler = Assembler::new();
    let _ = assembler.load(Opnd::Value(Value(0x1000)));
    let split = assembler.x86_split();
    assert_eq!(split.insns.len(), 1);
    assert_eq!(split.insns[0].opnds, vec![Opnd::Value(Value(0x1000))]);
}

#[test]
fn split_loads_left_memory_operand() {
    let mut assembler = Assembler::new();
    let left = Opnd::mem(64, Opnd::Reg(rax_reg()), 0);
    let right = Opnd::mem(64, Opnd::Reg(rcx_reg()), 8);
    let _ = assembler.add(left, right);
    let split = assembler.x86_split();
    assert_eq!(split.insns.len(), 2);
    assert_eq!(split.insns[0].op, Op::Load);
    assert_eq!(split.insns[0].opnds, vec![left]);
    assert_eq!(split.insns[1].op, Op::Add);
    assert_eq!(split.insns[1].opnds, vec![Opnd::InsnOut { idx: 0, num_bits: 64 }, right]);
}

#[test]
fn split_loads_output_that_lives_on() {
    let mut assembler = Assembler::new();
    let t = assembler.load(Opnd::mem(64, Opnd::Reg(rax_reg()), 0));
    let _ = assembler.add(t, Opnd::UImm(1));
    let _ = assembler.sub(t, Opnd::UImm(2));
    let split = assembler.x86_split();
    let ops: Vec<Op> = split.insns.iter().map(|insn| insn.op).collect();
    assert_eq!(ops, vec![Op::Load, Op::Load, Op::Add, Op::Sub]);
    assert_eq!(split.insns[1].opnds, vec![Opnd::InsnOut { idx: 0, num_bits: 64 }]);
    assert_eq!(split.insns[2].opnds, vec![Opnd::InsnOut { idx: 1, num_bits: 64 }, Opnd::UImm(1)]);
    // At its last read the output is worked on in place.
    assert_eq!(split.insns[3].opnds, vec![Opnd::InsnOut { idx: 0, num_bits: 64 }, Opnd::UImm(2)]);
    assert_eq!(split.live_ranges, vec![3, 2, 2, 3]);
}

#[test]
fn split_compare_loads_right_memory_operand() {
    let mut assembler = Assembler::new();
    let left = Opnd::mem(64, Opnd::Reg(rax_reg()), 0);
    let right = Opnd::mem(64, Opnd::Reg(rcx_reg()), 8);
    assembler.test(left, right);
    let split = assembler.x86_split();
    assert_eq!(split.insns.len(), 2);
    assert_eq!(split.insns[0].opnds, vec![right]);
    assert_eq!(split.insns[1].op, Op::Test);
    assert_eq!(split.insns[1].opnds, vec![left, Opnd::InsnOut { idx: 0, num_bits: 64 }]);
}

#[test]
fn split_move_to_memory() {
    let dest = Opnd::mem(64, Opnd::Reg(rax_reg()), 0);

    let mut assembler = Assembler::new();
    assembler.mov(dest, Opnd::UImm(0x7fff_ffff));
    let split = assembler.x86_split();
    assert_eq!(split.insns.len(), 1);
    assert_eq!(split.insns[0].opnds, vec![dest, Opnd::UImm(0x7fff_ffff)]);

    let mut assembler = Assembler::new();
    assembler.mov(dest, Opnd::UImm(0x8000_0000));
    let split = assembler.x86_split();
    assert_eq!(split.insns.len(), 2);
    assert_eq!(split.insns[0].op, Op::Load);
    assert_eq!(split.insns[1].opnds, vec![dest, Opnd::InsnOut { idx: 0, num_bits: 64 }]);

    let mut assembler = Assembler::new();
    assembler.mov(dest, Opnd::Imm(-0x8000_0001));
    assert_eq!(assembler.x86_split().insns.len(), 2);

    let mut assembler = Assembler::new();
    assembler.mov(dest, Opnd::mem(64, Opnd::Reg(rcx_reg()), 0));
    assert_eq!(assembler.x86_split().insns.len(), 2);

    let mut assembler = Assembler::new();
    assembler.mov(Opnd::Reg(rax_reg()), Opnd::UImm(0xffff_ffff_ffff));
    assert_eq!(assembler.x86_split().insns.len(), 1);
}

#[test]
fn split_not_and_shift_keep_registers_intact() {
    let mut assembler = Assembler::new();
    let _ = assembler.not(Opnd::Reg(rax_reg()));
    let _ = assembler.lshift(Opnd::Reg(rcx_reg()), Opnd::UImm(3));
    let split = assembler.x86_split();
    let ops: Vec<Op> = split.insns.iter().map(|insn| insn.op).collect();
    assert_eq!(ops, vec![Op::Load, Op::Not, Op::Load, Op::LShift]);
    assert_eq!(split.insns[1].opnds, vec![Opnd::InsnOut { idx: 0, num_bits: 64 }]);
    assert_eq!(split.insns[3].opnds, vec![Opnd::InsnOut { idx: 2, num_bits: 64 }, Opnd::UImm(3)]);
}

#[test]
fn split_select_loads_immediates() {
    let mut assembler = Assembler::new();
    let _ = assembler.csel_e(Opnd::UImm(1), Opnd::Imm(0));
    let split = assembler.x86_split();
    let ops: Vec<Op> = split.insns.iter().map(|insn| insn.op).collect();
    assert_eq!(ops, vec![Op::Load, Op::Load, Op::CSelE]);
    assert_eq!(
        split.insns[2].opnds,
        vec![Opnd::InsnOut { idx: 0, num_bits: 64 }, Opnd::InsnOut { idx: 1, num_bits: 64 }]
    );
}

#[test]
fn split_call_loads_arguments_into_registers() {
    let mut assembler = Assembler::new();
    let args: Vec<Opnd> = (1..=6u64).map(Opnd::UImm).collect();
    let _ = assembler.ccall(0x1234, args);
    let split = assembler.x86_split();
    assert_eq!(split.insns.len(), 7);
    let regs = c_arg_opnds();
    for i in 0..6 {
        assert_eq!(split.insns[i].op, Op::LoadInto);
        assert_eq!(split.insns[i].opnds, vec![regs[i], Opnd::UImm(i as u64 + 1)]);
    }
    assert_eq!(split.insns[6].op, Op::CCall);
    assert_eq!(split.insns[6].opnds.len(), 0);
    assert_eq!(split.insns[6].target, Some(Target::FunPtr(0x1234)));
}

#[test]
fn split_of_legal_code_changes_nothing() {
    let mut assembler = Assembler::new();
    let t = assembler.load(Opnd::mem(64, Opnd::Reg(rax_reg()), 0));
    let u = assembler.add(t, Opnd::UImm(1));
    assembler.cmp(u, Opnd::UImm(5));
    assembler.mov(Opnd::mem(64, Opnd::Reg(rax_reg()), 0), u);
    let once = assembler.x86_split();
    let ops: Vec<Op> = once.insns.iter().map(|insn| insn.op).collect();
    let opnds: Vec<Vec<Opnd>> = once.insns.iter().map(|insn| insn.opnds.clone()).collect();
    let live_ranges = once.live_ranges.clone();
    let twice = once.x86_split();
    assert_eq!(twice.insns.iter().map(|insn| insn.op).collect::<Vec<Op>>(), ops);
    assert_eq!(twice.insns.iter().map(|insn| insn.opnds.clone()).collect::<Vec<Vec<Opnd>>>(), opnds);
    assert_eq!(twice.live_ranges, live_ranges);
}

#[test]
fn allocation_leaves_no_reference_and_adds_nothing() {
    let mut assembler = Assembler::new();
    let t = assembler.load(Opnd::mem(64, Opnd::Reg(rax_reg()), 0));
    let u = assembler.add(t, Opnd::UImm(1));
    assembler.store(Opnd::mem(32, u, 4), Opnd::UImm(0));
    let before: Vec<Op> = assembler.insns.iter().map(|insn| insn.op).collect();
    let allocated = assembler.alloc_regs(Assembler::get_alloc_regs());
    let after: Vec<Op> = allocated.insns.iter().map(|insn| insn.op).collect();
    assert_eq!(before, after);
    assert_eq!(allocated.insns[0].out, Opnd::Reg(rax_reg()));
    // The sum takes over the register of its dying first operand.
    assert_eq!(allocated.insns[1].out, Opnd::Reg(rax_reg()));
    assert_eq!(allocated.insns[1].opnds, vec![Opnd::Reg(rax_reg()), Opnd::UImm(1)]);
    assert_eq!(allocated.insns[2].out, Opnd::Absent);
    assert_eq!(
        allocated.insns[2].opnds,
        vec![Opnd::Mem(Mem { base: MemBase::Reg(0), disp: 4, num_bits: 32 }), Opnd::UImm(0)]
    );
}

#[test]
fn allocation_narrows_the_register_to_the_output() {
    let mut assembler = Assembler::new();
    let t = assembler.load(Opnd::mem(32, Opnd::Reg(rax_reg()), 0));
    assembler.cpush(t);
    let allocated = assembler.alloc_regs(Assembler::get_alloc_regs());
    assert_eq!(allocated.insns[0].out, Opnd::Reg(rax_reg().sub_reg(32)));
}

#[test]
fn allocation_of_call_and_live_register() {
    let mut assembler = Assembler::new();
    let claimed = assembler.live_reg_opnd(Opnd::Reg(rcx_reg()));
    assembler.cpush(claimed);
    let ret = assembler.ccall(0x40, vec![]);
    assembler.cret(ret);
    let allocated = assembler.alloc_regs(Assembler::get_alloc_regs());
    assert_eq!(allocated.insns[0].out, Opnd::Reg(rcx_reg()));
    assert_eq!(allocated.insns[2].out, Opnd::Reg(rax_reg()));
    assert_eq!(allocated.insns[3].opnds, vec![Opnd::Reg(rax_reg())]);
}

#[test]
fn call_with_all_argument_registers() {
    let mut assembler = Assembler::new();
    let mut cb = CodeBlock::new_dummy(1024);
    let args: Vec<Opnd> = (1..=6u64).map(Opnd::UImm).collect();
    assert_eq!(args.len(), c_arg_opnds().len());
    let _ = assembler.ccall(0x1234, args);
    assembler.compile_with_num_regs(&mut cb, 3);
    assert_eq!(
        cb.to_hex(),
        "bf01000000be02000000ba03000000b90400000041b80500000041b906000000e80f120000"
    );
}

#[test]
fn forward_jump_is_patched_with_the_distance() {
    let mut assembler = Assembler::new();
    let mut cb = CodeBlock::new_dummy(1024);
    let later = assembler.new_label("later");
    assembler.jmp(later);
    assembler.breakpoint();
    assembler.write_label(later);
    assembler.breakpoint();
    assembler.compile_with_num_regs(&mut cb, 0);
    // The label is at 6, the jump is 5 bytes from 0: distance 6 - (0 + 5).
    assert_eq!(cb.to_hex(), "e901000000cccc");
}

#[test]
fn backward_conditional_jump() {
    let mut assembler = Assembler::new();
    let mut cb = CodeBlock::new_dummy(1024);
    let earlier = assembler.new_label("earlier");
    assembler.write_label(earlier);
    assembler.breakpoint();
    assembler.je(earlier);
    assembler.compile_with_num_regs(&mut cb, 0);
    // Distance 0 - (1 + 6) = -7.
    assert_eq!(cb.to_hex(), "cc0f84f9ffffff");
}

#[test]
fn jumps_to_addresses() {
    let mut assembler = Assembler::new();
    let mut cb = CodeBlock::new(0x1000, 1024, 0x4000, 6);
    assembler.jmp(Target::CodePtr(CodePtr(0x1000)));
    assembler.jne(Target::CodePtr(CodePtr(0x2000)));
    assembler.compile_with_num_regs(&mut cb, 0);
    // -5 from the end of the first jump, 0x2000 - 0x100b from the second.
    assert_eq!(cb.to_hex(), "e9fbffffff0f85f50f0000");
}

#[test]
fn heap_reference_is_reported() {
    let mut assembler = Assembler::new();
    let mut cb = CodeBlock::new_dummy(1024);
    assembler.breakpoint();
    let object = assembler.load(Opnd::Value(Value(0x1000)));
    assembler.cret(object);
    let gc_offsets = assembler.compile_with_num_regs(&mut cb, 1);
    assert_eq!(cb.to_hex(), "cc48b80010000000000000c3");
    assert_eq!(gc_offsets, vec![3]);
}

#[test]
fn special_value_is_not_reported() {
    let mut assembler = Assembler::new();
    let mut cb = CodeBlock::new_dummy(1024);
    let number = assembler.load(Opnd::Value(Value(3)));
    assembler.cret(number);
    let gc_offsets = assembler.compile_with_num_regs(&mut cb, 1);
    assert_eq!(cb.to_hex(), "b803000000c3");
    assert_eq!(gc_offsets, Vec::<u32>::new());
}

#[test]
fn page_boundary_retry_emits_the_same_instruction_again() {
    let program = |assembler: &mut Assembler| {
        for _ in 0..4 {
            assembler.mov(Opnd::Reg(rax_reg()), Opnd::Reg(rcx_reg()));
        }
    };

    // One large page: the four instructions follow each other.
    let mut assembler = Assembler::new();
    let mut plain = CodeBlock::new(0, 64, 64, 6);
    program(&mut assembler);
    assembler.compile_with_num_regs(&mut plain, 0);
    assert_eq!(plain.to_hex(), "4889c84889c84889c84889c8");

    // Pages of 16 bytes with 6 in reserve: the fourth does not fit.
    let mut assembler = Assembler::new();
    let mut paged = CodeBlock::new(0, 64, 16, 6);
    program(&mut assembler);
    assembler.compile_with_num_regs(&mut paged, 0);
    assert!(!paged.has_dropped_bytes());
    assert_eq!(paged.page_start_pos(), 16);
    assert_eq!(paged.to_hex(), "4889c84889c84889c8e90200000000004889c8");
    let plain_code = plain.code();
    let paged_code = paged.code();
    assert_eq!(paged_code[..9], plain_code[..9]);
    assert_eq!(paged_code[16..], plain_code[9..]);
}

#[test]
fn code_that_does_not_fit_is_dropped() {
    let mut assembler = Assembler::new();
    let mut cb = CodeBlock::new(0, 4, 16, 6);
    assembler.mov(Opnd::Reg(rax_reg()), Opnd::Reg(rcx_reg()));
    assembler.mov(Opnd::Reg(rax_reg()), Opnd::Reg(rcx_reg()));
    assembler.compile_with_num_regs(&mut cb, 0);
    assert!(cb.has_dropped_bytes());
    assert_eq!(cb.to_hex(), "4889c848");
}

#[test]
fn position_markers_are_reported() {
    let mut assembler = Assembler::new();
    let mut cb = CodeBlock::new(0x2000, 64, 64, 6);
    assembler.pos_marker(7);
    assembler.breakpoint();
    assembler.pos_marker(8);
    assembler.compile_with_num_regs(&mut cb, 0);
    assert_eq!(cb.marked_positions(), vec![(7, CodePtr(0x2000)), (8, CodePtr(0x2001))]);
}

#[test]
fn baked_string_ends_with_nul() {
    let mut assembler = Assembler::new();
    let mut cb = CodeBlock::new_dummy(64);
    assembler.comment("not in the code");
    assembler.bake_string("Hi!");
    assembler.compile_with_num_regs(&mut cb, 0);
    assert_eq!(cb.to_hex(), "48692100");
}

#[test]
fn padding_makes_room_for_a_jump() {
    let mut assembler = Assembler::new();
    let mut cb = CodeBlock::new_dummy(64);
    assembler.breakpoint();
    assembler.pad_inval_patch();
    assembler.pad_inval_patch();
    assembler.compile_with_num_regs(&mut cb, 0);
    // One byte is there; five are missing to the six of a jump.
    assert_eq!(cb.to_hex(), "cc0f1f440000");
}

#[test]
fn more_instructions() {
    let mut assembler = Assembler::new();
    let mut cb = CodeBlock::new_dummy(1024);
    let a = assembler.load(Opnd::mem(64, sp(), 8));
    let b = assembler.not(a);
    let c = assembler.lshift(b, Opnd::UImm(3));
    assembler.cmp(c, Opnd::Imm(-1));
    let d = assembler.csel_l(c, Opnd::Reg(rcx_reg()));
    assembler.cpush(d);
    let e = assembler.cpop();
    assembler.store(Opnd::mem(64, sp(), 16), e);
    assembler.incr_counter(Opnd::mem(64, cfp(), 0), Opnd::UImm(1));
    assembler.cpush_all();
    assembler.cpop_all();
    assembler.compile_with_num_regs(&mut cb, 2);
    let expected = [
        "488b4308",     // mov rax, [rbx + 8]
        "48f7d0",       // not rax
        "48c1e003",     // shl rax, 3
        "4883f8ff",     // cmp rax, -1
        "480f4dc1",     // cmovge rax, rcx
        "50",           // push rax
        "58",           // pop rax
        "48894310",     // mov [rbx + 16], rax
        "f04983450001", // lock add qword [r13], 1
        "505152565741504151415241539c", // push the caller-save registers and the flags
        "9d415b415a415941585f5e5a5958", // and pop them again
    ];
    assert_eq!(cb.to_hex(), concat_all(&expected));
}

fn concat_all(parts: &[&str]) -> String {
    let mut s = String::new();
    for p in parts {
        s.push_str(p);
    }
    s
}

fn is_imm(opnd: &Opnd) -> bool {
    matches!(opnd, Opnd::UImm(_) | Opnd::Imm(_))
}

fn is_mem(opnd: &Opnd) -> bool {
    matches!(opnd, Opnd::Mem(_))
}

fn lives_on(opnd: &Opnd, live_ranges: &[usize], index: usize) -> bool {
    match opnd {
        Opnd::InsnOut { idx, .. } => live_ranges[*idx] > index,
        _ => false,
    }
}

#[test]
fn split_output_obeys_the_rules() {
    let mut assembler = Assembler::new();
    let mem = Opnd::mem(64, Opnd::Reg(rax_reg()), 8);
    let other = Opnd::mem(64, Opnd::Reg(rcx_reg()), 16);
    let a = assembler.add(mem, other);
    let b = assembler.sub(a, Opnd::Value(Value(0x2000)));
    let c = assembler.not(a);
    let d = assembler.rshift(Opnd::Reg(rcx_reg()), Opnd::UImm(2));
    assembler.cmp(mem, other);
    let e = assembler.csel_z(Opnd::Value(Value(3)), Opnd::Imm(7));
    let f = assembler.csel_nz(b, c);
    assembler.mov(mem, Opnd::UImm(0x1_0000_0000));
    assembler.mov(other, mem);
    let g = assembler.ccall(0x100, vec![d, e, f, Opnd::UImm(1)]);
    assembler.store(mem, g);
    let split = assembler.x86_split();

    for (index, insn) in split.insns.iter().enumerate() {
        let opnds = &insn.opnds;
        let loads = insn.op == Op::Load || insn.op == Op::LoadInto;
        for opnd in opnds {
            assert!(loads || !matches!(opnd, Opnd::Value(_)));
        }
        match insn.op {
            Op::Add | Op::Sub | Op::And | Op::Or | Op::Xor | Op::Not | Op::LShift | Op::RShift
            | Op::URShift => {
                assert!(!is_mem(&opnds[0]) && !matches!(opnds[0], Opnd::Reg(_)));
                assert!(!lives_on(&opnds[0], &split.live_ranges, index));
            }
            Op::Cmp | Op::Test => assert!(!(is_mem(&opnds[0]) && is_mem(&opnds[1]))),
            Op::CSelZ | Op::CSelNZ => {
                assert!(!is_imm(&opnds[0]) && !is_imm(&opnds[1]));
                assert!(!lives_on(&opnds[0], &split.live_ranges, index));
            }
            Op::Mov => {
                assert!(!(is_mem(&opnds[0]) && is_mem(&opnds[1])));
                assert!(!(is_mem(&opnds[0]) && opnds[1] == Opnd::UImm(0x1_0000_0000)));
            }
            Op::CCall => assert!(opnds.is_empty()),
            _ => {}
        }
    }
    let ops: Vec<Op> = split.insns.iter().map(|insn| insn.op).collect();
    assert_eq!(
        ops,
        vec![
            Op::Load, Op::Add, // the left memory operand
            Op::Load, Op::Load, Op::Sub, // the heap reference, the sum that lives on
            Op::Not, // the sum at its last read
            Op::Load, Op::RShift, // the register
            Op::Load, Op::Cmp, // the right memory operand
            Op::Load, Op::Load, Op::CSelZ, // both immediates
            Op::CSelNZ,
            Op::Load, Op::Mov, // the wide immediate
            Op::Load, Op::Mov, // the memory source
            Op::LoadInto, Op::LoadInto, Op::LoadInto, Op::LoadInto, Op::CCall,
            Op::Store,
        ]
    );
}
