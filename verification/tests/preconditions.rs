use yjit_backend::backend::ir::{operands_agree, operands_below, Assembler, Insn, Op, Opnd, Target};
use yjit_backend::backend::x86_64::emit::can_emit;
use yjit_backend::backend::x86_64::split::is_splittable_insn;
use yjit_backend::backend::x86_64::c_arg_opnds;
use yjit_backend::encoder::x86_64::{
    can_encode_add, can_encode_cmp, can_encode_lea, can_encode_mov, can_encode_movsx, can_encode_pop,
    can_encode_shift, can_encode_test, can_encode_unary, gp_reg, imm_opnd, mem_opnd, rax_reg, rcx_reg,
    uimm_opnd, X86Opnd,
};
use yjit_backend::encoder::CodeBlock;
use yjit_backend::value::Value;

fn insn(op: Op, opnds: Vec<Opnd>) -> Insn {
    Insn { op, text: None, opnds, out: Opnd::Absent, target: None, pos_marker: None }
}

#[test]
fn call_with_one_argument_too_many_cannot_be_split() {
    let mut assembler = Assembler::new();
    let args: Vec<Opnd> = (1..=7u64).map(Opnd::UImm).collect();
    assert_eq!(args.len(), c_arg_opnds().len() + 1);
    let _ = assembler.ccall(0x1234, args);
    assert!(assembler.is_wf());
    assert!(!assembler.is_splittable());

    let mut cb = CodeBlock::new_dummy(64);
    assert!(assembler.try_compile_with_regs(&mut cb, Assembler::get_alloc_regs()).is_none());
    assert_eq!(cb.get_write_pos(), 0);
    assert_eq!(cb.num_labels(), 0);
}

#[test]
fn call_with_as_many_arguments_as_registers_can_be_split() {
    let mut assembler = Assembler::new();
    let args: Vec<Opnd> = (1..=6u64).map(Opnd::UImm).collect();
    let _ = assembler.ccall(0x1234, args);
    assert!(assembler.is_splittable());
    let mut cb = CodeBlock::new_dummy(64);
    assert!(assembler.try_compile_with_regs(&mut cb, Assembler::get_alloc_regs()).is_some());
    assert_eq!(cb.get_write_pos(), 37);
}

#[test]
fn narrow_call_argument_cannot_be_split() {
    let mut assembler = Assembler::new();
    let _ = assembler.ccall(0x1234, vec![Opnd::Reg(rax_reg().sub_reg(32))]);
    assert!(!assembler.is_splittable());
}

#[test]
fn loaded_immediate_next_to_narrow_operand_cannot_be_split() {
    // The load of the immediate is 64 bits wide, the register 32.
    let live_ranges = vec![0usize];
    let narrow = Opnd::Reg(rcx_reg().sub_reg(32));
    assert!(!is_splittable_insn(&insn(Op::CSelE, vec![Opnd::UImm(1), narrow]), &live_ranges, 0));
    assert!(is_splittable_insn(&insn(Op::CSelE, vec![Opnd::UImm(1), Opnd::Reg(rcx_reg())]), &live_ranges, 0));
    assert!(is_splittable_insn(&insn(Op::Add, vec![narrow, Opnd::UImm(1)]), &live_ranges, 0));
    // A heap reference is loaded, at 64 bits.
    assert!(!is_splittable_insn(&insn(Op::Add, vec![narrow, Opnd::Value(Value(0x1000))]), &live_ranges, 0));
    assert!(is_splittable_insn(&insn(Op::Add, vec![narrow, Opnd::Value(Value(3))]), &live_ranges, 0));
}

#[test]
fn instruction_needs_its_operands_and_earlier_outputs() {
    let live_ranges = vec![0usize, 1, 2];
    assert!(!is_splittable_insn(&insn(Op::Add, vec![Opnd::UImm(1)]), &live_ranges, 0));
    assert!(!is_splittable_insn(&insn(Op::Not, vec![]), &live_ranges, 0));
    assert!(is_splittable_insn(&insn(Op::Breakpoint, vec![]), &live_ranges, 0));
    let out = Opnd::InsnOut { idx: 1, num_bits: 64 };
    assert!(!is_splittable_insn(&insn(Op::Not, vec![out]), &live_ranges, 1));
    assert!(is_splittable_insn(&insn(Op::Not, vec![out]), &live_ranges, 2));
}

#[test]
fn operand_lists() {
    let out = Opnd::InsnOut { idx: 2, num_bits: 32 };
    assert!(operands_below(&vec![out, Opnd::UImm(1)], 3));
    assert!(!operands_below(&vec![Opnd::UImm(1), out], 2));
    assert!(operands_agree(&vec![out, Opnd::UImm(1), Opnd::Reg(rax_reg().sub_reg(32))]));
    assert!(!operands_agree(&vec![out, Opnd::Reg(rax_reg())]));
    assert!(operands_agree(&vec![]));

    let mut assembler = Assembler::new();
    assert!(!assembler.accepts(&vec![Opnd::InsnOut { idx: 0, num_bits: 64 }]));
    let t = assembler.load(Opnd::UImm(1));
    assert!(assembler.accepts(&vec![t]));
    assert!(!assembler.accepts(&vec![t, Opnd::Reg(rax_reg().sub_reg(8))]));
}

#[test]
fn well_formedness() {
    let mut assembler = Assembler::new();
    assert!(assembler.is_wf());
    let t = assembler.load(Opnd::UImm(1));
    assembler.cpush(t);
    assert!(assembler.is_wf());
    assembler.live_ranges[0] = 2;
    assert!(!assembler.is_wf());
    assembler.live_ranges[0] = 1;
    assembler.live_ranges[1] = 0;
    assert!(!assembler.is_wf());
    assembler.live_ranges.pop();
    assert!(!assembler.is_wf());
}

#[test]
fn allocation_without_a_free_register_fails() {
    let mut assembler = Assembler::new();
    let a = assembler.load(Opnd::UImm(1));
    let b = assembler.load(Opnd::UImm(2));
    assembler.cmp(a, b);
    assert!(assembler.try_alloc_regs(vec![gp_reg(0)]).is_none());

    let mut assembler = Assembler::new();
    let a = assembler.load(Opnd::UImm(1));
    let b = assembler.load(Opnd::UImm(2));
    assembler.cmp(a, b);
    let allocated = assembler.try_alloc_regs(vec![gp_reg(0), gp_reg(1)]).unwrap();
    assert_eq!(allocated.insns[2].opnds, vec![Opnd::Reg(gp_reg(0)), Opnd::Reg(gp_reg(1))]);
}

#[test]
fn value_alive_across_a_call_fails() {
    let mut assembler = Assembler::new();
    let a = assembler.load(Opnd::UImm(1));
    let _ = assembler.ccall(0x40, vec![]);
    assembler.cpush(a);
    assert!(assembler.try_alloc_regs(Assembler::get_alloc_regs()).is_none());
}

#[test]
fn taking_a_register_twice_fails() {
    let mut assembler = Assembler::new();
    let a = assembler.live_reg_opnd(Opnd::Reg(rax_reg()));
    let b = assembler.live_reg_opnd(Opnd::Reg(rax_reg()));
    assembler.cmp(a, b);
    assert!(assembler.try_alloc_regs(Assembler::get_alloc_regs()).is_none());
}

#[test]
fn register_that_is_never_given_back_fails() {
    // The live range says that the output is read, but nothing reads it.
    let mut assembler = Assembler::new();
    let _ = assembler.load(Opnd::UImm(1));
    assembler.breakpoint();
    assembler.live_ranges[0] = 1;
    assert!(assembler.is_wf());
    assert!(assembler.try_alloc_regs(Assembler::get_alloc_regs()).is_none());
}

#[test]
fn too_many_registers_for_the_pool() {
    let assembler = Assembler::new();
    let regs = (0..33).map(|_| gp_reg(0)).collect();
    assert!(assembler.try_alloc_regs(regs).is_none());
    let assembler = Assembler::new();
    let regs = (0..32).map(|i| gp_reg(i)).collect();
    assert!(assembler.try_alloc_regs(regs).is_some());
}

#[test]
fn unencodable_instruction_is_not_compiled() {
    // Nothing puts the immediate on the left into a register.
    let mut assembler = Assembler::new();
    let _ = assembler.add(Opnd::UImm(1), Opnd::UImm(2));
    assert!(assembler.is_splittable());
    let mut cb = CodeBlock::new_dummy(64);
    assert!(assembler.try_compile_with_regs(&mut cb, Assembler::get_alloc_regs()).is_none());
    assert_eq!(cb.get_write_pos(), 0);
}

#[test]
fn block_with_labels_or_small_reserve_is_refused() {
    let mut assembler = Assembler::new();
    assembler.breakpoint();
    let mut cb = CodeBlock::new_dummy(64);
    let _ = cb.new_label("taken".to_string());
    assert!(assembler.try_compile_with_regs(&mut cb, Assembler::get_alloc_regs()).is_none());

    let mut assembler = Assembler::new();
    assembler.breakpoint();
    let mut cb = CodeBlock::new(0, 64, 16, 4);
    assert!(assembler.try_compile_with_regs(&mut cb, Assembler::get_alloc_regs()).is_none());

    let mut assembler = Assembler::new();
    assembler.breakpoint();
    let mut cb = CodeBlock::new(0, 64, 16, 5);
    assert_eq!(assembler.try_compile_with_regs(&mut cb, Assembler::get_alloc_regs()), Some(vec![]));
    assert_eq!(cb.to_hex(), "cc");
}

#[test]
fn emittable_instructions() {
    let rax = Opnd::Reg(rax_reg());
    assert!(can_emit(&insn(Op::Add, vec![rax, Opnd::UImm(1)]), 0));
    assert!(can_emit(&insn(Op::Add, vec![rax, Opnd::UImm(0xffff_ffff_ffff)]), 0));
    // As a signed value this one is narrow, so it is not moved to the scratch
    // register, and as an unsigned one it is too wide for the instruction.
    assert!(!can_emit(&insn(Op::Add, vec![rax, Opnd::UImm(u64::MAX)]), 0));
    assert!(!can_emit(&insn(Op::Add, vec![Opnd::UImm(1), rax]), 0));
    assert!(!can_emit(&insn(Op::Add, vec![rax, Opnd::InsnOut { idx: 0, num_bits: 64 }]), 0));
    assert!(!can_emit(&insn(Op::Add, vec![rax]), 0));
    assert!(!can_emit(&insn(Op::Load, vec![rax]), 0));
    let mut load = insn(Op::Load, vec![Opnd::Value(Value(0x1000))]);
    load.out = Opnd::Reg(rax_reg().sub_reg(32));
    assert!(!can_emit(&load, 0));
    load.out = rax;
    assert!(can_emit(&load, 0));

    let mut label = insn(Op::Label, vec![]);
    assert!(!can_emit(&label, 1));
    label.target = Some(Target::Label(1));
    assert!(!can_emit(&label, 1));
    assert!(can_emit(&label, 2));
    let mut jump = insn(Op::Jne, vec![]);
    jump.target = Some(Target::FunPtr(8));
    assert!(!can_emit(&jump, 1));
    jump.target = Some(Target::Label(0));
    assert!(can_emit(&jump, 1));
    assert!(!can_emit(&insn(Op::PosMarker, vec![]), 0));
    assert!(!can_emit(&insn(Op::CCall, vec![]), 0));
    assert!(!can_emit(&insn(Op::BakeString, vec![]), 0));
    assert!(can_emit(&insn(Op::Comment, vec![]), 0));
}

#[test]
fn encodability() {
    let rax = X86Opnd::Reg(rax_reg());
    let eax = X86Opnd::Reg(rax_reg().sub_reg(32));
    let mem64 = mem_opnd(64, rax, 8);
    let mem8 = mem_opnd(8, rax, 8);
    assert!(can_encode_add(rax, uimm_opnd(0x7fff_ffff)));
    assert!(!can_encode_add(rax, uimm_opnd(0x8000_0000)));
    assert!(can_encode_add(eax, uimm_opnd(0x8000_0000)));
    assert!(!can_encode_add(mem64, mem64));
    assert!(can_encode_add(rax, mem64));
    assert!(!can_encode_add(rax, eax));
    assert!(!can_encode_cmp(uimm_opnd(1), rax));
    assert!(can_encode_cmp(mem8, imm_opnd(-1)));
    assert!(can_encode_mov(rax, uimm_opnd(u64::MAX)));
    assert!(!can_encode_mov(mem64, uimm_opnd(0x8000_0000)));
    assert!(can_encode_mov(mem64, uimm_opnd(0x7fff_ffff)));
    assert!(!can_encode_mov(mem8, uimm_opnd(0x100)));
    assert!(can_encode_movsx(rax, mem8));
    assert!(!can_encode_movsx(eax, mem64));
    assert!(can_encode_lea(rax, mem64));
    assert!(!can_encode_lea(eax, mem64));
    assert!(!can_encode_lea(rax, rax));
    assert!(can_encode_pop(rax));
    assert!(!can_encode_pop(eax));
    assert!(can_encode_shift(rax, uimm_opnd(63)));
    assert!(!can_encode_shift(rax, uimm_opnd(0x100)));
    assert!(can_encode_shift(rax, X86Opnd::Reg(rcx_reg().sub_reg(8))));
    assert!(!can_encode_shift(rax, rax));
    assert!(!can_encode_shift(mem8, uimm_opnd(1)));
    assert!(can_encode_test(rax, uimm_opnd(0xff)));
    assert!(!can_encode_test(rax, uimm_opnd(u64::MAX)));
    assert!(can_encode_test(rax, imm_opnd(-1)));
    assert!(!can_encode_test(eax, imm_opnd(-1)));
    assert!(can_encode_unary(mem8));
    assert!(!can_encode_unary(uimm_opnd(1)));
}
