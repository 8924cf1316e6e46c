use yjit_backend::backend::ir::{Assembler, Opnd};
use yjit_backend::encoder::x86_64::rax_reg;
use yjit_backend::encoder::CodeBlock;

fn setup() -> (Assembler, CodeBlock) {
    (Assembler::new(), CodeBlock::new_dummy(1024))
}

#[test]
fn test_emit_add_lt_32_bits() {
    let (mut assembler, mut cb) = setup();

    let _ = assembler.add(Opnd::Reg(rax_reg()), Opnd::UImm(0xFF));
    assembler.compile_with_num_regs(&mut cb, 1);

    assert_eq!(cb.to_hex(), "4889c04881c0ff000000");
}

#[test]
fn test_emit_add_gt_32_bits() {
    let (mut assembler, mut cb) = setup();

    let _ = assembler.add(Opnd::Reg(rax_reg()), Opnd::UImm(0xFFFF_FFFF_FFFF));
    assembler.compile_with_num_regs(&mut cb, 1);

    assert_eq!(cb.to_hex(), "4889c049bbffffffffffff00004c01d8");
}

#[test]
fn test_emit_and_lt_32_bits() {
    let (mut assembler, mut cb) = setup();

    let _ = assembler.and(Opnd::Reg(rax_reg()), Opnd::UImm(0xFF));
    assembler.compile_with_num_regs(&mut cb, 1);

    assert_eq!(cb.to_hex(), "4889c04881e0ff000000");
}

#[test]
fn test_emit_and_gt_32_bits() {
    let (mut assembler, mut cb) = setup();

    let _ = assembler.and(Opnd::Reg(rax_reg()), Opnd::UImm(0xFFFF_FFFF_FFFF));
    assembler.compile_with_num_regs(&mut cb, 1);

    assert_eq!(cb.to_hex(), "4889c049bbffffffffffff00004c21d8");
}

#[test]
fn test_emit_cmp_lt_32_bits() {
    let (mut assembler, mut cb) = setup();

    assembler.cmp(Opnd::Reg(rax_reg()), Opnd::UImm(0xFF));
    assembler.compile_with_num_regs(&mut cb, 0);

    assert_eq!(cb.to_hex(), "4881f8ff000000");
}

#[test]
fn test_emit_cmp_gt_32_bits() {
    let (mut assembler, mut cb) = setup();

    assembler.cmp(Opnd::Reg(rax_reg()), Opnd::UImm(0xFFFF_FFFF_FFFF));
    assembler.compile_with_num_regs(&mut cb, 0);

    assert_eq!(cb.to_hex(), "49bbffffffffffff00004c39d8");
}

#[test]
fn test_emit_or_lt_32_bits() {
    let (mut assembler, mut cb) = setup();

    let _ = assembler.or(Opnd::Reg(rax_reg()), Opnd::UImm(0xFF));
    assembler.compile_with_num_regs(&mut cb, 1);

    assert_eq!(cb.to_hex(), "4889c04881c8ff000000");
}

#[test]
fn test_emit_or_gt_32_bits() {
    let (mut assembler, mut cb) = setup();

    let _ = assembler.or(Opnd::Reg(rax_reg()), Opnd::UImm(0xFFFF_FFFF_FFFF));
    assembler.compile_with_num_regs(&mut cb, 1);

    assert_eq!(cb.to_hex(), "4889c049bbffffffffffff00004c09d8");
}

#[test]
fn test_emit_sub_lt_32_bits() {
    let (mut assembler, mut cb) = setup();

    let _ = assembler.sub(Opnd::Reg(rax_reg()), Opnd::UImm(0xFF));
    assembler.compile_with_num_regs(&mut cb, 1);

    assert_eq!(cb.to_hex(), "4889c04881e8ff000000");
}

#[test]
fn test_emit_sub_gt_32_bits() {
    let (mut assembler, mut cb) = setup();

    let _ = assembler.sub(Opnd::Reg(rax_reg()), Opnd::UImm(0xFFFF_FFFF_FFFF));
    assembler.compile_with_num_regs(&mut cb, 1);

    assert_eq!(cb.to_hex(), "4889c049bbffffffffffff00004c29d8");
}

#[test]
fn test_emit_test_lt_32_bits() {
    let (mut assembler, mut cb) = setup();

    assembler.test(Opnd::Reg(rax_reg()), Opnd::UImm(0xFF));
    assembler.compile_with_num_regs(&mut cb, 0);

    assert_eq!(cb.to_hex(), "f6c0ff");
}

#[test]
fn test_emit_test_gt_32_bits() {
    let (mut assembler, mut cb) = setup();

    assembler.test(Opnd::Reg(rax_reg()), Opnd::UImm(0xFFFF_FFFF_FFFF));
    assembler.compile_with_num_regs(&mut cb, 0);

    assert_eq!(cb.to_hex(), "49bbffffffffffff00004c85d8");
}

#[test]
fn test_emit_xor_lt_32_bits() {
    let (mut assembler, mut cb) = setup();

    let _ = assembler.xor(Opnd::Reg(rax_reg()), Opnd::UImm(0xFF));
    assembler.compile_with_num_regs(&mut cb, 1);

    assert_eq!(cb.to_hex(), "4889c04881f0ff000000");
}

#[test]
fn test_emit_xor_gt_32_bits() {
    let (mut assembler, mut cb) = setup();

    let _ = assembler.xor(Opnd::Reg(rax_reg()), Opnd::UImm(0xFFFF_FFFF_FFFF));
    assembler.compile_with_num_regs(&mut cb, 1);

    assert_eq!(cb.to_hex(), "4889c049bbffffffffffff00004c31d8");
}

#[test]
fn test_emit_cmp_mem_16_bits_with_imm_16() {
    let (mut assembler, mut cb) = setup();

    let shape_opnd = Opnd::mem(16, Opnd::Reg(rax_reg()), 6);

    assembler.cmp(shape_opnd, Opnd::UImm(0xF000));
    assembler.compile_with_num_regs(&mut cb, 0);

    assert_eq!(cb.to_hex(), "6681780600f0");
}

#[test]
fn test_emit_cmp_mem_32_bits_with_imm_32() {
    let (mut assembler, mut cb) = setup();

    let shape_opnd = Opnd::mem(32, Opnd::Reg(rax_reg()), 4);

    assembler.cmp(shape_opnd, Opnd::UImm(0xF000_0000));
    assembler.compile_with_num_regs(&mut cb, 0);

    assert_eq!(cb.to_hex(), "817804000000f0");
}
