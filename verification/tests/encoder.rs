use yjit_backend::encoder::arm64::opnd::{c_arg_regs, w_reg, x_opnd, x_reg, A64Mem, A64Opnd, A64Reg};
use yjit_backend::encoder::x86_64::{
    and, call_ptr, cmov, cmp, gp_reg, imm_opnd, int3, jcc_ptr, jmp_ptr, jmp_rm, lea, mem_opnd, mov, movabs,
    movsx, nop, not, or, pop, popfq, push, pushfq, r12_reg, r13_reg, r8_reg, rax_reg, rbp_reg, rbx_reg,
    rcx_reg, ret, rsp_reg, sar, shl, shr, uimm_opnd, write_lock_prefix, xor, RegType, X86Imm, X86Mem,
    X86Opnd, X86Reg, X86UImm,
};
use yjit_backend::encoder::{imm_num_bits, int_bytes, uimm_num_bits, CodeBlock, CodePtr, RelOpcode};
use yjit_backend::value::Value;

fn hex(bytes: Vec<u8>) -> String {
    let mut s = String::new();
    for b in bytes {
        s.push_str(&format!("{:02x}", b));
    }
    s
}

fn reg(r: X86Reg) -> X86Opnd {
    X86Opnd::Reg(r)
}

#[test]
fn immediate_sizes() {
    assert_eq!(imm_num_bits(0), 8);
    assert_eq!(imm_num_bits(127), 8);
    assert_eq!(imm_num_bits(128), 16);
    assert_eq!(imm_num_bits(-128), 8);
    assert_eq!(imm_num_bits(-129), 16);
    assert_eq!(imm_num_bits(32767), 16);
    assert_eq!(imm_num_bits(32768), 32);
    assert_eq!(imm_num_bits(-32769), 32);
    assert_eq!(imm_num_bits(i32::MAX as i64), 32);
    assert_eq!(imm_num_bits(i32::MAX as i64 + 1), 64);
    assert_eq!(imm_num_bits(i32::MIN as i64), 32);
    assert_eq!(imm_num_bits(i32::MIN as i64 - 1), 64);
    assert_eq!(uimm_num_bits(0), 8);
    assert_eq!(uimm_num_bits(255), 8);
    assert_eq!(uimm_num_bits(256), 16);
    assert_eq!(uimm_num_bits(65535), 16);
    assert_eq!(uimm_num_bits(65536), 32);
    assert_eq!(uimm_num_bits(u32::MAX as u64), 32);
    assert_eq!(uimm_num_bits(u32::MAX as u64 + 1), 64);
    assert_eq!(int_bytes(0x0102_0304_0506_0708, 8), vec![8, 7, 6, 5, 4, 3, 2, 1]);
    assert_eq!(int_bytes(0x0102_0304, 2), vec![4, 3]);
    assert_eq!(int_bytes(7, 0), Vec::<u8>::new());
}

#[test]
fn values_of_the_language() {
    // false, nil, small integers and other immediates are special.
    assert!(Value(0).special_const_p());
    assert!(Value(8).special_const_p());
    assert!(Value(3).special_const_p());
    assert!(Value(0x14).special_const_p());
    assert!(!Value(0x1000).special_const_p());
    assert!(Value(0x1000).heap_object_p());
    assert!(!Value(8).heap_object_p());
    assert_eq!(Value(u64::MAX).as_i64(), -1);
    assert_eq!(Value(5).as_u64(), 5);
}

#[test]
fn operand_makers() {
    assert_eq!(imm_opnd(-1), X86Opnd::Imm(X86Imm { num_bits: 8, value: -1 }));
    assert_eq!(uimm_opnd(0x100), X86Opnd::UImm(X86UImm { num_bits: 16, value: 0x100 }));
    assert_eq!(
        mem_opnd(32, reg(rcx_reg()), -4),
        X86Opnd::Mem(X86Mem { num_bits: 32, base_reg_no: 1, idx_reg_no: None, scale_exp: 0, disp: -4 })
    );
    let rip = X86Reg { num_bits: 64, reg_type: RegType::IP, reg_no: 5 };
    assert_eq!(mem_opnd(8, reg(rip), 16), X86Opnd::IPRel(16));
    assert_eq!(rax_reg().sub_reg(16), X86Reg { num_bits: 16, reg_type: RegType::GP, reg_no: 0 });
    assert_eq!(gp_reg(9).reg_no, 9);
    assert!(reg(r8_reg()).rex_needed());
    assert!(!reg(rax_reg()).rex_needed());
    assert!(reg(rsp_reg().sub_reg(8)).rex_needed());
    assert!(mem_opnd(64, reg(rsp_reg()), 0).sib_needed());
    assert!(mem_opnd(64, reg(r12_reg()), 0).sib_needed());
    assert!(!mem_opnd(64, reg(rax_reg()), 0).sib_needed());
    assert_eq!(mem_opnd(64, reg(rax_reg()), 0).disp_size(), 0);
    assert_eq!(mem_opnd(64, reg(rbp_reg()), 0).disp_size(), 8);
    assert_eq!(mem_opnd(64, reg(rax_reg()), 127).disp_size(), 8);
    assert_eq!(mem_opnd(64, reg(rax_reg()), 128).disp_size(), 32);
    assert_eq!(mem_opnd(64, reg(rax_reg()), -129).disp_size(), 32);
    assert_eq!(mem_opnd(16, reg(rax_reg()), 0).num_bits(), 16);
}

#[test]
fn moves() {
    let rax = reg(rax_reg());
    assert_eq!(hex(mov(rax, imm_opnd(-1))), "48b8ffffffffffffffff");
    assert_eq!(hex(mov(rax, imm_opnd(7))), "b807000000");
    assert_eq!(hex(mov(rax, uimm_opnd(0x1_0000_0000))), "48b80000000001000000");
    assert_eq!(hex(mov(reg(r8_reg()), uimm_opnd(1))), "41b801000000");
    assert_eq!(hex(mov(reg(rax_reg().sub_reg(8)), uimm_opnd(1))), "b001");
    assert_eq!(hex(mov(reg(rax_reg().sub_reg(16)), uimm_opnd(1))), "66b80100");
    assert_eq!(hex(mov(mem_opnd(64, rax, 8), imm_opnd(5))), "48c7400805000000");
    assert_eq!(hex(mov(mem_opnd(8, rax, 0), uimm_opnd(0x7f))), "c6007f");
    assert_eq!(hex(mov(rax, mem_opnd(64, reg(rbx_reg()), 0))), "488b03");
    assert_eq!(hex(mov(rax, mem_opnd(64, reg(rsp_reg()), 0))), "488b0424");
    assert_eq!(hex(mov(rax, mem_opnd(64, reg(rbp_reg()), 0))), "488b4500");
    assert_eq!(hex(mov(rax, mem_opnd(64, reg(r12_reg()), 0))), "498b0424");
    assert_eq!(hex(mov(rax, mem_opnd(64, reg(r13_reg()), 0))), "498b4500");
    assert_eq!(hex(mov(mem_opnd(64, reg(rbx_reg()), -8), rax)), "488943f8");
    let indexed =
        X86Opnd::Mem(X86Mem { num_bits: 64, base_reg_no: 0, idx_reg_no: Some(1), scale_exp: 2, disp: 8 });
    assert_eq!(hex(mov(rax, indexed)), "488b448808");
    assert_eq!(hex(movabs(rax, 5)), "48b80500000000000000");
    assert_eq!(hex(lea(rax, mem_opnd(64, reg(rcx_reg()), 0x100))), "488d8100010000");
    assert_eq!(hex(movsx(rax, mem_opnd(8, reg(rcx_reg()), 0))), "480fbe01");
    assert_eq!(hex(movsx(rax, mem_opnd(16, reg(rcx_reg()), 0))), "480fbf01");
    assert_eq!(hex(movsx(rax, mem_opnd(32, reg(rcx_reg()), 0))), "486301");
}

#[test]
fn arithmetic_and_logic() {
    let rax = reg(rax_reg());
    let rcx = reg(rcx_reg());
    assert_eq!(hex(yjit_backend::encoder::x86_64::add(mem_opnd(64, rax, 8), uimm_opnd(3))), "4883400803");
    assert_eq!(hex(yjit_backend::encoder::x86_64::add(rax, mem_opnd(64, rcx, 0))), "480301");
    assert_eq!(hex(yjit_backend::encoder::x86_64::add(reg(rax_reg().sub_reg(8)), reg(rbx_reg().sub_reg(8)))), "00d8");
    assert_eq!(hex(yjit_backend::encoder::x86_64::sub(rcx, rax)), "4829c1");
    assert_eq!(hex(and(rax, imm_opnd(-16))), "4883e0f0");
    assert_eq!(hex(or(rax, uimm_opnd(0x100))), "4881c800010000");
    assert_eq!(hex(xor(reg(rax_reg().sub_reg(32)), reg(rax_reg().sub_reg(32)))), "31c0");
    assert_eq!(hex(cmp(reg(rax_reg().sub_reg(16)), reg(rcx_reg().sub_reg(16)))), "6639c8");
    assert_eq!(hex(cmp(reg(rax_reg().sub_reg(8)), uimm_opnd(0xff))), "80f8ff");
    assert_eq!(hex(not(reg(rax_reg().sub_reg(32)))), "f7d0");
    assert_eq!(hex(not(mem_opnd(8, rax, 0))), "f610");
    assert_eq!(hex(shl(rax, uimm_opnd(1))), "48d1e0");
    assert_eq!(hex(shl(rax, uimm_opnd(5))), "48c1e005");
    assert_eq!(hex(sar(rax, reg(rcx_reg().sub_reg(8)))), "48d3f8");
    assert_eq!(hex(shr(reg(rax_reg().sub_reg(32)), uimm_opnd(3))), "c1e803");
    assert_eq!(hex(yjit_backend::encoder::x86_64::test(mem_opnd(64, rax, 0), uimm_opnd(0x100))), "66f7000001");
    assert_eq!(hex(yjit_backend::encoder::x86_64::test(rax, rcx)), "4885c8");
    assert_eq!(hex(yjit_backend::encoder::x86_64::test(rax, imm_opnd(-1))), "48f7c0ffffffff");
    assert_eq!(hex(cmov(0x44, rax, rcx)), "480f44c1");
}

#[test]
fn stack_and_control() {
    let rax = reg(rax_reg());
    assert_eq!(hex(push(reg(r12_reg()))), "4154");
    assert_eq!(hex(pop(reg(rbx_reg()))), "5b");
    assert_eq!(hex(push(mem_opnd(64, rax, 0))), "ff30");
    assert_eq!(hex(pop(mem_opnd(64, rax, 0))), "8f00");
    assert_eq!(hex(pushfq()), "9c");
    assert_eq!(hex(popfq()), "9d");
    assert_eq!(hex(ret()), "c3");
    assert_eq!(hex(int3()), "cc");
    assert_eq!(hex(write_lock_prefix()), "f0");
    assert_eq!(hex(jmp_rm(rax)), "ffe0");
    assert_eq!(hex(call_ptr(CodePtr(0x1000), rax, 0x1005)), "e800000000");
    assert_eq!(hex(call_ptr(CodePtr(0), rax, 0x1_0000_0000)), "48b80000000001000000ffd0");
    let (code, fits) = jmp_ptr(CodePtr(0), CodePtr(0x100));
    assert_eq!((hex(code), fits), ("e9fb000000".to_string(), true));
    let (code, fits) = jcc_ptr(0x84, CodePtr(0), CodePtr(0x100));
    assert_eq!((hex(code), fits), ("0f84fa000000".to_string(), true));
    let (code, fits) = jmp_ptr(CodePtr(0), CodePtr(0x1_0000_0000));
    assert_eq!((hex(code), fits), ("e9".to_string(), false));
    let (code, fits) = jmp_ptr(CodePtr(0x8000_0000), CodePtr(5));
    assert_eq!((hex(code), fits), ("e900000080".to_string(), true));
    let (_, fits) = jmp_ptr(CodePtr(0x8000_0000), CodePtr(4));
    assert!(!fits);
}

#[test]
fn no_ops() {
    assert_eq!(hex(nop(0)), "");
    assert_eq!(hex(nop(1)), "90");
    assert_eq!(hex(nop(2)), "6690");
    assert_eq!(hex(nop(3)), "0f1f00");
    assert_eq!(hex(nop(9)), "660f1f840000000000");
    assert_eq!(hex(nop(10)), "660f1f84000000000090");
    assert_eq!(nop(100).len(), 100);
}

#[test]
fn code_block_writes_and_drops() {
    let mut cb = CodeBlock::new(0x100, 8, 16, 6);
    assert_eq!(cb.get_write_pos(), 0);
    assert_eq!(cb.get_write_ptr(), CodePtr(0x100));
    assert_eq!(cb.get_ptr(5), CodePtr(0x105));
    assert!(cb.has_capacity(8));
    assert!(!cb.has_capacity(9));
    cb.write_bytes(&vec![1, 2, 3]);
    cb.write_byte(4);
    assert_eq!(cb.code(), vec![1, 2, 3, 4]);
    assert_eq!(cb.to_hex(), "01020304");
    assert!(!cb.has_dropped_bytes());
    cb.write_bytes(&vec![5, 6, 7, 8, 9, 10]);
    assert!(cb.has_dropped_bytes());
    assert_eq!(cb.code(), vec![1, 2, 3, 4, 5, 6, 7, 8]);
    assert_eq!(cb.next_page_pos(), None);
    assert!(!cb.next_page(8, &vec![0xe9]));
    assert!(cb.has_dropped_bytes());
    cb.set_dropped_bytes(false);
    assert!(!cb.has_dropped_bytes());
}

#[test]
fn code_block_pages() {
    let mut cb = CodeBlock::new(0, 40, 16, 6);
    assert_eq!(cb.page_end_reserve(), 6);
    assert_eq!(cb.page_start_pos(), 0);
    // A page takes ten bytes; six stay free for the jump.
    assert!(cb.has_capacity(10));
    assert!(!cb.has_capacity(11));
    cb.write_bytes(&vec![0xaa; 8]);
    cb.write_bytes(&vec![0xbb; 4]);
    assert!(cb.has_dropped_bytes());
    assert_eq!(cb.get_write_pos(), 10);
    assert_eq!(cb.next_page_pos(), Some(16));
    assert!(cb.next_page(8, &vec![0xe9, 3, 0, 0, 0]));
    assert!(!cb.has_dropped_bytes());
    assert_eq!(cb.get_write_pos(), 16);
    assert_eq!(cb.page_start_pos(), 16);
    cb.write_bytes(&vec![0xbb; 4]);
    assert_eq!(cb.to_hex(), "aaaaaaaaaaaaaaaae903000000000000bbbbbbbb");
    // The last page is cut off by the end of the memory.
    assert_eq!(cb.next_page_pos(), Some(32));
    assert!(cb.next_page(20, &vec![]));
    assert!(cb.has_capacity(8));
    assert!(!cb.has_capacity(9));
    assert_eq!(cb.next_page_pos(), None);
}

#[test]
fn code_block_labels() {
    let mut cb = CodeBlock::new_dummy(64);
    let first = cb.new_label("first".to_string());
    let second = cb.new_label("second".to_string());
    assert_eq!((first, second), (0, 1));
    assert_eq!(cb.num_labels(), 2);
    cb.write_label(first);
    cb.label_ref(second, RelOpcode { len: 1, b0: 0xe9, b1: 0, b2: 0 });
    cb.label_ref(first, RelOpcode { len: 2, b0: 0x0f, b1: 0x85, b2: 0 });
    let state = cb.get_label_state();
    assert_eq!(state.label_addrs, vec![0, 0]);
    assert_eq!(state.label_refs.len(), 2);
    cb.write_label(second);
    cb.label_ref(second, RelOpcode { len: 3, b0: 0x4c, b1: 0x8d, b2: 0x1d });
    assert_eq!(cb.get_write_pos(), 18);
    cb.link_labels();
    // To 11 from 5, to 0 from 11, to 11 from 18.
    assert_eq!(cb.to_hex(), "e9060000000f85f5ffffff4c8d1df9ffffff");
    assert_eq!(cb.num_labels(), 0);

    let mut cb = CodeBlock::new_dummy(64);
    let label = cb.new_label("only".to_string());
    let state = cb.get_label_state();
    cb.write_byte(0x90);
    cb.write_label(label);
    cb.label_ref(label, RelOpcode { len: 1, b0: 0xe9, b1: 0, b2: 0 });
    cb.set_label_state(state);
    let state = cb.get_label_state();
    assert_eq!(state.label_addrs, vec![0]);
    assert_eq!(state.label_refs.len(), 0);
    cb.clear_labels();
    assert_eq!(cb.num_labels(), 0);

    // A reference that does not fit is dropped.
    let mut cb = CodeBlock::new_dummy(4);
    let label = cb.new_label("far".to_string());
    cb.label_ref(label, RelOpcode { len: 1, b0: 0xe9, b1: 0, b2: 0 });
    assert!(cb.has_dropped_bytes());
    assert_eq!(cb.get_write_pos(), 0);
    assert_eq!(cb.get_label_state().label_refs.len(), 0);
}

#[test]
fn code_block_marks() {
    let mut cb = CodeBlock::new(0x40, 16, 16, 6);
    cb.mark_position(3);
    cb.write_byte(0);
    cb.mark_position(1);
    assert_eq!(cb.marked_positions(), vec![(3, CodePtr(0x40)), (1, CodePtr(0x41))]);
}

#[test]
fn arm64_operands() {
    assert_eq!(x_reg(3), A64Reg { num_bits: 64, reg_no: 3 });
    assert_eq!(w_reg(30), A64Reg { num_bits: 32, reg_no: 30 });
    assert_eq!(A64Opnd::new_imm(-4), A64Opnd::Imm(-4));
    assert_eq!(A64Opnd::new_uimm(4), A64Opnd::UImm(4));
    assert_eq!(A64Mem::new(x_opnd(2), 8), A64Mem { num_bits: 64, base_reg_no: 2, disp: 8 });
    assert_eq!(
        A64Opnd::new_mem(A64Opnd::Reg(w_reg(1)), -8),
        A64Opnd::Mem(A64Mem { num_bits: 32, base_reg_no: 1, disp: -8 })
    );
    assert!(x_opnd(0).is_reg());
    assert!(!A64Opnd::Absent.is_reg());
    assert!(!A64Opnd::new_imm(0).is_reg());
    assert_eq!(c_arg_regs(), vec![x_opnd(0), x_opnd(1), x_opnd(2), x_opnd(3)]);
}
