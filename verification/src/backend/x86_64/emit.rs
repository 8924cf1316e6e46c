//! Emission: from legalized, register-allocated instructions to machine
//! code in a code block.

use vstd::prelude::*;
use vstd::string::StrSliceExecFns;
use crate::backend::ir::{Assembler, Insn, InsnView, Mem, MemBase, Op, Opnd, Target};
use crate::backend::x86_64::{
    c_ret_reg, JMP_PTR_BYTES, lower, lowerable, Reg, spec_c_ret_reg, spec_caller_save_regs,
};
use crate::encoder::x86_64::{
    add_bytes, add_ok, and_bytes, and_ok, call_ptr_bytes, can_encode_add, can_encode_and, can_encode_cmov,
    can_encode_cmp, can_encode_lea, can_encode_mov, can_encode_movsx, can_encode_or, can_encode_pop,
    can_encode_push, can_encode_shift, can_encode_sub, can_encode_test, can_encode_unary, can_encode_xor,
    cmov_bytes, cmov_ok, cmp_bytes, cmp_ok, fits_rel32, jcc_ptr_bytes, jmp_ptr_bytes, JMP_PTR_LEN,
    jmp_rm_bytes, lea_bytes, lea_ok, lemma_jmp_ptr_len, mov_bytes, mov_ok, movabs_bytes, movsx_bytes,
    movsx_ok, nop_bytes, not_bytes, or_bytes, or_ok, pop_bytes, pop_ok, push_bytes, r11_reg, rax_reg,
    rel_dist, rm_unary_ok, shift_bytes, shift_ok, spec_r11_reg, spec_rax_reg, sub_bytes, sub_ok,
    test_bytes, test_ok, X86Opnd, xor_bytes, xor_ok,
};
use crate::encoder::{
    bytes1, CodeBlock, CodeBlockView, CodePtr, concat, imm_num_bits, lemma_le_bytes_len, RelOpcode,
    spec_imm_num_bits, spec_uimm_num_bits, uimm_num_bits,
};

verus! {

/// The register that the emitter keeps for itself: the allocator never
/// hands it out.
pub open spec fn spec_scratch0() -> X86Opnd {
    X86Opnd::Reg(spec_r11_reg())
}

#[verifier::when_used_as_spec(spec_scratch0)]
fn scratch0() -> (r: X86Opnd)
    ensures
        r == spec_scratch0(),
{
    X86Opnd::Reg(r11_reg())
}

/// Whether an immediate is too wide for the 32-bit field of an instruction
/// and has to go through the scratch register.
pub open spec fn needs_scratch(opnd: Opnd) -> bool {
    match opnd {
        Opnd::Imm(value) => spec_imm_num_bits(value) > 32,
        Opnd::UImm(value) => spec_imm_num_bits(value as i64) > 32,
        _ => false,
    }
}

/// The move that brings a wide immediate into the scratch register; nothing
/// for other operands.
pub open spec fn imm64_bytes(opnd: Opnd) -> Seq<u8> {
    if needs_scratch(opnd) {
        mov_bytes(spec_scratch0(), lower(opnd))
    } else {
        Seq::empty()
    }
}

/// The machine operand that stands for the operand after that move.
pub open spec fn imm64_opnd(opnd: Opnd) -> X86Opnd {
    if needs_scratch(opnd) {
        spec_scratch0()
    } else {
        lower(opnd)
    }
}

fn emit_64bit_immediate(opnd: Opnd) -> (r: (Vec<u8>, X86Opnd))
    requires
        lowerable(opnd),
    ensures
        r.0@ == imm64_bytes(opnd),
        r.1 == imm64_opnd(opnd),
{
    let wide = match opnd {
        Opnd::Imm(value) => imm_num_bits(value) > 32,
        Opnd::UImm(value) => imm_num_bits(value as i64) > 32,
        _ => false,
    };
    if wide {
        (crate::encoder::x86_64::mov(scratch0(), X86Opnd::from(opnd)), scratch0())
    } else {
        (Vec::new(), X86Opnd::from(opnd))
    }
}

/// The two-operand arithmetic and logic opcodes.
pub open spec fn is_alu(op: Op) -> bool {
    op == Op::Add || op == Op::Sub || op == Op::And || op == Op::Or || op == Op::Xor
}

/// Whether the machine instruction for `op` has an encoding for the
/// operands.
pub open spec fn alu_ok(op: Op, dst: X86Opnd, src: X86Opnd) -> bool {
    match op {
        Op::Add => add_ok(dst, src),
        Op::Sub => sub_ok(dst, src),
        Op::And => and_ok(dst, src),
        Op::Or => or_ok(dst, src),
        _ => xor_ok(dst, src),
    }
}

/// The encoding of the machine instruction for `op`.
pub open spec fn alu_bytes(op: Op, dst: X86Opnd, src: X86Opnd) -> Seq<u8> {
    match op {
        Op::Add => add_bytes(dst, src),
        Op::Sub => sub_bytes(dst, src),
        Op::And => and_bytes(dst, src),
        Op::Or => or_bytes(dst, src),
        _ => xor_bytes(dst, src),
    }
}

fn alu(op: Op, dst: X86Opnd, src: X86Opnd) -> (out: Vec<u8>)
    requires
        is_alu(op),
        alu_ok(op, dst, src),
    ensures
        out@ == alu_bytes(op, dst, src),
{
    match op {
        Op::Add => crate::encoder::x86_64::add(dst, src),
        Op::Sub => crate::encoder::x86_64::sub(dst, src),
        Op::And => crate::encoder::x86_64::and(dst, src),
        Op::Or => crate::encoder::x86_64::or(dst, src),
        _ => crate::encoder::x86_64::xor(dst, src),
    }
}

/// The shift opcodes.
pub open spec fn is_shift(op: Op) -> bool {
    op == Op::LShift || op == Op::RShift || op == Op::URShift
}

/// The opcode extension of the machine instruction for a shift.
pub open spec fn shift_ext(op: Op) -> u8 {
    match op {
        Op::LShift => 4,
        Op::URShift => 5,
        _ => 7,
    }
}

/// The conditional selects.
pub open spec fn is_csel(op: Op) -> bool {
    op == Op::CSelZ || op == Op::CSelNZ || op == Op::CSelE || op == Op::CSelNE || op == Op::CSelL || op
        == Op::CSelLE || op == Op::CSelG || op == Op::CSelGE
}

/// Second opcode byte of the conditional move that overwrites the selected
/// value when the condition of the select does not hold.
pub open spec fn csel_cmov_op(op: Op) -> u8 {
    match op {
        Op::CSelZ => 0x45,
        Op::CSelNZ => 0x44,
        Op::CSelE => 0x45,
        Op::CSelNE => 0x44,
        Op::CSelL => 0x4d,
        Op::CSelLE => 0x4f,
        Op::CSelG => 0x4e,
        _ => 0x4c,
    }
}

fn csel_cmov_opcode(op: Op) -> (b: u8)
    ensures
        b == csel_cmov_op(op),
{
    match op {
        Op::CSelZ => 0x45,
        Op::CSelNZ => 0x44,
        Op::CSelE => 0x45,
        Op::CSelNE => 0x44,
        Op::CSelL => 0x4d,
        Op::CSelLE => 0x4f,
        Op::CSelG => 0x4e,
        _ => 0x4c,
    }
}

/// The jumps to a target.
pub open spec fn is_jump(op: Op) -> bool {
    op == Op::Jmp || op == Op::Je || op == Op::Jne || op == Op::Jl || op == Op::Jbe || op == Op::Jz || op
        == Op::Jnz || op == Op::Jo
}

/// Second opcode byte of a conditional jump.
pub open spec fn jcc_op(op: Op) -> u8 {
    match op {
        Op::Je => 0x84,
        Op::Jz => 0x84,
        Op::Jne => 0x85,
        Op::Jnz => 0x85,
        Op::Jl => 0x8c,
        Op::Jbe => 0x86,
        _ => 0x80,
    }
}

fn jcc_opcode(op: Op) -> (b: u8)
    ensures
        b == jcc_op(op),
{
    match op {
        Op::Je => 0x84,
        Op::Jz => 0x84,
        Op::Jne => 0x85,
        Op::Jnz => 0x85,
        Op::Jl => 0x8c,
        Op::Jbe => 0x86,
        _ => 0x80,
    }
}

/// The opcode of a jump to a label.
pub open spec fn jump_rel_opcode(op: Op) -> RelOpcode {
    if op == Op::Jmp {
        RelOpcode { len: 1, b0: 0xe9, b1: 0, b2: 0 }
    } else {
        RelOpcode { len: 2, b0: 0x0f, b1: jcc_op(op), b2: 0 }
    }
}

/// The opcode of the load of a label's address into the scratch register.
pub open spec fn lea_label_opcode() -> RelOpcode {
    RelOpcode { len: 3, b0: 0x4c, b1: 0x8d, b2: 0x1d }
}

/// The encoding of a jump to an address.
pub open spec fn jump_ptr_bytes(op: Op, src: CodePtr, dst: CodePtr) -> Seq<u8> {
    if op == Op::Jmp {
        jmp_ptr_bytes(src, dst)
    } else {
        jcc_ptr_bytes(jcc_op(op), src, dst)
    }
}

/// Whether the distance of a jump to an address fits its encoding.
pub open spec fn jump_ptr_fits(op: Op, src: CodePtr, dst: CodePtr) -> bool {
    if op == Op::Jmp {
        fits_rel32(rel_dist(src, 5, dst.0))
    } else {
        fits_rel32(rel_dist(src, 6, dst.0))
    }
}

/// The pushes of the first `n` registers, in order.
pub open spec fn push_regs_bytes(regs: Seq<Reg>, n: int) -> Seq<u8>
    decreases n,
{
    if n <= 0 {
        Seq::empty()
    } else {
        push_regs_bytes(regs, n - 1) + push_bytes(X86Opnd::Reg(regs[n - 1]))
    }
}

/// The pops of the first `n` registers, last first.
pub open spec fn pop_regs_bytes(regs: Seq<Reg>, n: int) -> Seq<u8>
    decreases n,
{
    if n <= 0 {
        Seq::empty()
    } else {
        pop_bytes(X86Opnd::Reg(regs[n - 1])) + pop_regs_bytes(regs, n - 1)
    }
}

/// Whether a load moves a reference to a heap object, which the garbage
/// collector has to find in the code.
pub open spec fn loads_heap_value(src: Opnd) -> bool {
    src matches Opnd::Value(val) && !val.is_special_const()
}

/// Whether a load has an encoding.
pub open spec fn load_ok(dst: Opnd, src: Opnd) -> bool {
    &&& lowerable(dst)
    &&& if loads_heap_value(src) {
        lower(dst) matches X86Opnd::Reg(reg) && reg.num_bits == 64
    } else {
        lowerable(src) && mov_ok(lower(dst), lower(src))
    }
}

/// The encoding of a load. A reference to a heap object is moved in the
/// full 64-bit form, so that its last eight bytes are the reference.
pub open spec fn load_bytes(dst: Opnd, src: Opnd) -> Seq<u8> {
    if loads_heap_value(src) {
        movabs_bytes(lower(dst)->Reg_0, src->Value_0.0)
    } else {
        mov_bytes(lower(dst), lower(src))
    }
}

/// Whether a comparison takes its immediate as it is: the immediate is
/// narrower than 64 bits and exactly as wide as the left operand.
pub open spec fn compares_directly(left: Opnd, right: Opnd) -> bool {
    match right {
        Opnd::Imm(value) => left.spec_num_bits() == Some(spec_imm_num_bits(value)) && spec_imm_num_bits(value)
            < 64,
        Opnd::UImm(value) => left.spec_num_bits() == Some(spec_uimm_num_bits(value)) && spec_uimm_num_bits(
            value,
        ) < 64,
        _ => false,
    }
}

/// The machine operand on the right of a comparison.
pub open spec fn compare_right(left: Opnd, right: Opnd) -> X86Opnd {
    if compares_directly(left, right) {
        lower(right)
    } else {
        imm64_opnd(right)
    }
}

/// The encoding of a comparison, with the move of a wide immediate before
/// it where one is needed.
pub open spec fn compare_bytes(left: Opnd, right: Opnd) -> Seq<u8> {
    if compares_directly(left, right) {
        cmp_bytes(lower(left), lower(right))
    } else {
        imm64_bytes(right) + cmp_bytes(lower(left), imm64_opnd(right))
    }
}

/// The first operand of an instruction.
pub open spec fn opnd0(insn: InsnView) -> Opnd {
    insn.opnds[0]
}

/// The second operand of an instruction.
pub open spec fn opnd1(insn: InsnView) -> Opnd {
    insn.opnds[1]
}

/// The instructions whose emission does more than write bytes that the
/// instruction and the write address determine: they bind or refer to a
/// label, report a position, or look at how much code there is.
pub open spec fn is_special(op: Op) -> bool {
    op == Op::Label || op == Op::PosMarker || op == Op::LeaLabel || op == Op::PadInvalPatch || is_jump(op)
}

/// Whether an instruction that is not special can be emitted.
pub open spec fn plain_ok(insn: InsnView) -> bool {
    match insn.op {
        Op::BakeString => insn.text is Some,
        Op::Add | Op::Sub | Op::And | Op::Or | Op::Xor => {
            &&& insn.opnds.len() >= 2
            &&& lowerable(opnd0(insn))
            &&& lowerable(opnd1(insn))
            &&& alu_ok(insn.op, lower(opnd0(insn)), imm64_opnd(opnd1(insn)))
        },
        Op::Not => insn.opnds.len() >= 1 && lowerable(opnd0(insn)) && rm_unary_ok(lower(opnd0(insn))),
        Op::LShift | Op::RShift | Op::URShift => {
            &&& insn.opnds.len() >= 2
            &&& lowerable(opnd0(insn))
            &&& lowerable(opnd1(insn))
            &&& shift_ok(lower(opnd0(insn)), lower(opnd1(insn)))
        },
        Op::Store | Op::Mov => {
            &&& insn.opnds.len() >= 2
            &&& lowerable(opnd0(insn))
            &&& lowerable(opnd1(insn))
            &&& mov_ok(lower(opnd0(insn)), lower(opnd1(insn)))
        },
        Op::Load => insn.opnds.len() >= 1 && load_ok(insn.out, opnd0(insn)),
        Op::LoadInto => insn.opnds.len() >= 2 && load_ok(opnd0(insn), opnd1(insn)),
        Op::LoadSExt => {
            &&& insn.opnds.len() >= 1
            &&& lowerable(insn.out)
            &&& lowerable(opnd0(insn))
            &&& movsx_ok(lower(insn.out), lower(opnd0(insn)))
        },
        Op::Lea => {
            &&& insn.opnds.len() >= 1
            &&& lowerable(insn.out)
            &&& lowerable(opnd0(insn))
            &&& lea_ok(lower(insn.out), lower(opnd0(insn)))
        },
        Op::CPush => insn.opnds.len() >= 1 && lowerable(opnd0(insn)) && lower(opnd0(insn)).is_rm(),
        Op::CPop => lowerable(insn.out) && pop_ok(lower(insn.out)),
        Op::CPopInto => insn.opnds.len() >= 1 && lowerable(opnd0(insn)) && pop_ok(lower(opnd0(insn))),
        Op::CCall => insn.target matches Some(Target::FunPtr(_)),
        Op::CRet => {
            &&& insn.opnds.len() >= 1
            &&& opnd0(insn) != Opnd::Reg(spec_c_ret_reg()) ==> lowerable(opnd0(insn)) && mov_ok(
                X86Opnd::Reg(spec_rax_reg()),
                lower(opnd0(insn)),
            )
        },
        Op::Cmp => {
            &&& insn.opnds.len() >= 2
            &&& lowerable(opnd0(insn))
            &&& lowerable(opnd1(insn))
            &&& cmp_ok(lower(opnd0(insn)), compare_right(opnd0(insn), opnd1(insn)))
        },
        Op::Test => {
            &&& insn.opnds.len() >= 2
            &&& lowerable(opnd0(insn))
            &&& lowerable(opnd1(insn))
            &&& test_ok(lower(opnd0(insn)), imm64_opnd(opnd1(insn)))
        },
        Op::JmpOpnd => insn.opnds.len() >= 1 && lowerable(opnd0(insn)) && lower(opnd0(insn)).is_rm(),
        Op::IncrCounter => {
            &&& insn.opnds.len() >= 2
            &&& opnd0(insn) is Mem
            &&& opnd1(insn) is UImm || opnd1(insn) is Imm
            &&& lowerable(opnd0(insn))
            &&& add_ok(lower(opnd0(insn)), lower(opnd1(insn)))
        },
        Op::CSelZ | Op::CSelNZ | Op::CSelE | Op::CSelNE | Op::CSelL | Op::CSelLE | Op::CSelG | Op::CSelGE => {
            &&& insn.opnds.len() >= 2
            &&& lowerable(insn.out)
            &&& lowerable(opnd0(insn))
            &&& lowerable(opnd1(insn))
            &&& insn.out != opnd0(insn) ==> mov_ok(lower(insn.out), lower(opnd0(insn)))
            &&& cmov_ok(lower(insn.out), lower(opnd1(insn)))
        },
        _ => true,
    }
}

/// The machine code of an instruction that is not special, when it is
/// written at address `ptr`.
pub open spec fn insn_bytes(insn: InsnView, ptr: CodePtr) -> Seq<u8> {
    match insn.op {
        Op::BakeString => vstd::utf8::encode_utf8(insn.text->Some_0) + seq![0u8],
        Op::Add | Op::Sub | Op::And | Op::Or | Op::Xor => imm64_bytes(opnd1(insn)) + alu_bytes(
            insn.op,
            lower(opnd0(insn)),
            imm64_opnd(opnd1(insn)),
        ),
        Op::Not => not_bytes(lower(opnd0(insn))),
        Op::LShift | Op::RShift | Op::URShift => shift_bytes(
            shift_ext(insn.op),
            lower(opnd0(insn)),
            lower(opnd1(insn)),
        ),
        Op::Store | Op::Mov => mov_bytes(lower(opnd0(insn)), lower(opnd1(insn))),
        Op::Load => load_bytes(insn.out, opnd0(insn)),
        Op::LoadInto => load_bytes(opnd0(insn), opnd1(insn)),
        Op::LoadSExt => movsx_bytes(lower(insn.out), lower(opnd0(insn))),
        Op::Lea => lea_bytes(lower(insn.out), lower(opnd0(insn))),
        Op::CPush => push_bytes(lower(opnd0(insn))),
        Op::CPop => pop_bytes(lower(insn.out)),
        Op::CPopInto => pop_bytes(lower(opnd0(insn))),
        Op::CPushAll => push_regs_bytes(spec_caller_save_regs(), 9) + seq![0x9cu8],
        Op::CPopAll => seq![0x9du8] + pop_regs_bytes(spec_caller_save_regs(), 9),
        Op::CCall => call_ptr_bytes(ptr, spec_rax_reg(), insn.target->Some_0->FunPtr_0),
        Op::CRet => (if opnd0(insn) != Opnd::Reg(spec_c_ret_reg()) {
            mov_bytes(X86Opnd::Reg(spec_rax_reg()), lower(opnd0(insn)))
        } else {
            Seq::empty()
        }) + seq![0xc3u8],
        Op::Cmp => compare_bytes(opnd0(insn), opnd1(insn)),
        Op::Test => imm64_bytes(opnd1(insn)) + test_bytes(lower(opnd0(insn)), imm64_opnd(opnd1(insn))),
        Op::JmpOpnd => jmp_rm_bytes(lower(opnd0(insn))),
        Op::IncrCounter => seq![0xf0u8] + add_bytes(lower(opnd0(insn)), lower(opnd1(insn))),
        Op::Breakpoint => seq![0xccu8],
        Op::CSelZ | Op::CSelNZ | Op::CSelE | Op::CSelNE | Op::CSelL | Op::CSelLE | Op::CSelG | Op::CSelGE => (
        if insn.out != opnd0(insn) {
            mov_bytes(lower(insn.out), lower(opnd0(insn)))
        } else {
            Seq::empty()
        }) + cmov_bytes(csel_cmov_op(insn.op), lower(insn.out), lower(opnd1(insn))),
        _ => Seq::empty(),
    }
}

fn load_code(dst: Opnd, src: Opnd) -> (out: Vec<u8>)
    requires
        load_ok(dst, src),
    ensures
        out@ == load_bytes(dst, src),
{
    match src {
        Opnd::Value(val) => {
            if val.heap_object_p() {
                crate::encoder::x86_64::movabs(X86Opnd::from(dst), val.0)
            } else {
                crate::encoder::x86_64::mov(X86Opnd::from(dst), X86Opnd::from(src))
            }
        },
        _ => crate::encoder::x86_64::mov(X86Opnd::from(dst), X86Opnd::from(src)),
    }
}

fn compare_code(left: Opnd, right: Opnd) -> (out: Vec<u8>)
    requires
        lowerable(left),
        lowerable(right),
        cmp_ok(lower(left), compare_right(left, right)),
    ensures
        out@ == compare_bytes(left, right),
{
    let num_bits: Option<u8> = match right {
        Opnd::Imm(value) => Some(imm_num_bits(value)),
        Opnd::UImm(value) => Some(uimm_num_bits(value)),
        _ => None,
    };
    let direct = match num_bits {
        Some(n) => match left.num_bits() {
            Some(l) => l == n && n < 64,
            None => false,
        },
        None => false,
    };
    if direct {
        crate::encoder::x86_64::cmp(X86Opnd::from(left), X86Opnd::from(right))
    } else {
        let (head, emitted) = emit_64bit_immediate(right);
        concat(head, crate::encoder::x86_64::cmp(X86Opnd::from(left), emitted))
    }
}

fn push_regs_code(regs: &Vec<Reg>) -> (out: Vec<u8>)
    ensures
        out@ == push_regs_bytes(regs@, regs@.len() as int),
{
    let mut out: Vec<u8> = Vec::new();
    let mut i: usize = 0;
    while i < regs.len()
        invariant
            i <= regs@.len(),
            out@ == push_regs_bytes(regs@, i as int),
        decreases regs@.len() - i,
    {
        out = concat(out, crate::encoder::x86_64::push(X86Opnd::Reg(regs[i])));
        i += 1;
    }
    out
}

fn pop_regs_code(regs: &Vec<Reg>) -> (out: Vec<u8>)
    requires
        forall|i: int| 0 <= i < regs@.len() ==> (#[trigger] regs@[i]).num_bits == 64,
    ensures
        out@ == pop_regs_bytes(regs@, regs@.len() as int),
{
    let mut out: Vec<u8> = Vec::new();
    let mut i: usize = 0;
    while i < regs.len()
        invariant
            i <= regs@.len(),
            forall|i: int| 0 <= i < regs@.len() ==> (#[trigger] regs@[i]).num_bits == 64,
            out@ == pop_regs_bytes(regs@, i as int),
        decreases regs@.len() - i,
    {
        out = concat(crate::encoder::x86_64::pop(X86Opnd::Reg(regs[i])), out);
        i += 1;
    }
    out
}

/// The machine code of an instruction that is not special, for the address
/// `ptr`.
fn insn_code(insn: &Insn, ptr: CodePtr) -> (out: Vec<u8>)
    requires
        !is_special(insn.op),
        plain_ok(insn@),
    ensures
        out@ == insn_bytes(insn@, ptr),
{
    match insn.op {
        Op::BakeString => {
            match &insn.text {
                Some(text) => concat(text.as_str().as_bytes_vec(), bytes1(0)),
                None => Vec::new(),
            }
        },
        Op::Add | Op::Sub | Op::And | Op::Or | Op::Xor => {
            let (head, opnd1) = emit_64bit_immediate(insn.opnds[1]);
            concat(head, alu(insn.op, X86Opnd::from(insn.opnds[0]), opnd1))
        },
        Op::Not => crate::encoder::x86_64::not(X86Opnd::from(insn.opnds[0])),
        Op::LShift => crate::encoder::x86_64::shl(X86Opnd::from(insn.opnds[0]), X86Opnd::from(insn.opnds[1])),
        Op::RShift => crate::encoder::x86_64::sar(X86Opnd::from(insn.opnds[0]), X86Opnd::from(insn.opnds[1])),
        Op::URShift => crate::encoder::x86_64::shr(X86Opnd::from(insn.opnds[0]), X86Opnd::from(insn.opnds[1])),
        Op::Store | Op::Mov => crate::encoder::x86_64::mov(
            X86Opnd::from(insn.opnds[0]),
            X86Opnd::from(insn.opnds[1]),
        ),
        Op::Load => load_code(insn.out, insn.opnds[0]),
        Op::LoadInto => load_code(insn.opnds[0], insn.opnds[1]),
        Op::LoadSExt => crate::encoder::x86_64::movsx(X86Opnd::from(insn.out), X86Opnd::from(insn.opnds[0])),
        Op::Lea => crate::encoder::x86_64::lea(X86Opnd::from(insn.out), X86Opnd::from(insn.opnds[0])),
        Op::CPush => crate::encoder::x86_64::push(X86Opnd::from(insn.opnds[0])),
        Op::CPop => crate::encoder::x86_64::pop(X86Opnd::from(insn.out)),
        Op::CPopInto => crate::encoder::x86_64::pop(X86Opnd::from(insn.opnds[0])),
        Op::CPushAll => {
            let regs = Assembler::get_caller_save_regs();
            concat(push_regs_code(&regs), crate::encoder::x86_64::pushfq())
        },
        Op::CPopAll => {
            let regs = Assembler::get_caller_save_regs();
            concat(crate::encoder::x86_64::popfq(), pop_regs_code(&regs))
        },
        Op::CCall => {
            match insn.target {
                Some(Target::FunPtr(fptr)) => crate::encoder::x86_64::call_ptr(
                    ptr,
                    X86Opnd::Reg(rax_reg()),
                    fptr,
                ),
                _ => Vec::new(),
            }
        },
        Op::CRet => {
            let opnd = insn.opnds[0];
            let head = if opnd != Opnd::Reg(c_ret_reg()) {
                crate::encoder::x86_64::mov(X86Opnd::Reg(rax_reg()), X86Opnd::from(opnd))
            } else {
                Vec::new()
            };
            concat(head, crate::encoder::x86_64::ret())
        },
        Op::Cmp => compare_code(insn.opnds[0], insn.opnds[1]),
        Op::Test => {
            let (head, emitted) = emit_64bit_immediate(insn.opnds[1]);
            concat(head, crate::encoder::x86_64::test(X86Opnd::from(insn.opnds[0]), emitted))
        },
        Op::JmpOpnd => crate::encoder::x86_64::jmp_rm(X86Opnd::from(insn.opnds[0])),
        Op::IncrCounter => concat(
            crate::encoder::x86_64::write_lock_prefix(),
            crate::encoder::x86_64::add(X86Opnd::from(insn.opnds[0]), X86Opnd::from(insn.opnds[1])),
        ),
        Op::Breakpoint => crate::encoder::x86_64::int3(),
        Op::CSelZ | Op::CSelNZ | Op::CSelE | Op::CSelNE | Op::CSelL | Op::CSelLE | Op::CSelG | Op::CSelGE => {
            let truthy = insn.opnds[0];
            let falsy = insn.opnds[1];
            let head = if insn.out != truthy {
                crate::encoder::x86_64::mov(X86Opnd::from(insn.out), X86Opnd::from(truthy))
            } else {
                Vec::new()
            };
            concat(
                head,
                crate::encoder::x86_64::cmov(csel_cmov_opcode(insn.op), X86Opnd::from(insn.out), X86Opnd::from(falsy)),
            )
        },
        _ => Vec::new(),
    }
}

/// Whether an instruction can be emitted into a block with `num_labels`
/// labels.
pub open spec fn emit_ok(insn: InsnView, num_labels: nat) -> bool {
    if insn.op == Op::Label {
        insn.target matches Some(Target::Label(idx)) && idx < num_labels
    } else if insn.op == Op::PosMarker {
        insn.pos_marker is Some
    } else if insn.op == Op::LeaLabel {
        &&& insn.target matches Some(Target::Label(idx)) && idx < num_labels
        &&& lowerable(insn.out)
        &&& mov_ok(lower(insn.out), spec_scratch0())
    } else if insn.op == Op::PadInvalPatch {
        true
    } else if is_jump(insn.op) {
        match insn.target {
            Some(Target::Label(idx)) => idx < num_labels,
            Some(Target::CodePtr(_)) => true,
            _ => false,
        }
    } else {
        plain_ok(insn)
    }
}

/// Number of no-op bytes that bring the code since `start`, or since the
/// start of the page if that is later, up to the size of a jump to an
/// address.
pub open spec fn pad_len(cb: CodeBlockView, start: usize) -> int {
    let from = if start >= cb.page_start {
        start
    } else {
        cb.page_start
    };
    let code_size = if cb.write_pos >= from {
        cb.write_pos - from
    } else {
        0
    };
    if code_size < JMP_PTR_BYTES {
        JMP_PTR_BYTES - code_size
    } else {
        0
    }
}

/// The operand that a load reads.
pub open spec fn load_src(insn: InsnView) -> Opnd {
    if insn.op == Op::LoadInto {
        opnd1(insn)
    } else {
        opnd0(insn)
    }
}

/// Number of bytes of the move that loads a reference to a heap object.
pub const HEAP_LOAD_BYTES: usize = 10;

/// Number of bytes of a value of the language.
pub const SIZEOF_VALUE: usize = 8;

/// The positions, within the block, of the references to heap objects that
/// emitting the instruction into `cb` stores in the code: that of the
/// immediate of a load of such a reference, which is the last part of the
/// load, if the load fits.
pub open spec fn gc_offsets(insn: InsnView, cb: CodeBlockView) -> Seq<u32> {
    if (insn.op == Op::Load || insn.op == Op::LoadInto) && loads_heap_value(load_src(insn))
        && HEAP_LOAD_BYTES <= cb.capacity() {
        seq![(cb.write_pos + HEAP_LOAD_BYTES - SIZEOF_VALUE) as u32]
    } else {
        Seq::empty()
    }
}

/// The block after the instruction was emitted into it. `start` is the
/// position at which emission of the whole list began.
pub open spec fn emit_insn(cb: CodeBlockView, insn: InsnView, start: usize) -> CodeBlockView {
    if insn.op == Op::Label {
        cb.write_label(insn.target->Some_0->Label_0)
    } else if insn.op == Op::PosMarker {
        cb.mark(insn.pos_marker->Some_0)
    } else if insn.op == Op::LeaLabel {
        cb.label_ref(insn.target->Some_0->Label_0, lea_label_opcode()).write(
            mov_bytes(lower(insn.out), spec_scratch0()),
        )
    } else if insn.op == Op::PadInvalPatch {
        cb.write(nop_bytes(pad_len(cb, start)))
    } else if is_jump(insn.op) {
        match insn.target {
            Some(Target::Label(idx)) => cb.label_ref(idx, jump_rel_opcode(insn.op)),
            Some(Target::CodePtr(dst)) => {
                let written = cb.write(jump_ptr_bytes(insn.op, cb.write_ptr(), dst));
                CodeBlockView {
                    dropped_bytes: written.dropped_bytes || !jump_ptr_fits(insn.op, cb.write_ptr(), dst),
                    ..written
                }
            },
            _ => cb,
        }
    } else {
        cb.write(insn_bytes(insn, cb.write_ptr()))
    }
}

/// Emission moves the write position forward and leaves the layout of the
/// block as it is.
pub proof fn lemma_emit_insn_frame(cb: CodeBlockView, insn: InsnView, start: usize)
    requires
        cb.wf(),
    ensures
        emit_insn(cb, insn, start).mem.len() == cb.mem.len(),
        emit_insn(cb, insn, start).page_start == cb.page_start,
        emit_insn(cb, insn, start).page_size == cb.page_size,
        emit_insn(cb, insn, start).page_end_reserve == cb.page_end_reserve,
        emit_insn(cb, insn, start).base_addr == cb.base_addr,
        emit_insn(cb, insn, start).write_pos >= cb.write_pos,
{
}

fn emit_one(cb: &mut CodeBlock, insn: &Insn, start: usize) -> (gc: Vec<u32>)
    requires
        old(cb)@.wf(),
        emit_ok(insn@, old(cb)@.label_addrs.len()),
    ensures
        final(cb)@ == emit_insn(old(cb)@, insn@, start),
        gc@ == gc_offsets(insn@, old(cb)@),
        final(cb)@.wf(),
        final(cb)@.label_addrs.len() == old(cb)@.label_addrs.len(),
{
    let mut gc: Vec<u32> = Vec::new();
    let op = insn.op;
    if op == Op::Label {
        match insn.target {
            Some(Target::Label(idx)) => {
                cb.write_label(idx);
            },
            _ => {},
        }
    } else if op == Op::PosMarker {
        match insn.pos_marker {
            Some(key) => {
                cb.mark_position(key);
            },
            None => {},
        }
    } else if op == Op::LeaLabel {
        match insn.target {
            Some(Target::Label(idx)) => {
                cb.label_ref(idx, RelOpcode { len: 3, b0: 0x4c, b1: 0x8d, b2: 0x1d });
                let code = crate::encoder::x86_64::mov(X86Opnd::from(insn.out), scratch0());
                cb.write_bytes(&code);
            },
            _ => {},
        }
    } else if op == Op::PadInvalPatch {
        let page_start = cb.page_start_pos();
        let from = if start >= page_start {
            start
        } else {
            page_start
        };
        let write_pos = cb.get_write_pos();
        let code_size = if write_pos >= from {
            write_pos - from
        } else {
            0
        };
        let pad: u32 = if code_size < JMP_PTR_BYTES {
            (JMP_PTR_BYTES - code_size) as u32
        } else {
            0
        };
        let code = crate::encoder::x86_64::nop(pad);
        cb.write_bytes(&code);
    } else if op == Op::Jmp || op == Op::Je || op == Op::Jne || op == Op::Jl || op == Op::Jbe || op == Op::Jz
        || op == Op::Jnz || op == Op::Jo {
        match insn.target {
            Some(Target::Label(idx)) => {
                let opcode = if op == Op::Jmp {
                    RelOpcode { len: 1, b0: 0xe9, b1: 0, b2: 0 }
                } else {
                    RelOpcode { len: 2, b0: 0x0f, b1: jcc_opcode(op), b2: 0 }
                };
                cb.label_ref(idx, opcode);
            },
            Some(Target::CodePtr(dst)) => {
                let src = cb.get_write_ptr();
                let (code, fits) = if op == Op::Jmp {
                    crate::encoder::x86_64::jmp_ptr(src, dst)
                } else {
                    crate::encoder::x86_64::jcc_ptr(jcc_opcode(op), src, dst)
                };
                cb.write_bytes(&code);
                if !fits {
                    cb.set_dropped_bytes(true);
                }
            },
            _ => {},
        }
    } else {
        let code = insn_code(insn, cb.get_write_ptr());
        let loads_heap = match op {
            Op::Load => match insn.opnds[0] {
                Opnd::Value(val) => val.heap_object_p(),
                _ => false,
            },
            Op::LoadInto => match insn.opnds[1] {
                Opnd::Value(val) => val.heap_object_p(),
                _ => false,
            },
            _ => false,
        };
        proof {
            if loads_heap {
                lemma_le_bytes_len(load_src(insn@)->Value_0.0, 8);
                assert(code@ == load_bytes(
                    if op == Op::Load {
                        insn.out
                    } else {
                        opnd0(insn@)
                    },
                    load_src(insn@),
                ));
                assert(code@.len() == HEAP_LOAD_BYTES);
            }
        }
        let fits = cb.has_capacity(code.len());
        cb.write_bytes(&code);
        if loads_heap && fits {
            // The reference is the last part of the move just written.
            let offset: u32 = (cb.get_write_pos() - SIZEOF_VALUE) as u32;
            gc.push(offset);
            assert(gc@ =~= gc_offsets(insn@, old(cb)@));
        }
    }
    gc
}

/// The jump that leads from `src_pos` on the current page to the start of
/// the next page.
pub open spec fn page_jump(cb: CodeBlockView, src_pos: usize) -> Seq<u8> {
    jmp_ptr_bytes(cb.ptr_at(src_pos as int), cb.ptr_at(cb.page_start + cb.page_size))
}

/// The block and the list of positions of heap references after the
/// instructions from index `i` on were emitted.
///
/// An instruction that does not fit on the current page, while all before it
/// did, is emitted again at the start of the next page if there is one: a
/// jump to that page is written where the instruction began, and the labels
/// are put back to where they were before the instruction. Its heap
/// references count only when it is not emitted again.
pub open spec fn emit_from(insns: Seq<InsnView>, i: int, cb: CodeBlockView, gc: Seq<u32>, start: usize) -> (
    CodeBlockView,
    Seq<u32>,
)
    decreases insns.len() - i, cb.mem.len() - cb.page_start,
    when cb.wf()
{
    if i < 0 || i >= insns.len() {
        (cb, gc)
    } else {
        let emitted = emit_insn(cb, insns[i], start);
        if !cb.dropped_bytes && emitted.dropped_bytes && emitted.has_next_page() {
            proof {
                lemma_emit_insn_frame(cb, insns[i], start);
            }
            emit_from(
                insns,
                i,
                emitted.next_page(cb.write_pos, page_jump(emitted, cb.write_pos)).with_labels(
                    cb.label_addrs,
                    cb.label_refs,
                ),
                gc,
                start,
            )
        } else {
            emit_from(insns, i + 1, emitted, gc + gc_offsets(insns[i], cb), start)
        }
    }
}

/// Whether every instruction of the list can be emitted into a block with
/// `num_labels` labels.
pub open spec fn emittable(insns: Seq<InsnView>, num_labels: nat) -> bool {
    forall|i: int| 0 <= i < insns.len() ==> emit_ok(#[trigger] insns[i], num_labels)
}

impl Assembler {
    /// Writes the machine code of the instructions into `cb`, in order, and
    /// returns the positions in the block of the references to heap objects
    /// that the code holds.
    pub fn x86_emit(&mut self, cb: &mut CodeBlock) -> (gc_offsets: Vec<u32>)
        requires
            old(cb)@.wf(),
            old(cb)@.page_end_reserve >= JMP_PTR_LEN,
            emittable(old(self)@.insns, old(cb)@.label_addrs.len()),
        ensures
            (final(cb)@, gc_offsets@) == emit_from(
                old(self)@.insns,
                0,
                old(cb)@,
                Seq::empty(),
                old(cb)@.write_pos,
            ),
            final(self)@ == old(self)@,
            final(cb)@.wf(),
            final(cb)@.label_addrs.len() == old(cb)@.label_addrs.len(),
            final(cb)@.page_end_reserve == old(cb)@.page_end_reserve,
    {
        let mut gc_offsets: Vec<u32> = Vec::new();
        let start_write_pos = cb.get_write_pos();
        let ghost insns = self@.insns;
        let ghost num_labels = cb@.label_addrs.len();
        let mut insns_idx: usize = 0;
        while insns_idx < self.insns.len()
            invariant
                insns_idx <= self.insns@.len(),
                self@ == old(self)@,
                insns == self@.insns,
                insns.len() == self.insns@.len(),
                cb@.wf(),
                cb@.page_end_reserve == old(cb)@.page_end_reserve,
                cb@.page_end_reserve >= JMP_PTR_LEN,
                cb@.label_addrs.len() == num_labels,
                num_labels == old(cb)@.label_addrs.len(),
                start_write_pos == old(cb)@.write_pos,
                emittable(insns, num_labels),
                emit_from(insns, insns_idx as int, cb@, gc_offsets@, start_write_pos) == emit_from(
                    insns,
                    0,
                    old(cb)@,
                    Seq::empty(),
                    start_write_pos,
                ),
            decreases self.insns@.len() - insns_idx, cb@.mem.len() - cb@.page_start,
        {
            let ghost before = cb@;
            let src_pos = cb.get_write_pos();
            let had_dropped_bytes = cb.has_dropped_bytes();
            let old_label_state = cb.get_label_state();
            let insn = &self.insns[insns_idx];
            assert(insn@ == insns[insns_idx as int]);
            let mut insn_gc_offsets = emit_one(cb, insn, start_write_pos);
            proof {
                lemma_emit_insn_frame(before, insn@, start_write_pos);
            }
            let mut retry = false;
            if !had_dropped_bytes && cb.has_dropped_bytes() {
                // On failure, jump to the next page and emit the
                // instruction again.
                match cb.next_page_pos() {
                    Some(dst_pos) => {
                        let src_ptr = cb.get_ptr(src_pos);
                        let dst_ptr = cb.get_ptr(dst_pos);
                        proof {
                            lemma_jmp_ptr_len(src_ptr, dst_ptr);
                        }
                        let (jmp, _) = crate::encoder::x86_64::jmp_ptr(src_ptr, dst_ptr);
                        let moved = cb.next_page(src_pos, &jmp);
                        cb.set_label_state(old_label_state);
                        retry = true;
                    },
                    None => {},
                }
            }
            if !retry {
                insns_idx += 1;
                gc_offsets.append(&mut insn_gc_offsets);
            }
        }
        gc_offsets
    }
}

/// Whether an operand can stand in a machine instruction.
pub fn is_lowerable(opnd: Opnd) -> (b: bool)
    ensures
        b == lowerable(opnd),
{
    match opnd {
        Opnd::Absent => false,
        Opnd::InsnOut { .. } => false,
        Opnd::Mem(Mem { base: MemBase::InsnOut(_), .. }) => false,
        _ => true,
    }
}

fn imm64_operand(opnd: Opnd) -> (r: X86Opnd)
    requires
        lowerable(opnd),
    ensures
        r == imm64_opnd(opnd),
{
    let wide = match opnd {
        Opnd::Imm(value) => imm_num_bits(value) > 32,
        Opnd::UImm(value) => imm_num_bits(value as i64) > 32,
        _ => false,
    };
    if wide {
        scratch0()
    } else {
        X86Opnd::from(opnd)
    }
}

fn can_encode_alu(op: Op, dst: X86Opnd, src: X86Opnd) -> (b: bool)
    ensures
        b == alu_ok(op, dst, src),
{
    match op {
        Op::Add => can_encode_add(dst, src),
        Op::Sub => can_encode_sub(dst, src),
        Op::And => can_encode_and(dst, src),
        Op::Or => can_encode_or(dst, src),
        _ => can_encode_xor(dst, src),
    }
}

fn can_load(dst: Opnd, src: Opnd) -> (b: bool)
    ensures
        b == load_ok(dst, src),
{
    if !is_lowerable(dst) {
        return false;
    }
    let heap = match src {
        Opnd::Value(val) => val.heap_object_p(),
        _ => false,
    };
    if heap {
        match X86Opnd::from(dst) {
            X86Opnd::Reg(reg) => reg.num_bits == 64,
            _ => false,
        }
    } else {
        is_lowerable(src) && can_encode_mov(X86Opnd::from(dst), X86Opnd::from(src))
    }
}

fn can_compare(left: Opnd, right: Opnd) -> (b: bool)
    requires
        lowerable(left),
        lowerable(right),
    ensures
        b == cmp_ok(lower(left), compare_right(left, right)),
{
    let num_bits: Option<u8> = match right {
        Opnd::Imm(value) => Some(imm_num_bits(value)),
        Opnd::UImm(value) => Some(uimm_num_bits(value)),
        _ => None,
    };
    let direct = match num_bits {
        Some(n) => match left.num_bits() {
            Some(l) => l == n && n < 64,
            None => false,
        },
        None => false,
    };
    if direct {
        can_encode_cmp(X86Opnd::from(left), X86Opnd::from(right))
    } else {
        can_encode_cmp(X86Opnd::from(left), imm64_operand(right))
    }
}

fn two_lowerable(insn: &Insn) -> (b: bool)
    ensures
        b == (insn@.opnds.len() >= 2 && lowerable(opnd0(insn@)) && lowerable(opnd1(insn@))),
{
    insn.opnds.len() >= 2 && is_lowerable(insn.opnds[0]) && is_lowerable(insn.opnds[1])
}

fn one_lowerable(insn: &Insn) -> (b: bool)
    ensures
        b == (insn@.opnds.len() >= 1 && lowerable(opnd0(insn@))),
{
    insn.opnds.len() >= 1 && is_lowerable(insn.opnds[0])
}

fn is_plain_ok(insn: &Insn) -> (b: bool)
    ensures
        b == plain_ok(insn@),
{
    match insn.op {
        Op::BakeString => insn.text.is_some(),
        Op::Add | Op::Sub | Op::And | Op::Or | Op::Xor => two_lowerable(insn) && can_encode_alu(
            insn.op,
            X86Opnd::from(insn.opnds[0]),
            imm64_operand(insn.opnds[1]),
        ),
        Op::Not => one_lowerable(insn) && can_encode_unary(X86Opnd::from(insn.opnds[0])),
        Op::LShift | Op::RShift | Op::URShift => two_lowerable(insn) && can_encode_shift(
            X86Opnd::from(insn.opnds[0]),
            X86Opnd::from(insn.opnds[1]),
        ),
        Op::Store | Op::Mov => two_lowerable(insn) && can_encode_mov(
            X86Opnd::from(insn.opnds[0]),
            X86Opnd::from(insn.opnds[1]),
        ),
        Op::Load => insn.opnds.len() >= 1 && can_load(insn.out, insn.opnds[0]),
        Op::LoadInto => insn.opnds.len() >= 2 && can_load(insn.opnds[0], insn.opnds[1]),
        Op::LoadSExt => one_lowerable(insn) && is_lowerable(insn.out) && can_encode_movsx(
            X86Opnd::from(insn.out),
            X86Opnd::from(insn.opnds[0]),
        ),
        Op::Lea => one_lowerable(insn) && is_lowerable(insn.out) && can_encode_lea(
            X86Opnd::from(insn.out),
            X86Opnd::from(insn.opnds[0]),
        ),
        Op::CPush => one_lowerable(insn) && can_encode_push(X86Opnd::from(insn.opnds[0])),
        Op::CPop => is_lowerable(insn.out) && can_encode_pop(X86Opnd::from(insn.out)),
        Op::CPopInto => one_lowerable(insn) && can_encode_pop(X86Opnd::from(insn.opnds[0])),
        Op::CCall => match insn.target {
            Some(Target::FunPtr(_)) => true,
            _ => false,
        },
        Op::CRet => insn.opnds.len() >= 1 && (insn.opnds[0] == Opnd::Reg(c_ret_reg()) || (is_lowerable(
            insn.opnds[0],
        ) && can_encode_mov(X86Opnd::Reg(rax_reg()), X86Opnd::from(insn.opnds[0])))),
        Op::Cmp => two_lowerable(insn) && can_compare(insn.opnds[0], insn.opnds[1]),
        Op::Test => two_lowerable(insn) && can_encode_test(
            X86Opnd::from(insn.opnds[0]),
            imm64_operand(insn.opnds[1]),
        ),
        Op::JmpOpnd => one_lowerable(insn) && can_encode_push(X86Opnd::from(insn.opnds[0])),
        Op::IncrCounter => {
            if insn.opnds.len() < 2 {
                return false;
            }
            let on_mem = match insn.opnds[0] {
                Opnd::Mem(_) => true,
                _ => false,
            };
            let by_imm = match insn.opnds[1] {
                Opnd::UImm(_) => true,
                Opnd::Imm(_) => true,
                _ => false,
            };
            on_mem && by_imm && is_lowerable(insn.opnds[0]) && can_encode_add(
                X86Opnd::from(insn.opnds[0]),
                X86Opnd::from(insn.opnds[1]),
            )
        },
        Op::CSelZ | Op::CSelNZ | Op::CSelE | Op::CSelNE | Op::CSelL | Op::CSelLE | Op::CSelG | Op::CSelGE => {
            two_lowerable(insn) && is_lowerable(insn.out) && (insn.out == insn.opnds[0] || can_encode_mov(
                X86Opnd::from(insn.out),
                X86Opnd::from(insn.opnds[0]),
            )) && can_encode_cmov(X86Opnd::from(insn.out), X86Opnd::from(insn.opnds[1]))
        },
        _ => true,
    }
}

/// Whether an instruction can be emitted into a block with `num_labels`
/// labels.
pub fn can_emit(insn: &Insn, num_labels: usize) -> (b: bool)
    ensures
        b == emit_ok(insn@, num_labels as nat),
{
    let op = insn.op;
    if op == Op::Label {
        match insn.target {
            Some(Target::Label(idx)) => idx < num_labels,
            _ => false,
        }
    } else if op == Op::PosMarker {
        insn.pos_marker.is_some()
    } else if op == Op::LeaLabel {
        let bound = match insn.target {
            Some(Target::Label(idx)) => idx < num_labels,
            _ => false,
        };
        bound && is_lowerable(insn.out) && can_encode_mov(X86Opnd::from(insn.out), scratch0())
    } else if op == Op::PadInvalPatch {
        true
    } else if op == Op::Jmp || op == Op::Je || op == Op::Jne || op == Op::Jl || op == Op::Jbe || op == Op::Jz
        || op == Op::Jnz || op == Op::Jo {
        match insn.target {
            Some(Target::Label(idx)) => idx < num_labels,
            Some(Target::CodePtr(_)) => true,
            _ => false,
        }
    } else {
        is_plain_ok(insn)
    }
}

impl Assembler {
    /// Whether every instruction can be emitted into a block with
    /// `num_labels` labels.
    pub fn is_emittable(&self, num_labels: usize) -> (b: bool)
        ensures
            b == emittable(self@.insns, num_labels as nat),
    {
        let n = self.insns.len();
        let mut i: usize = 0;
        while i < n
            invariant
                i <= n,
                n == self.insns@.len(),
                forall|j: int| 0 <= j < i ==> emit_ok(#[trigger] self@.insns[j], num_labels as nat),
            decreases n - i,
        {
            if !can_emit(&self.insns[i], num_labels) {
                assert(!emit_ok(self@.insns[i as int], num_labels as nat));
                return false;
            }
            i += 1;
        }
        true
    }
}

/// The code of an instruction that is neither special nor a call is the
/// same wherever it is written.
pub proof fn lemma_insn_bytes_anywhere(insn: InsnView, here: CodePtr, there: CodePtr)
    requires
        !is_special(insn.op),
        insn.op != Op::CCall,
    ensures
        insn_bytes(insn, here) == insn_bytes(insn, there),
{
}

/// An instruction that does not fit on the current page, but does fit on
/// the next one, is emitted there with the very bytes that it has on a page
/// with room enough. What was written before it stays, and where it began a
/// jump leads to the next page.
pub proof fn lemma_retry_emits_same_bytes(cb: CodeBlockView, insn: InsnView, gc: Seq<u32>, start: usize)
    requires
        cb.wf(),
        cb.page_end_reserve >= JMP_PTR_LEN,
        !cb.dropped_bytes,
        !is_special(insn.op),
        insn.op != Op::CCall,
        cb.has_next_page(),
        insn_bytes(insn, cb.write_ptr()).len() > cb.capacity(),
        insn_bytes(insn, cb.write_ptr()).len() <= cb.page_size - cb.page_end_reserve,
        cb.page_start + cb.page_size + insn_bytes(insn, cb.write_ptr()).len() <= cb.mem.len(),
    ensures
        ({
            let code = insn_bytes(insn, cb.write_ptr());
            let next_page = cb.page_start + cb.page_size;
            let done = emit_from(seq![insn], 0, cb, gc, start).0;
            &&& !done.dropped_bytes
            &&& done.page_start == next_page
            &&& done.write_pos == next_page + code.len()
            &&& done.mem.subrange(next_page, next_page + code.len()) == code
            &&& done.mem.subrange(0, cb.write_pos as int) == cb.mem.subrange(0, cb.write_pos as int)
            &&& done.mem.subrange(
                cb.write_pos as int,
                cb.write_pos + page_jump(cb, cb.write_pos).len(),
            ) == page_jump(cb, cb.write_pos)
        }),
{
    let code = insn_bytes(insn, cb.write_ptr());
    let insns = seq![insn];
    let next_page = cb.page_start + cb.page_size;
    let jump = page_jump(cb, cb.write_pos);
    lemma_jmp_ptr_len(cb.ptr_at(cb.write_pos as int), cb.ptr_at(next_page));
    // The first attempt drops bytes.
    let emitted = emit_insn(cb, insn, start);
    assert(emitted == cb.write(code));
    assert(emitted.dropped_bytes);
    assert(page_jump(emitted, cb.write_pos) == jump);
    let retry = emitted.next_page(cb.write_pos, jump).with_labels(cb.label_addrs, cb.label_refs);
    assert(retry.wf());
    assert(emit_from(insns, 0, cb, gc, start) == emit_from(insns, 0, retry, gc, start));
    // The second attempt has room.
    lemma_insn_bytes_anywhere(insn, cb.write_ptr(), retry.write_ptr());
    let emitted2 = emit_insn(retry, insn, start);
    assert(emitted2 == retry.write(code));
    assert(retry.capacity() >= code.len());
    assert(!emitted2.dropped_bytes);
    assert(emit_from(insns, 0, retry, gc, start) == emit_from(insns, 1, emitted2, gc + gc_offsets(insn, retry), start));
    crate::encoder::code_block::lemma_write_wf(retry, code);
    assert(emit_from(insns, 1, emitted2, gc + gc_offsets(insn, retry), start).0 == emitted2);
    assert(emitted2.mem.subrange(next_page, next_page + code.len()) =~= code);
    assert(emitted2.mem.subrange(0, cb.write_pos as int) =~= cb.mem.subrange(0, cb.write_pos as int));
    assert(emitted2.mem.subrange(cb.write_pos as int, cb.write_pos + jump.len()) =~= jump);
}

} // verus!
