//! The x86-64 target: reserved registers, calling convention, legalization
//! and emission.
//!
//! Registers:
//! - `rax`, `rcx` and `rdx` are handed out by the allocator, in this order;
//! - `r12`, `r13` and `rbx` are reserved for the execution context, the
//!   control frame pointer and the stack pointer of the virtual machine;
//! - `r11` is the scratch register of the emitter, which moves wide
//!   immediates and addresses of labels through it; the allocator never
//!   hands it out, and legalization needs no scratch register;
//! - `rdi`, `rsi`, `rdx`, `rcx`, `r8` and `r9` carry the arguments of a C
//!   call, `rax` its result.

use vstd::prelude::*;
use crate::backend::ir::{Assembler, Mem, MemBase, Opnd};
use crate::encoder::x86_64::{
    imm_opnd, r10_reg, r11_reg, r12_reg, r13_reg, r8_reg, r9_reg, rax_reg, rbx_reg, rcx_reg, rdi_reg,
    rdx_reg, RegType, rsi_reg, spec_imm_opnd, spec_r10_reg, spec_r11_reg, spec_r12_reg, spec_r13_reg,
    spec_r8_reg, spec_r9_reg, spec_rax_reg, spec_rbx_reg, spec_rcx_reg, spec_rdi_reg, spec_rdx_reg,
    spec_rsi_reg, spec_uimm_opnd, uimm_opnd, X86Mem, X86Opnd, X86Reg,
};

pub mod compile;
pub mod emit;
pub mod legal;
pub mod split;

verus! {

/// The register type of this platform.
pub type Reg = X86Reg;

/// Number of bytes kept free so that a jump to an address can be written
/// over the start of a piece of code.
pub const JMP_PTR_BYTES: usize = 6;

/// Number of registers that carry arguments of a C call.
pub const C_ARG_COUNT: usize = 6;

/// The register reserved for the control frame pointer.
pub open spec fn spec_cfp() -> Opnd {
    Opnd::Reg(spec_r13_reg())
}

/// The register reserved for the control frame pointer.
#[verifier::when_used_as_spec(spec_cfp)]
pub fn cfp() -> (r: Opnd)
    ensures
        r == spec_cfp(),
{
    Opnd::Reg(r13_reg())
}

/// The register reserved for the execution context.
pub open spec fn spec_ec() -> Opnd {
    Opnd::Reg(spec_r12_reg())
}

/// The register reserved for the execution context.
#[verifier::when_used_as_spec(spec_ec)]
pub fn ec() -> (r: Opnd)
    ensures
        r == spec_ec(),
{
    Opnd::Reg(r12_reg())
}

/// The register reserved for the stack pointer of the virtual machine.
pub open spec fn spec_sp() -> Opnd {
    Opnd::Reg(spec_rbx_reg())
}

/// The register reserved for the stack pointer of the virtual machine.
#[verifier::when_used_as_spec(spec_sp)]
pub fn sp() -> (r: Opnd)
    ensures
        r == spec_sp(),
{
    Opnd::Reg(rbx_reg())
}

/// The registers that carry the arguments of a C call, in order.
pub open spec fn spec_c_arg_opnds() -> Seq<Opnd> {
    seq![
        Opnd::Reg(spec_rdi_reg()),
        Opnd::Reg(spec_rsi_reg()),
        Opnd::Reg(spec_rdx_reg()),
        Opnd::Reg(spec_rcx_reg()),
        Opnd::Reg(spec_r8_reg()),
        Opnd::Reg(spec_r9_reg()),
    ]
}

/// The registers that carry the arguments of a C call, in order.
pub fn c_arg_opnds() -> (r: Vec<Opnd>)
    ensures
        r@ == spec_c_arg_opnds(),
        r@.len() == C_ARG_COUNT,
{
    let mut r: Vec<Opnd> = Vec::new();
    r.push(Opnd::Reg(rdi_reg()));
    r.push(Opnd::Reg(rsi_reg()));
    r.push(Opnd::Reg(rdx_reg()));
    r.push(Opnd::Reg(rcx_reg()));
    r.push(Opnd::Reg(r8_reg()));
    r.push(Opnd::Reg(r9_reg()));
    assert(r@ =~= spec_c_arg_opnds());
    r
}

/// The register that carries the result of a C call.
pub open spec fn spec_c_ret_reg() -> Reg {
    spec_rax_reg()
}

/// The register that carries the result of a C call.
#[verifier::when_used_as_spec(spec_c_ret_reg)]
pub fn c_ret_reg() -> (r: Reg)
    ensures
        r == spec_c_ret_reg(),
{
    rax_reg()
}

/// The register that carries the result of a C call, as an operand.
pub open spec fn spec_c_ret_opnd() -> Opnd {
    Opnd::Reg(spec_rax_reg())
}

/// The register that carries the result of a C call, as an operand.
#[verifier::when_used_as_spec(spec_c_ret_opnd)]
pub fn c_ret_opnd() -> (r: Opnd)
    ensures
        r == spec_c_ret_opnd(),
{
    Opnd::Reg(rax_reg())
}

/// Whether an operand can stand in a machine instruction: no placeholder,
/// no output of an instruction, no memory based on one.
pub open spec fn lowerable(opnd: Opnd) -> bool {
    match opnd {
        Opnd::Absent => false,
        Opnd::InsnOut { .. } => false,
        Opnd::Mem(Mem { base: MemBase::InsnOut(_), .. }) => false,
        _ => true,
    }
}

/// The machine operand for an operand of the instruction list.
pub open spec fn lower(opnd: Opnd) -> X86Opnd {
    match opnd {
        Opnd::UImm(val) => spec_uimm_opnd(val),
        Opnd::Imm(val) => spec_imm_opnd(val),
        Opnd::Value(val) => spec_uimm_opnd(val.0),
        Opnd::Reg(reg) => X86Opnd::Reg(reg),
        Opnd::Mem(Mem { base: MemBase::Reg(reg_no), num_bits, disp }) => X86Opnd::Mem(
            X86Mem { num_bits, base_reg_no: reg_no, idx_reg_no: None, scale_exp: 0, disp },
        ),
        _ => X86Opnd::Absent,
    }
}

impl X86Opnd {
    /// The machine operand for an operand of the instruction list.
    /// Immediates get the smallest width that holds them; a value goes in
    /// as its raw word.
    pub fn from(opnd: Opnd) -> (r: X86Opnd)
        requires
            lowerable(opnd),
        ensures
            r == lower(opnd),
    {
        match opnd {
            Opnd::UImm(val) => uimm_opnd(val),
            Opnd::Imm(val) => imm_opnd(val),
            Opnd::Value(val) => uimm_opnd(val.0),
            Opnd::Reg(reg) => X86Opnd::Reg(reg),
            Opnd::Mem(Mem { base: MemBase::Reg(reg_no), num_bits, disp }) => X86Opnd::Mem(
                X86Mem { num_bits, base_reg_no: reg_no, idx_reg_no: None, scale_exp: 0, disp },
            ),
            _ => X86Opnd::Absent,
        }
    }
}

/// Whether a machine operand has a counterpart in the instruction list:
/// immediates, general purpose registers, and memory operands without
/// index register.
pub open spec fn liftable(opnd: X86Opnd) -> bool {
    match opnd {
        X86Opnd::Reg(reg) => reg.reg_type == RegType::GP,
        X86Opnd::Mem(mem) => mem.idx_reg_no is None && mem.scale_exp == 0,
        X86Opnd::IPRel(_) => false,
        _ => true,
    }
}

/// The operand of the instruction list for a machine operand.
pub open spec fn lift(opnd: X86Opnd) -> Opnd {
    match opnd {
        X86Opnd::Absent => Opnd::Absent,
        X86Opnd::UImm(uimm) => Opnd::UImm(uimm.value),
        X86Opnd::Imm(imm) => Opnd::Imm(imm.value),
        X86Opnd::Reg(reg) => Opnd::Reg(reg),
        X86Opnd::Mem(mem) => Opnd::Mem(
            Mem { base: MemBase::Reg(mem.base_reg_no), disp: mem.disp, num_bits: mem.num_bits },
        ),
        X86Opnd::IPRel(_) => Opnd::Absent,
    }
}

impl Opnd {
    /// The operand of the instruction list for a machine operand.
    pub fn from_x86_opnd(opnd: X86Opnd) -> (r: Opnd)
        requires
            liftable(opnd),
        ensures
            r == lift(opnd),
    {
        match opnd {
            X86Opnd::Absent => Opnd::Absent,
            X86Opnd::UImm(uimm) => Opnd::UImm(uimm.value),
            X86Opnd::Imm(imm) => Opnd::Imm(imm.value),
            X86Opnd::Reg(reg) => Opnd::Reg(reg),
            X86Opnd::Mem(mem) => Opnd::Mem(
                Mem { base: MemBase::Reg(mem.base_reg_no), disp: mem.disp, num_bits: mem.num_bits },
            ),
            X86Opnd::IPRel(_) => Opnd::Absent,
        }
    }
}

/// Lowering a lifted operand gives the operand back, where it is a register
/// or a memory location.
pub proof fn lemma_lower_lift(opnd: X86Opnd)
    requires
        liftable(opnd),
        opnd is Reg || opnd is Mem,
    ensures
        lowerable(lift(opnd)),
        lower(lift(opnd)) == opnd,
{
}

/// The registers that the allocator hands out, in order of preference.
pub open spec fn spec_alloc_regs() -> Seq<Reg> {
    seq![spec_rax_reg(), spec_rcx_reg(), spec_rdx_reg()]
}

/// The registers that a C call may overwrite, in the order in which they
/// are saved.
pub open spec fn spec_caller_save_regs() -> Seq<Reg> {
    seq![
        spec_rax_reg(),
        spec_rcx_reg(),
        spec_rdx_reg(),
        spec_rsi_reg(),
        spec_rdi_reg(),
        spec_r8_reg(),
        spec_r9_reg(),
        spec_r10_reg(),
        spec_r11_reg(),
    ]
}

impl Assembler {
    /// The registers from which the allocator can pick on this platform.
    pub fn get_alloc_regs() -> (regs: Vec<Reg>)
        ensures
            regs@ == spec_alloc_regs(),
    {
        let mut regs: Vec<Reg> = Vec::new();
        regs.push(rax_reg());
        regs.push(rcx_reg());
        regs.push(rdx_reg());
        assert(regs@ =~= spec_alloc_regs());
        regs
    }

    /// All caller-save registers.
    pub fn get_caller_save_regs() -> (regs: Vec<Reg>)
        ensures
            regs@ == spec_caller_save_regs(),
    {
        let mut regs: Vec<Reg> = Vec::new();
        regs.push(rax_reg());
        regs.push(rcx_reg());
        regs.push(rdx_reg());
        regs.push(rsi_reg());
        regs.push(rdi_reg());
        regs.push(r8_reg());
        regs.push(r9_reg());
        regs.push(r10_reg());
        regs.push(r11_reg());
        assert(regs@ =~= spec_caller_save_regs());
        regs
    }
}

} // verus!
