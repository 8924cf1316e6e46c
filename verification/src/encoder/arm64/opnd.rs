//! Registers, memory locations and immediates of ARM64 instructions.

use vstd::prelude::*;

verus! {

/// A register.
#[derive(Clone, Copy, Debug, Eq, PartialEq, Structural)]
pub struct A64Reg {
    /// Size in bits.
    pub num_bits: u8,
    /// Register index number.
    pub reg_no: u8,
}

/// A memory location: base register plus displacement.
#[derive(Clone, Copy, Debug, Eq, PartialEq, Structural)]
pub struct A64Mem {
    /// Size in bits.
    pub num_bits: u8,
    /// Base register number.
    pub base_reg_no: u8,
    /// Constant displacement from the base, not scaled.
    pub disp: i32,
}

/// An operand of a machine instruction.
#[derive(Clone, Copy, Debug, Eq, PartialEq, Structural)]
pub enum A64Opnd {
    /// No operand in this position.
    Absent,
    /// Signed immediate.
    Imm(i64),
    /// Unsigned immediate.
    UImm(u64),
    /// Register.
    Reg(A64Reg),
    /// Memory.
    Mem(A64Mem),
}

impl A64Mem {
    /// The memory location at `disp` from the register `reg`, as wide as the
    /// register.
    pub fn new(reg: A64Opnd, disp: i32) -> (mem: A64Mem)
        requires
            reg is Reg,
        ensures
            mem == (A64Mem { num_bits: reg->Reg_0.num_bits, base_reg_no: reg->Reg_0.reg_no, disp }),
    {
        match reg {
            A64Opnd::Reg(reg) => A64Mem { num_bits: reg.num_bits, base_reg_no: reg.reg_no, disp },
            _ => A64Mem { num_bits: 0, base_reg_no: 0, disp },
        }
    }
}

impl A64Opnd {
    /// A signed immediate operand.
    pub fn new_imm(value: i64) -> (opnd: A64Opnd)
        ensures
            opnd == A64Opnd::Imm(value),
    {
        A64Opnd::Imm(value)
    }

    /// An unsigned immediate operand.
    pub fn new_uimm(value: u64) -> (opnd: A64Opnd)
        ensures
            opnd == A64Opnd::UImm(value),
    {
        A64Opnd::UImm(value)
    }

    /// A memory operand at `disp` from the register `reg`.
    pub fn new_mem(reg: A64Opnd, disp: i32) -> (opnd: A64Opnd)
        requires
            reg is Reg,
        ensures
            opnd == A64Opnd::Mem(
                A64Mem { num_bits: reg->Reg_0.num_bits, base_reg_no: reg->Reg_0.reg_no, disp },
            ),
    {
        A64Opnd::Mem(A64Mem::new(reg, disp))
    }

    /// Whether the operand is a register.
    pub fn is_reg(&self) -> (b: bool)
        ensures
            b == (*self is Reg),
    {
        match *self {
            A64Opnd::Reg(_) => true,
            _ => false,
        }
    }
}

/// Number of general purpose registers that have a name of their own.
pub const NUM_NAMED_REGS: u8 = 31;

/// The 64-bit register `x<reg_no>`.
pub open spec fn spec_x_reg(reg_no: u8) -> A64Reg {
    A64Reg { num_bits: 64, reg_no }
}

/// The 64-bit register `x<reg_no>`.
#[verifier::when_used_as_spec(spec_x_reg)]
pub fn x_reg(reg_no: u8) -> (reg: A64Reg)
    requires
        reg_no < NUM_NAMED_REGS,
    ensures
        reg == spec_x_reg(reg_no),
{
    A64Reg { num_bits: 64, reg_no }
}

/// The 32-bit register `w<reg_no>`.
pub open spec fn spec_w_reg(reg_no: u8) -> A64Reg {
    A64Reg { num_bits: 32, reg_no }
}

/// The 32-bit register `w<reg_no>`.
#[verifier::when_used_as_spec(spec_w_reg)]
pub fn w_reg(reg_no: u8) -> (reg: A64Reg)
    requires
        reg_no < NUM_NAMED_REGS,
    ensures
        reg == spec_w_reg(reg_no),
{
    A64Reg { num_bits: 32, reg_no }
}

/// The 64-bit register `x<reg_no>` as an operand.
pub fn x_opnd(reg_no: u8) -> (opnd: A64Opnd)
    requires
        reg_no < NUM_NAMED_REGS,
    ensures
        opnd == A64Opnd::Reg(spec_x_reg(reg_no)),
{
    A64Opnd::Reg(x_reg(reg_no))
}

/// The registers that carry the first arguments of a C call: `x0` to `x3`.
pub fn c_arg_regs() -> (regs: Vec<A64Opnd>)
    ensures
        regs@ == seq![
            A64Opnd::Reg(spec_x_reg(0)),
            A64Opnd::Reg(spec_x_reg(1)),
            A64Opnd::Reg(spec_x_reg(2)),
            A64Opnd::Reg(spec_x_reg(3)),
        ],
{
    let mut regs: Vec<A64Opnd> = Vec::new();
    regs.push(x_opnd(0));
    regs.push(x_opnd(1));
    regs.push(x_opnd(2));
    regs.push(x_opnd(3));
    assert(regs@ =~= seq![
        A64Opnd::Reg(spec_x_reg(0)),
        A64Opnd::Reg(spec_x_reg(1)),
        A64Opnd::Reg(spec_x_reg(2)),
        A64Opnd::Reg(spec_x_reg(3)),
    ]);
    regs
}

} // verus!
