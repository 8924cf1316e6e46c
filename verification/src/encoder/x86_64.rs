//! x86-64 operands and instruction encodings.

use vstd::prelude::*;
use crate::encoder::{
    bytes1, bytes2, bytes3, CodePtr, concat, imm_num_bits, int_bytes, le_bytes, lemma_le_bytes_len,
    rel32_bytes, spec_imm_num_bits, spec_uimm_num_bits, uimm_num_bits,
};

verus! {

/// Register file a register belongs to.
#[derive(Clone, Copy, Debug, PartialEq, Eq, Structural)]
pub enum RegType {
    /// General purpose.
    GP,
    /// The instruction pointer.
    IP,
}

/// A signed immediate with the width it needs.
#[derive(Clone, Copy, Debug, PartialEq, Eq, Structural)]
pub struct X86Imm {
    pub num_bits: u8,
    pub value: i64,
}

/// An unsigned immediate with the width it needs.
#[derive(Clone, Copy, Debug, PartialEq, Eq, Structural)]
pub struct X86UImm {
    pub num_bits: u8,
    pub value: u64,
}

/// A register, or a narrower view of one.
#[derive(Clone, Copy, Debug, PartialEq, Eq, Structural)]
pub struct X86Reg {
    pub num_bits: u8,
    pub reg_type: RegType,
    pub reg_no: u8,
}

/// A memory location: base, optional scaled index, displacement.
#[derive(Clone, Copy, Debug, PartialEq, Eq, Structural)]
pub struct X86Mem {
    pub num_bits: u8,
    pub base_reg_no: u8,
    pub idx_reg_no: Option<u8>,
    pub scale_exp: u8,
    pub disp: i32,
}

/// An operand of a machine instruction.
#[derive(Clone, Copy, Debug, PartialEq, Eq, Structural)]
pub enum X86Opnd {
    /// No operand in this position.
    Absent,
    Imm(X86Imm),
    UImm(X86UImm),
    Reg(X86Reg),
    Mem(X86Mem),
    IPRel(i32),
}

/// Widths a register or memory operand can have.
pub open spec fn valid_width(num_bits: u8) -> bool {
    num_bits == 8 || num_bits == 16 || num_bits == 32 || num_bits == 64
}

impl X86Reg {
    /// The same register seen at `num_bits` bits.
    pub open spec fn spec_sub_reg(self, num_bits: u8) -> X86Reg {
        X86Reg { num_bits, reg_type: self.reg_type, reg_no: self.reg_no }
    }

    /// Narrow a register to one of its sub-registers.
    pub fn sub_reg(&self, num_bits: u8) -> (r: X86Reg)
        requires
            valid_width(num_bits),
            num_bits <= self.num_bits,
        ensures
            r == self.spec_sub_reg(num_bits),
    {
        X86Reg { num_bits, reg_type: self.reg_type, reg_no: self.reg_no }
    }
}

// The numbers of the general purpose registers.
pub const RAX_REG_NO: u8 = 0;
pub const RCX_REG_NO: u8 = 1;
pub const RDX_REG_NO: u8 = 2;
pub const RBX_REG_NO: u8 = 3;
pub const RSP_REG_NO: u8 = 4;
pub const RBP_REG_NO: u8 = 5;
pub const RSI_REG_NO: u8 = 6;
pub const RDI_REG_NO: u8 = 7;
pub const R8_REG_NO: u8 = 8;
pub const R9_REG_NO: u8 = 9;
pub const R10_REG_NO: u8 = 10;
pub const R11_REG_NO: u8 = 11;
pub const R12_REG_NO: u8 = 12;
pub const R13_REG_NO: u8 = 13;
pub const R14_REG_NO: u8 = 14;
pub const R15_REG_NO: u8 = 15;

/// The 64-bit general purpose register with the given number.
pub open spec fn spec_gp_reg(reg_no: u8) -> X86Reg {
    X86Reg { num_bits: 64, reg_type: RegType::GP, reg_no }
}

/// The 64-bit general purpose register with the given number.
#[verifier::when_used_as_spec(spec_gp_reg)]
pub fn gp_reg(reg_no: u8) -> (r: X86Reg)
    ensures
        r == spec_gp_reg(reg_no),
{
    X86Reg { num_bits: 64, reg_type: RegType::GP, reg_no }
}

/// The register `rax`.
pub open spec fn spec_rax_reg() -> X86Reg {
    spec_gp_reg(RAX_REG_NO)
}

/// The register `rax`.
#[verifier::when_used_as_spec(spec_rax_reg)]
pub fn rax_reg() -> (r: X86Reg)
    ensures
        r == spec_rax_reg(),
{
    gp_reg(RAX_REG_NO)
}

/// The register `rcx`.
pub open spec fn spec_rcx_reg() -> X86Reg {
    spec_gp_reg(RCX_REG_NO)
}

/// The register `rcx`.
#[verifier::when_used_as_spec(spec_rcx_reg)]
pub fn rcx_reg() -> (r: X86Reg)
    ensures
        r == spec_rcx_reg(),
{
    gp_reg(RCX_REG_NO)
}

/// The register `rdx`.
pub open spec fn spec_rdx_reg() -> X86Reg {
    spec_gp_reg(RDX_REG_NO)
}

/// The register `rdx`.
#[verifier::when_used_as_spec(spec_rdx_reg)]
pub fn rdx_reg() -> (r: X86Reg)
    ensures
        r == spec_rdx_reg(),
{
    gp_reg(RDX_REG_NO)
}

/// The register `rbx`.
pub open spec fn spec_rbx_reg() -> X86Reg {
    spec_gp_reg(RBX_REG_NO)
}

/// The register `rbx`.
#[verifier::when_used_as_spec(spec_rbx_reg)]
pub fn rbx_reg() -> (r: X86Reg)
    ensures
        r == spec_rbx_reg(),
{
    gp_reg(RBX_REG_NO)
}

/// The register `rsp`.
pub open spec fn spec_rsp_reg() -> X86Reg {
    spec_gp_reg(RSP_REG_NO)
}

/// The register `rsp`.
#[verifier::when_used_as_spec(spec_rsp_reg)]
pub fn rsp_reg() -> (r: X86Reg)
    ensures
        r == spec_rsp_reg(),
{
    gp_reg(RSP_REG_NO)
}

/// The register `rbp`.
pub open spec fn spec_rbp_reg() -> X86Reg {
    spec_gp_reg(RBP_REG_NO)
}

/// The register `rbp`.
#[verifier::when_used_as_spec(spec_rbp_reg)]
pub fn rbp_reg() -> (r: X86Reg)
    ensures
        r == spec_rbp_reg(),
{
    gp_reg(RBP_REG_NO)
}

/// The register `rsi`.
pub open spec fn spec_rsi_reg() -> X86Reg {
    spec_gp_reg(RSI_REG_NO)
}

/// The register `rsi`.
#[verifier::when_used_as_spec(spec_rsi_reg)]
pub fn rsi_reg() -> (r: X86Reg)
    ensures
        r == spec_rsi_reg(),
{
    gp_reg(RSI_REG_NO)
}

/// The register `rdi`.
pub open spec fn spec_rdi_reg() -> X86Reg {
    spec_gp_reg(RDI_REG_NO)
}

/// The register `rdi`.
#[verifier::when_used_as_spec(spec_rdi_reg)]
pub fn rdi_reg() -> (r: X86Reg)
    ensures
        r == spec_rdi_reg(),
{
    gp_reg(RDI_REG_NO)
}

/// The register `r8`.
pub open spec fn spec_r8_reg() -> X86Reg {
    spec_gp_reg(R8_REG_NO)
}

/// The register `r8`.
#[verifier::when_used_as_spec(spec_r8_reg)]
pub fn r8_reg() -> (r: X86Reg)
    ensures
        r == spec_r8_reg(),
{
    gp_reg(R8_REG_NO)
}

/// The register `r9`.
pub open spec fn spec_r9_reg() -> X86Reg {
    spec_gp_reg(R9_REG_NO)
}

/// The register `r9`.
#[verifier::when_used_as_spec(spec_r9_reg)]
pub fn r9_reg() -> (r: X86Reg)
    ensures
        r == spec_r9_reg(),
{
    gp_reg(R9_REG_NO)
}

/// The register `r10`.
pub open spec fn spec_r10_reg() -> X86Reg {
    spec_gp_reg(R10_REG_NO)
}

/// The register `r10`.
#[verifier::when_used_as_spec(spec_r10_reg)]
pub fn r10_reg() -> (r: X86Reg)
    ensures
        r == spec_r10_reg(),
{
    gp_reg(R10_REG_NO)
}

/// The register `r11`.
pub open spec fn spec_r11_reg() -> X86Reg {
    spec_gp_reg(R11_REG_NO)
}

/// The register `r11`.
#[verifier::when_used_as_spec(spec_r11_reg)]
pub fn r11_reg() -> (r: X86Reg)
    ensures
        r == spec_r11_reg(),
{
    gp_reg(R11_REG_NO)
}

/// The register `r12`.
pub open spec fn spec_r12_reg() -> X86Reg {
    spec_gp_reg(R12_REG_NO)
}

/// The register `r12`.
#[verifier::when_used_as_spec(spec_r12_reg)]
pub fn r12_reg() -> (r: X86Reg)
    ensures
        r == spec_r12_reg(),
{
    gp_reg(R12_REG_NO)
}

/// The register `r13`.
pub open spec fn spec_r13_reg() -> X86Reg {
    spec_gp_reg(R13_REG_NO)
}

/// The register `r13`.
#[verifier::when_used_as_spec(spec_r13_reg)]
pub fn r13_reg() -> (r: X86Reg)
    ensures
        r == spec_r13_reg(),
{
    gp_reg(R13_REG_NO)
}

/// The register `r14`.
pub open spec fn spec_r14_reg() -> X86Reg {
    spec_gp_reg(R14_REG_NO)
}

/// The register `r14`.
#[verifier::when_used_as_spec(spec_r14_reg)]
pub fn r14_reg() -> (r: X86Reg)
    ensures
        r == spec_r14_reg(),
{
    gp_reg(R14_REG_NO)
}

/// The register `r15`.
pub open spec fn spec_r15_reg() -> X86Reg {
    spec_gp_reg(R15_REG_NO)
}

/// The register `r15`.
#[verifier::when_used_as_spec(spec_r15_reg)]
pub fn r15_reg() -> (r: X86Reg)
    ensures
        r == spec_r15_reg(),
{
    gp_reg(R15_REG_NO)
}

impl X86Opnd {
    /// Whether encoding the operand takes a REX prefix.
    pub open spec fn spec_rex_needed(self) -> bool {
        match self {
            X86Opnd::Reg(reg) => reg.reg_no > 7 || (reg.num_bits == 8 && reg.reg_no >= 4),
            X86Opnd::Mem(mem) => mem.base_reg_no > 7 || (mem.idx_reg_no matches Some(idx) && idx > 7),
            _ => false,
        }
    }

    /// Whether encoding the operand takes a SIB byte.
    pub open spec fn spec_sib_needed(self) -> bool {
        match self {
            X86Opnd::Mem(mem) => mem.idx_reg_no is Some || mem.base_reg_no == RSP_REG_NO || mem.base_reg_no
                == R12_REG_NO,
            _ => false,
        }
    }

    /// Number of bits of displacement that encoding the operand takes: 0, 8
    /// or 32.
    pub open spec fn spec_disp_size(self) -> u8 {
        match self {
            X86Opnd::IPRel(_) => 32,
            X86Opnd::Mem(mem) => if mem.disp != 0 {
                if spec_imm_num_bits(mem.disp as i64) == 8 {
                    8
                } else {
                    32
                }
            } else if mem.base_reg_no == RBP_REG_NO || mem.base_reg_no == R13_REG_NO {
                8
            } else {
                0
            },
            _ => 0,
        }
    }

    /// Width of the operand in bits; 0 where it has none.
    pub open spec fn spec_num_bits(self) -> u8 {
        match self {
            X86Opnd::Reg(reg) => reg.num_bits,
            X86Opnd::Imm(imm) => imm.num_bits,
            X86Opnd::UImm(uimm) => uimm.num_bits,
            X86Opnd::Mem(mem) => mem.num_bits,
            _ => 0,
        }
    }

    /// Whether the operand is a register or a memory location.
    pub open spec fn is_rm(self) -> bool {
        self is Reg || self is Mem
    }

    /// Whether encoding the operand takes a REX prefix.
    pub fn rex_needed(&self) -> (b: bool)
        ensures
            b == self.spec_rex_needed(),
    {
        match *self {
            X86Opnd::Reg(reg) => reg.reg_no > 7 || (reg.num_bits == 8 && reg.reg_no >= 4),
            X86Opnd::Mem(mem) => mem.base_reg_no > 7 || match mem.idx_reg_no {
                Some(idx) => idx > 7,
                None => false,
            },
            _ => false,
        }
    }

    /// Whether encoding the operand takes a SIB byte.
    pub fn sib_needed(&self) -> (b: bool)
        ensures
            b == self.spec_sib_needed(),
    {
        match *self {
            X86Opnd::Mem(mem) => mem.idx_reg_no.is_some() || mem.base_reg_no == RSP_REG_NO || mem.base_reg_no
                == R12_REG_NO,
            _ => false,
        }
    }

    /// Number of bits of displacement that encoding the operand takes.
    pub fn disp_size(&self) -> (n: u8)
        ensures
            n == self.spec_disp_size(),
            n == 0 || n == 8 || n == 32,
    {
        match *self {
            X86Opnd::IPRel(_) => 32,
            X86Opnd::Mem(mem) => if mem.disp != 0 {
                if imm_num_bits(mem.disp as i64) == 8 {
                    8
                } else {
                    32
                }
            } else if mem.base_reg_no == RBP_REG_NO || mem.base_reg_no == R13_REG_NO {
                8
            } else {
                0
            },
            _ => 0,
        }
    }

    /// Width in bits of a register, memory or immediate operand.
    pub fn num_bits(&self) -> (n: u8)
        requires
            *self is Reg || *self is Mem || *self is Imm || *self is UImm,
        ensures
            n == self.spec_num_bits(),
    {
        match *self {
            X86Opnd::Reg(reg) => reg.num_bits,
            X86Opnd::Imm(imm) => imm.num_bits,
            X86Opnd::UImm(uimm) => uimm.num_bits,
            X86Opnd::Mem(mem) => mem.num_bits,
            _ => 0,
        }
    }
}

/// The memory operand of `num_bits` bits at `disp` from `base_reg`; relative
/// to the instruction pointer where that is the base.
pub open spec fn spec_mem_opnd(num_bits: u8, base_reg: X86Reg, disp: i32) -> X86Opnd {
    if base_reg.reg_type == RegType::IP {
        X86Opnd::IPRel(disp)
    } else {
        X86Opnd::Mem(
            X86Mem { num_bits, base_reg_no: base_reg.reg_no, idx_reg_no: None, scale_exp: 0, disp },
        )
    }
}

/// A memory operand from a base register and a displacement.
pub fn mem_opnd(num_bits: u8, base_reg: X86Opnd, disp: i32) -> (r: X86Opnd)
    requires
        base_reg is Reg,
    ensures
        r == spec_mem_opnd(num_bits, base_reg->Reg_0, disp),
{
    match base_reg {
        X86Opnd::Reg(reg) => {
            if reg.reg_type == RegType::IP {
                X86Opnd::IPRel(disp)
            } else {
                X86Opnd::Mem(
                    X86Mem { num_bits, base_reg_no: reg.reg_no, idx_reg_no: None, scale_exp: 0, disp },
                )
            }
        },
        _ => X86Opnd::Absent,
    }
}

/// The signed immediate operand for `value`, as narrow as it fits.
pub open spec fn spec_imm_opnd(value: i64) -> X86Opnd {
    X86Opnd::Imm(X86Imm { num_bits: spec_imm_num_bits(value), value })
}

/// The unsigned immediate operand for `value`, as narrow as it fits.
pub open spec fn spec_uimm_opnd(value: u64) -> X86Opnd {
    X86Opnd::UImm(X86UImm { num_bits: spec_uimm_num_bits(value), value })
}

/// A signed immediate operand.
pub fn imm_opnd(value: i64) -> (r: X86Opnd)
    ensures
        r == spec_imm_opnd(value),
{
    X86Opnd::Imm(X86Imm { num_bits: imm_num_bits(value), value })
}

/// An unsigned immediate operand.
pub fn uimm_opnd(value: u64) -> (r: X86Opnd)
    ensures
        r == spec_uimm_opnd(value),
{
    X86Opnd::UImm(X86UImm { num_bits: uimm_num_bits(value), value })
}

/// An address as an unsigned immediate operand.
pub fn const_ptr_opnd(ptr: u64) -> (r: X86Opnd)
    ensures
        r == spec_uimm_opnd(ptr),
{
    uimm_opnd(ptr)
}

/// `b` if `cond` holds, else nothing.
pub open spec fn opt_byte(cond: bool, b: u8) -> Seq<u8> {
    if cond {
        seq![b]
    } else {
        Seq::empty()
    }
}

fn write_opt_byte(cond: bool, b: u8) -> (out: Vec<u8>)
    ensures
        out@ == opt_byte(cond, b),
{
    if cond {
        bytes1(b)
    } else {
        Vec::new()
    }
}

/// Bit 3 of a register number, which goes into the REX prefix.
pub open spec fn reg_hi(reg_no: u8) -> u8 {
    (reg_no / 8) % 2
}

/// The low three bits of a register number.
pub open spec fn reg_lo(reg_no: u8) -> u8 {
    reg_no % 8
}

/// The REX prefix `0100wrxb`.
pub open spec fn rex_byte(w: bool, reg_no: u8, idx_reg_no: u8, rm_reg_no: u8) -> u8 {
    (0x40 + (if w {
        8int
    } else {
        0int
    }) + 4 * reg_hi(reg_no) + 2 * reg_hi(idx_reg_no) + reg_hi(rm_reg_no)) as u8
}

fn write_rex(w: bool, reg_no: u8, idx_reg_no: u8, rm_reg_no: u8) -> (b: u8)
    ensures
        b == rex_byte(w, reg_no, idx_reg_no, rm_reg_no),
{
    let wv: u8 = if w {
        8
    } else {
        0
    };
    0x40 + wv + 4 * ((reg_no / 8) % 2) + 2 * ((idx_reg_no / 8) % 2) + (rm_reg_no / 8) % 2
}

/// An opcode byte that holds a register in its low three bits.
pub open spec fn opcode_reg_byte(opcode: u8, reg: X86Reg) -> u8 {
    (opcode + reg_lo(reg.reg_no)) as u8
}

fn write_opcode(opcode: u8, reg: X86Reg) -> (b: u8)
    requires
        opcode % 8 == 0,
    ensures
        b == opcode_reg_byte(opcode, reg),
{
    opcode + reg.reg_no % 8
}

/// Whether `write_rm` can encode the pair: a register or nothing in the
/// register field, a register, memory or instruction-pointer-relative
/// operand in the r/m field, and an opcode extension only without a register.
pub open spec fn rm_ok(r_opnd: X86Opnd, rm_opnd: X86Opnd, op_ext: Option<u8>) -> bool {
    &&& r_opnd is Reg || r_opnd is Absent
    &&& rm_opnd is Reg || rm_opnd is Mem || rm_opnd is IPRel
    &&& op_ext matches Some(ext) ==> ext < 8 && r_opnd is Absent
}

/// The register number that the REX.R bit extends.
pub open spec fn rex_r_no(r_opnd: X86Opnd) -> u8 {
    match r_opnd {
        X86Opnd::Reg(reg) => reg.reg_no,
        _ => 0,
    }
}

/// The register number that the REX.X bit extends.
pub open spec fn rex_x_no(rm_opnd: X86Opnd) -> u8 {
    match rm_opnd {
        X86Opnd::Mem(mem) => match mem.idx_reg_no {
            Some(idx) => idx,
            None => 0,
        },
        _ => 0,
    }
}

/// The register number that the REX.B bit extends.
pub open spec fn rex_b_no(rm_opnd: X86Opnd) -> u8 {
    match rm_opnd {
        X86Opnd::Reg(reg) => reg.reg_no,
        X86Opnd::Mem(mem) => mem.base_reg_no,
        _ => 0,
    }
}

/// The ModR/M byte.
pub open spec fn modrm_byte(r_opnd: X86Opnd, rm_opnd: X86Opnd, op_ext: Option<u8>) -> u8 {
    let md: int = match rm_opnd {
        X86Opnd::Reg(_) => 3,
        X86Opnd::Mem(_) => if rm_opnd.spec_disp_size() == 0 {
            0
        } else if rm_opnd.spec_disp_size() == 8 {
            1
        } else {
            2
        },
        _ => 0,
    };
    let reg: int = match op_ext {
        Some(ext) => ext as int,
        None => reg_lo(rex_r_no(r_opnd)) as int,
    };
    let rm: int = match rm_opnd {
        X86Opnd::Reg(reg) => reg_lo(reg.reg_no) as int,
        X86Opnd::Mem(mem) => if rm_opnd.spec_sib_needed() {
            4
        } else {
            reg_lo(mem.base_reg_no) as int
        },
        _ => 5,
    };
    (64 * md + 8 * reg + rm) as u8
}

/// The SIB byte of a memory operand.
pub open spec fn sib_byte(mem: X86Mem) -> u8 {
    let index: int = match mem.idx_reg_no {
        Some(idx) => reg_lo(idx) as int,
        None => 4,
    };
    (64 * (mem.scale_exp % 4) + 8 * index + reg_lo(mem.base_reg_no)) as u8
}

/// The SIB byte, where the operand takes one.
pub open spec fn sib_bytes(rm_opnd: X86Opnd) -> Seq<u8> {
    match rm_opnd {
        X86Opnd::Mem(mem) => opt_byte(rm_opnd.spec_sib_needed(), sib_byte(mem)),
        _ => Seq::empty(),
    }
}

/// The displacement bytes of an operand.
pub open spec fn disp_bytes(rm_opnd: X86Opnd) -> Seq<u8> {
    match rm_opnd {
        X86Opnd::Mem(mem) => le_bytes((mem.disp as i64) as u64, (rm_opnd.spec_disp_size() / 8) as nat),
        X86Opnd::IPRel(rel) => le_bytes((rel as i64) as u64, 4),
        _ => Seq::empty(),
    }
}

/// The encoding of an instruction with a ModR/M byte: operand-size prefix,
/// REX prefix, opcode, ModR/M, SIB and displacement.
pub open spec fn rm_bytes(
    sz_pref: bool,
    rex_w: bool,
    r_opnd: X86Opnd,
    rm_opnd: X86Opnd,
    op_ext: Option<u8>,
    opcode: Seq<u8>,
) -> Seq<u8> {
    opt_byte(sz_pref, 0x66) + opt_byte(
        rex_w || r_opnd.spec_rex_needed() || rm_opnd.spec_rex_needed(),
        rex_byte(rex_w, rex_r_no(r_opnd), rex_x_no(rm_opnd), rex_b_no(rm_opnd)),
    ) + opcode + seq![modrm_byte(r_opnd, rm_opnd, op_ext)] + sib_bytes(rm_opnd) + disp_bytes(rm_opnd)
}

fn write_modrm(r_opnd: X86Opnd, rm_opnd: X86Opnd, op_ext: Option<u8>) -> (b: u8)
    requires
        rm_ok(r_opnd, rm_opnd, op_ext),
    ensures
        b == modrm_byte(r_opnd, rm_opnd, op_ext),
{
    let md: u8 = match rm_opnd {
        X86Opnd::Reg(_) => 3,
        X86Opnd::Mem(_) => {
            let d = rm_opnd.disp_size();
            if d == 0 {
                0
            } else if d == 8 {
                1
            } else {
                2
            }
        },
        _ => 0,
    };
    let reg: u8 = match op_ext {
        Some(ext) => ext,
        None => match r_opnd {
            X86Opnd::Reg(reg) => reg.reg_no % 8,
            _ => 0,
        },
    };
    let rm: u8 = match rm_opnd {
        X86Opnd::Reg(reg) => reg.reg_no % 8,
        X86Opnd::Mem(mem) => if rm_opnd.sib_needed() {
            4
        } else {
            mem.base_reg_no % 8
        },
        _ => 5,
    };
    64 * md + 8 * reg + rm
}

fn write_sib(rm_opnd: X86Opnd) -> (out: Vec<u8>)
    ensures
        out@ == sib_bytes(rm_opnd),
{
    match rm_opnd {
        X86Opnd::Mem(mem) => {
            let index: u8 = match mem.idx_reg_no {
                Some(idx) => idx % 8,
                None => 4,
            };
            write_opt_byte(rm_opnd.sib_needed(), 64 * (mem.scale_exp % 4) + 8 * index + mem.base_reg_no % 8)
        },
        _ => Vec::new(),
    }
}

fn write_disp(rm_opnd: X86Opnd) -> (out: Vec<u8>)
    ensures
        out@ == disp_bytes(rm_opnd),
{
    match rm_opnd {
        X86Opnd::Mem(mem) => {
            let n: usize = (rm_opnd.disp_size() / 8) as usize;
            int_bytes((mem.disp as i64) as u64, n)
        },
        X86Opnd::IPRel(rel) => int_bytes((rel as i64) as u64, 4),
        _ => Vec::new(),
    }
}

fn write_rm(
    sz_pref: bool,
    rex_w: bool,
    r_opnd: X86Opnd,
    rm_opnd: X86Opnd,
    op_ext: Option<u8>,
    opcode: Vec<u8>,
) -> (out: Vec<u8>)
    requires
        rm_ok(r_opnd, rm_opnd, op_ext),
    ensures
        out@ == rm_bytes(sz_pref, rex_w, r_opnd, rm_opnd, op_ext, opcode@),
{
    let need_rex = rex_w || r_opnd.rex_needed() || rm_opnd.rex_needed();
    let r_no: u8 = match r_opnd {
        X86Opnd::Reg(reg) => reg.reg_no,
        _ => 0,
    };
    let x_no: u8 = match rm_opnd {
        X86Opnd::Mem(mem) => match mem.idx_reg_no {
            Some(idx) => idx,
            None => 0,
        },
        _ => 0,
    };
    let b_no: u8 = match rm_opnd {
        X86Opnd::Reg(reg) => reg.reg_no,
        X86Opnd::Mem(mem) => mem.base_reg_no,
        _ => 0,
    };
    let out = write_opt_byte(sz_pref, 0x66);
    let out = concat(out, write_opt_byte(need_rex, write_rex(rex_w, r_no, x_no, b_no)));
    let out = concat(out, opcode);
    let out = concat(out, bytes1(write_modrm(r_opnd, rm_opnd, op_ext)));
    let out = concat(out, write_sib(rm_opnd));
    concat(out, write_disp(rm_opnd))
}

/// The opcodes of an instruction that comes in the usual forms: r/m with
/// register, register with r/m, r/m with immediate.
#[derive(Clone, Copy)]
pub struct MultiOpcodes {
    pub mem_reg8: u8,
    pub mem_reg_pref: u8,
    pub reg_mem8: u8,
    pub reg_mem_pref: u8,
    pub mem_imm8: u8,
    pub mem_imm_sml: u8,
    pub mem_imm_lrg: u8,
    pub ext_imm: Option<u8>,
}

/// Number of bits that an unsigned immediate takes next to a destination of
/// `opnd_size` bits: its own width where that is the destination's, else its
/// width as a signed value.
pub open spec fn uimm_encoded_bits(opnd_size: u8, uimm: X86UImm) -> u8 {
    if opnd_size == spec_uimm_num_bits(uimm.value) {
        opnd_size
    } else {
        spec_imm_num_bits(uimm.value as i64)
    }
}

/// Number of immediate bytes of the wide immediate form: four, or fewer for
/// a narrower destination.
pub open spec fn imm_lrg_bytes(opnd_size: u8) -> nat {
    if opnd_size > 32 {
        4
    } else {
        (opnd_size / 8) as nat
    }
}

/// Whether the operands fit one of the forms of `write_rm_multi`.
pub open spec fn rm_multi_ok(ops: MultiOpcodes, opnd0: X86Opnd, opnd1: X86Opnd) -> bool {
    &&& opnd0.is_rm()
    &&& valid_width(opnd0.spec_num_bits())
    &&& ops.ext_imm matches Some(ext) ==> ext < 8
    &&& match opnd1 {
        X86Opnd::Reg(reg) => reg.num_bits == opnd0.spec_num_bits(),
        X86Opnd::Mem(mem) => opnd0 is Reg && mem.num_bits == opnd0.spec_num_bits(),
        X86Opnd::IPRel(_) => opnd0 is Reg,
        X86Opnd::Imm(imm) => imm.num_bits <= opnd0.spec_num_bits() && imm.num_bits <= 32,
        X86Opnd::UImm(uimm) => {
            &&& uimm.num_bits <= opnd0.spec_num_bits()
            &&& opnd0.spec_num_bits() != spec_uimm_num_bits(uimm.value) ==> uimm.value <= 0x7fff_ffff_ffff_ffff
            &&& uimm_encoded_bits(opnd0.spec_num_bits(), uimm) <= 32
            &&& uimm_encoded_bits(opnd0.spec_num_bits(), uimm) > 8 ==> uimm_encoded_bits(
                opnd0.spec_num_bits(),
                uimm,
            ) <= opnd0.spec_num_bits()
        },
        X86Opnd::Absent => false,
    }
}

/// The r/m-with-immediate form: `imm_bits` says how wide the immediate
/// counts, `value` holds its bits.
pub open spec fn rm_imm_bytes(ops: MultiOpcodes, opnd0: X86Opnd, imm_bits: u8, value: u64) -> Seq<u8> {
    let size = opnd0.spec_num_bits();
    if imm_bits <= 8 {
        if size == 8 {
            rm_bytes(false, false, X86Opnd::Absent, opnd0, ops.ext_imm, seq![ops.mem_imm8]) + le_bytes(value, 1)
        } else {
            rm_bytes(size == 16, size == 64, X86Opnd::Absent, opnd0, ops.ext_imm, seq![ops.mem_imm_sml])
                + le_bytes(value, 1)
        }
    } else {
        rm_bytes(size == 16, size == 64, X86Opnd::Absent, opnd0, ops.ext_imm, seq![ops.mem_imm_lrg])
            + le_bytes(value, imm_lrg_bytes(size))
    }
}

/// The encoding of a two-operand instruction in the form that its operands
/// call for.
pub open spec fn rm_multi_bytes(ops: MultiOpcodes, opnd0: X86Opnd, opnd1: X86Opnd) -> Seq<u8> {
    let size = opnd0.spec_num_bits();
    match opnd1 {
        X86Opnd::Reg(_) => if size == 8 {
            rm_bytes(false, false, opnd1, opnd0, None, seq![ops.mem_reg8])
        } else {
            rm_bytes(size == 16, size == 64, opnd1, opnd0, None, seq![ops.mem_reg_pref])
        },
        X86Opnd::Mem(_) | X86Opnd::IPRel(_) => if size == 8 {
            rm_bytes(false, false, opnd0, opnd1, None, seq![ops.reg_mem8])
        } else {
            rm_bytes(size == 16, size == 64, opnd0, opnd1, None, seq![ops.reg_mem_pref])
        },
        X86Opnd::Imm(imm) => rm_imm_bytes(ops, opnd0, imm.num_bits, imm.value as u64),
        X86Opnd::UImm(uimm) => rm_imm_bytes(ops, opnd0, uimm_encoded_bits(size, uimm), uimm.value),
        X86Opnd::Absent => Seq::empty(),
    }
}

fn write_rm_imm(ops: MultiOpcodes, opnd0: X86Opnd, imm_bits: u8, value: u64) -> (out: Vec<u8>)
    requires
        opnd0.is_rm(),
        ops.ext_imm matches Some(ext) ==> ext < 8,
    ensures
        out@ == rm_imm_bytes(ops, opnd0, imm_bits, value),
{
    let size = opnd0.num_bits();
    if imm_bits <= 8 {
        if size == 8 {
            concat(
                write_rm(false, false, X86Opnd::Absent, opnd0, ops.ext_imm, bytes1(ops.mem_imm8)),
                int_bytes(value, 1),
            )
        } else {
            concat(
                write_rm(size == 16, size == 64, X86Opnd::Absent, opnd0, ops.ext_imm, bytes1(ops.mem_imm_sml)),
                int_bytes(value, 1),
            )
        }
    } else {
        let n: usize = if size > 32 {
            4
        } else {
            (size / 8) as usize
        };
        concat(
            write_rm(size == 16, size == 64, X86Opnd::Absent, opnd0, ops.ext_imm, bytes1(ops.mem_imm_lrg)),
            int_bytes(value, n),
        )
    }
}

fn write_rm_multi(ops: MultiOpcodes, opnd0: X86Opnd, opnd1: X86Opnd) -> (out: Vec<u8>)
    requires
        rm_multi_ok(ops, opnd0, opnd1),
    ensures
        out@ == rm_multi_bytes(ops, opnd0, opnd1),
{
    let size = opnd0.num_bits();
    match opnd1 {
        X86Opnd::Reg(_) => {
            if size == 8 {
                write_rm(false, false, opnd1, opnd0, None, bytes1(ops.mem_reg8))
            } else {
                write_rm(size == 16, size == 64, opnd1, opnd0, None, bytes1(ops.mem_reg_pref))
            }
        },
        X86Opnd::Mem(_) | X86Opnd::IPRel(_) => {
            if size == 8 {
                write_rm(false, false, opnd0, opnd1, None, bytes1(ops.reg_mem8))
            } else {
                write_rm(size == 16, size == 64, opnd0, opnd1, None, bytes1(ops.reg_mem_pref))
            }
        },
        X86Opnd::Imm(imm) => write_rm_imm(ops, opnd0, imm.num_bits, imm.value as u64),
        X86Opnd::UImm(uimm) => {
            let bits = if size == uimm_num_bits(uimm.value) {
                size
            } else {
                imm_num_bits(uimm.value as i64)
            };
            write_rm_imm(ops, opnd0, bits, uimm.value)
        },
        X86Opnd::Absent => Vec::new(),
    }
}

/// Whether the operand fits `write_rm_unary`: a register or memory operand
/// of a valid width.
pub open spec fn rm_unary_ok(opnd: X86Opnd) -> bool {
    opnd.is_rm() && valid_width(opnd.spec_num_bits())
}

/// The encoding of a one-operand instruction.
pub open spec fn rm_unary_bytes(op8: u8, op_pref: u8, op_ext: u8, opnd: X86Opnd) -> Seq<u8> {
    let size = opnd.spec_num_bits();
    if size == 8 {
        rm_bytes(false, false, X86Opnd::Absent, opnd, Some(op_ext), seq![op8])
    } else {
        rm_bytes(size == 16, size == 64, X86Opnd::Absent, opnd, Some(op_ext), seq![op_pref])
    }
}

fn write_rm_unary(op8: u8, op_pref: u8, op_ext: u8, opnd: X86Opnd) -> (out: Vec<u8>)
    requires
        rm_unary_ok(opnd),
        op_ext < 8,
    ensures
        out@ == rm_unary_bytes(op8, op_pref, op_ext, opnd),
{
    let size = opnd.num_bits();
    if size == 8 {
        write_rm(false, false, X86Opnd::Absent, opnd, Some(op_ext), bytes1(op8))
    } else {
        write_rm(size == 16, size == 64, X86Opnd::Absent, opnd, Some(op_ext), bytes1(op_pref))
    }
}

/// Opcodes of `add`.
pub open spec fn spec_add_opcodes() -> MultiOpcodes {
    MultiOpcodes {
        mem_reg8: 0x00,
        mem_reg_pref: 0x01,
        reg_mem8: 0x02,
        reg_mem_pref: 0x03,
        mem_imm8: 0x80,
        mem_imm_sml: 0x83,
        mem_imm_lrg: 0x81,
        ext_imm: Some(0x00u8),
    }
}

#[verifier::when_used_as_spec(spec_add_opcodes)]
fn add_opcodes() -> (ops: MultiOpcodes)
    ensures
        ops == spec_add_opcodes(),
{
    MultiOpcodes {
        mem_reg8: 0x00,
        mem_reg_pref: 0x01,
        reg_mem8: 0x02,
        reg_mem_pref: 0x03,
        mem_imm8: 0x80,
        mem_imm_sml: 0x83,
        mem_imm_lrg: 0x81,
        ext_imm: Some(0x00u8),
    }
}

/// Whether `add` has an encoding for the operands.
pub open spec fn add_ok(opnd0: X86Opnd, opnd1: X86Opnd) -> bool {
    rm_multi_ok(spec_add_opcodes(), opnd0, opnd1)
}

/// The encoding of `add`.
pub open spec fn add_bytes(opnd0: X86Opnd, opnd1: X86Opnd) -> Seq<u8> {
    rm_multi_bytes(spec_add_opcodes(), opnd0, opnd1)
}

/// Adds the second operand to the first.
pub fn add(opnd0: X86Opnd, opnd1: X86Opnd) -> (out: Vec<u8>)
    requires
        add_ok(opnd0, opnd1),
    ensures
        out@ == add_bytes(opnd0, opnd1),
{
    write_rm_multi(add_opcodes(), opnd0, opnd1)
}

/// Opcodes of `and`.
pub open spec fn spec_and_opcodes() -> MultiOpcodes {
    MultiOpcodes {
        mem_reg8: 0x20,
        mem_reg_pref: 0x21,
        reg_mem8: 0x22,
        reg_mem_pref: 0x23,
        mem_imm8: 0x80,
        mem_imm_sml: 0x83,
        mem_imm_lrg: 0x81,
        ext_imm: Some(0x04u8),
    }
}

#[verifier::when_used_as_spec(spec_and_opcodes)]
fn and_opcodes() -> (ops: MultiOpcodes)
    ensures
        ops == spec_and_opcodes(),
{
    MultiOpcodes {
        mem_reg8: 0x20,
        mem_reg_pref: 0x21,
        reg_mem8: 0x22,
        reg_mem_pref: 0x23,
        mem_imm8: 0x80,
        mem_imm_sml: 0x83,
        mem_imm_lrg: 0x81,
        ext_imm: Some(0x04u8),
    }
}

/// Whether `and` has an encoding for the operands.
pub open spec fn and_ok(opnd0: X86Opnd, opnd1: X86Opnd) -> bool {
    rm_multi_ok(spec_and_opcodes(), opnd0, opnd1)
}

/// The encoding of `and`.
pub open spec fn and_bytes(opnd0: X86Opnd, opnd1: X86Opnd) -> Seq<u8> {
    rm_multi_bytes(spec_and_opcodes(), opnd0, opnd1)
}

/// Bitwise AND of the second operand into the first.
pub fn and(opnd0: X86Opnd, opnd1: X86Opnd) -> (out: Vec<u8>)
    requires
        and_ok(opnd0, opnd1),
    ensures
        out@ == and_bytes(opnd0, opnd1),
{
    write_rm_multi(and_opcodes(), opnd0, opnd1)
}

/// Opcodes of `cmp`.
pub open spec fn spec_cmp_opcodes() -> MultiOpcodes {
    MultiOpcodes {
        mem_reg8: 0x38,
        mem_reg_pref: 0x39,
        reg_mem8: 0x3a,
        reg_mem_pref: 0x3b,
        mem_imm8: 0x80,
        mem_imm_sml: 0x83,
        mem_imm_lrg: 0x81,
        ext_imm: Some(0x07u8),
    }
}

#[verifier::when_used_as_spec(spec_cmp_opcodes)]
fn cmp_opcodes() -> (ops: MultiOpcodes)
    ensures
        ops == spec_cmp_opcodes(),
{
    MultiOpcodes {
        mem_reg8: 0x38,
        mem_reg_pref: 0x39,
        reg_mem8: 0x3a,
        reg_mem_pref: 0x3b,
        mem_imm8: 0x80,
        mem_imm_sml: 0x83,
        mem_imm_lrg: 0x81,
        ext_imm: Some(0x07u8),
    }
}

/// Whether `cmp` has an encoding for the operands.
pub open spec fn cmp_ok(opnd0: X86Opnd, opnd1: X86Opnd) -> bool {
    rm_multi_ok(spec_cmp_opcodes(), opnd0, opnd1)
}

/// The encoding of `cmp`.
pub open spec fn cmp_bytes(opnd0: X86Opnd, opnd1: X86Opnd) -> Seq<u8> {
    rm_multi_bytes(spec_cmp_opcodes(), opnd0, opnd1)
}

/// Compares the first operand with the second.
pub fn cmp(opnd0: X86Opnd, opnd1: X86Opnd) -> (out: Vec<u8>)
    requires
        cmp_ok(opnd0, opnd1),
    ensures
        out@ == cmp_bytes(opnd0, opnd1),
{
    write_rm_multi(cmp_opcodes(), opnd0, opnd1)
}

/// Opcodes of `or`.
pub open spec fn spec_or_opcodes() -> MultiOpcodes {
    MultiOpcodes {
        mem_reg8: 0x08,
        mem_reg_pref: 0x09,
        reg_mem8: 0x0a,
        reg_mem_pref: 0x0b,
        mem_imm8: 0x80,
        mem_imm_sml: 0x83,
        mem_imm_lrg: 0x81,
        ext_imm: Some(0x01u8),
    }
}

#[verifier::when_used_as_spec(spec_or_opcodes)]
fn or_opcodes() -> (ops: MultiOpcodes)
    ensures
        ops == spec_or_opcodes(),
{
    MultiOpcodes {
        mem_reg8: 0x08,
        mem_reg_pref: 0x09,
        reg_mem8: 0x0a,
        reg_mem_pref: 0x0b,
        mem_imm8: 0x80,
        mem_imm_sml: 0x83,
        mem_imm_lrg: 0x81,
        ext_imm: Some(0x01u8),
    }
}

/// Whether `or` has an encoding for the operands.
pub open spec fn or_ok(opnd0: X86Opnd, opnd1: X86Opnd) -> bool {
    rm_multi_ok(spec_or_opcodes(), opnd0, opnd1)
}

/// The encoding of `or`.
pub open spec fn or_bytes(opnd0: X86Opnd, opnd1: X86Opnd) -> Seq<u8> {
    rm_multi_bytes(spec_or_opcodes(), opnd0, opnd1)
}

/// Bitwise OR of the second operand into the first.
pub fn or(opnd0: X86Opnd, opnd1: X86Opnd) -> (out: Vec<u8>)
    requires
        or_ok(opnd0, opnd1),
    ensures
        out@ == or_bytes(opnd0, opnd1),
{
    write_rm_multi(or_opcodes(), opnd0, opnd1)
}

/// Opcodes of `sub`.
pub open spec fn spec_sub_opcodes() -> MultiOpcodes {
    MultiOpcodes {
        mem_reg8: 0x28,
        mem_reg_pref: 0x29,
        reg_mem8: 0x2a,
        reg_mem_pref: 0x2b,
        mem_imm8: 0x80,
        mem_imm_sml: 0x83,
        mem_imm_lrg: 0x81,
        ext_imm: Some(0x05u8),
    }
}

#[verifier::when_used_as_spec(spec_sub_opcodes)]
fn sub_opcodes() -> (ops: MultiOpcodes)
    ensures
        ops == spec_sub_opcodes(),
{
    MultiOpcodes {
        mem_reg8: 0x28,
        mem_reg_pref: 0x29,
        reg_mem8: 0x2a,
        reg_mem_pref: 0x2b,
        mem_imm8: 0x80,
        mem_imm_sml: 0x83,
        mem_imm_lrg: 0x81,
        ext_imm: Some(0x05u8),
    }
}

/// Whether `sub` has an encoding for the operands.
pub open spec fn sub_ok(opnd0: X86Opnd, opnd1: X86Opnd) -> bool {
    rm_multi_ok(spec_sub_opcodes(), opnd0, opnd1)
}

/// The encoding of `sub`.
pub open spec fn sub_bytes(opnd0: X86Opnd, opnd1: X86Opnd) -> Seq<u8> {
    rm_multi_bytes(spec_sub_opcodes(), opnd0, opnd1)
}

/// Subtracts the second operand from the first.
pub fn sub(opnd0: X86Opnd, opnd1: X86Opnd) -> (out: Vec<u8>)
    requires
        sub_ok(opnd0, opnd1),
    ensures
        out@ == sub_bytes(opnd0, opnd1),
{
    write_rm_multi(sub_opcodes(), opnd0, opnd1)
}

/// Opcodes of `xor`.
pub open spec fn spec_xor_opcodes() -> MultiOpcodes {
    MultiOpcodes {
        mem_reg8: 0x30,
        mem_reg_pref: 0x31,
        reg_mem8: 0x32,
        reg_mem_pref: 0x33,
        mem_imm8: 0x80,
        mem_imm_sml: 0x83,
        mem_imm_lrg: 0x81,
        ext_imm: Some(0x06u8),
    }
}

#[verifier::when_used_as_spec(spec_xor_opcodes)]
fn xor_opcodes() -> (ops: MultiOpcodes)
    ensures
        ops == spec_xor_opcodes(),
{
    MultiOpcodes {
        mem_reg8: 0x30,
        mem_reg_pref: 0x31,
        reg_mem8: 0x32,
        reg_mem_pref: 0x33,
        mem_imm8: 0x80,
        mem_imm_sml: 0x83,
        mem_imm_lrg: 0x81,
        ext_imm: Some(0x06u8),
    }
}

/// Whether `xor` has an encoding for the operands.
pub open spec fn xor_ok(opnd0: X86Opnd, opnd1: X86Opnd) -> bool {
    rm_multi_ok(spec_xor_opcodes(), opnd0, opnd1)
}

/// The encoding of `xor`.
pub open spec fn xor_bytes(opnd0: X86Opnd, opnd1: X86Opnd) -> Seq<u8> {
    rm_multi_bytes(spec_xor_opcodes(), opnd0, opnd1)
}

/// Bitwise XOR of the second operand into the first.
pub fn xor(opnd0: X86Opnd, opnd1: X86Opnd) -> (out: Vec<u8>)
    requires
        xor_ok(opnd0, opnd1),
    ensures
        out@ == xor_bytes(opnd0, opnd1),
{
    write_rm_multi(xor_opcodes(), opnd0, opnd1)
}

/// Opcodes of `mov`.
pub open spec fn spec_mov_rm_opcodes() -> MultiOpcodes {
    MultiOpcodes {
        mem_reg8: 0x88,
        mem_reg_pref: 0x89,
        reg_mem8: 0x8a,
        reg_mem_pref: 0x8b,
        mem_imm8: 0xc6,
        mem_imm_sml: 0xff,
        mem_imm_lrg: 0xff,
        ext_imm: None,
    }
}

#[verifier::when_used_as_spec(spec_mov_rm_opcodes)]
fn mov_rm_opcodes() -> (ops: MultiOpcodes)
    ensures
        ops == spec_mov_rm_opcodes(),
{
    MultiOpcodes {
        mem_reg8: 0x88,
        mem_reg_pref: 0x89,
        reg_mem8: 0x8a,
        reg_mem_pref: 0x8b,
        mem_imm8: 0xc6,
        mem_imm_sml: 0xff,
        mem_imm_lrg: 0xff,
        ext_imm: None,
    }
}

/// The encoding of a move of an immediate into a register. The short form
/// writes 32 bits into the low half, which clears the high half.
pub open spec fn mov_reg_imm_bytes(reg: X86Reg, value: u64, short: bool) -> Seq<u8> {
    if short {
        opt_byte(X86Opnd::Reg(reg).spec_rex_needed(), rex_byte(false, 0, 0, reg.reg_no)) + seq![
            opcode_reg_byte(0xb8, reg),
        ] + le_bytes(value, 4)
    } else {
        opt_byte(reg.num_bits == 16, 0x66) + opt_byte(
            X86Opnd::Reg(reg).spec_rex_needed() || reg.num_bits == 64,
            rex_byte(reg.num_bits == 64, 0, 0, reg.reg_no),
        ) + seq![
            opcode_reg_byte(
                if reg.num_bits == 8 {
                    0xb0
                } else {
                    0xb8
                },
                reg,
            ),
        ] + le_bytes(value, (reg.num_bits / 8) as nat)
    }
}

/// The encoding of a move of an immediate into memory.
pub open spec fn mov_mem_imm_bytes(dst: X86Opnd, value: u64) -> Seq<u8> {
    let size = dst.spec_num_bits();
    (if size == 8 {
        rm_bytes(false, false, X86Opnd::Absent, dst, None, seq![0xc6u8])
    } else {
        rm_bytes(size == 16, size == 64, X86Opnd::Absent, dst, Some(0u8), seq![0xc7u8])
    }) + le_bytes(value, imm_lrg_bytes(size))
}

/// Whether `mov` has an encoding for the operands.
pub open spec fn mov_ok(dst: X86Opnd, src: X86Opnd) -> bool {
    match (dst, src) {
        (X86Opnd::Reg(reg), X86Opnd::Imm(imm)) => valid_width(reg.num_bits) && imm.num_bits <= reg.num_bits,
        (X86Opnd::Reg(reg), X86Opnd::UImm(uimm)) => valid_width(reg.num_bits) && uimm.num_bits <= reg.num_bits,
        (X86Opnd::Mem(mem), X86Opnd::Imm(imm)) => {
            &&& valid_width(mem.num_bits)
            &&& imm.num_bits <= mem.num_bits
            &&& spec_imm_num_bits(imm.value) <= 8 * imm_lrg_bytes(mem.num_bits)
        },
        (X86Opnd::Mem(mem), X86Opnd::UImm(uimm)) => {
            &&& valid_width(mem.num_bits)
            &&& uimm.num_bits <= mem.num_bits
            &&& spec_imm_num_bits(uimm.value as i64) <= 8 * imm_lrg_bytes(mem.num_bits)
        },
        (_, X86Opnd::Imm(_)) => false,
        (_, X86Opnd::UImm(_)) => false,
        _ => rm_multi_ok(spec_mov_rm_opcodes(), dst, src),
    }
}

/// The encoding of `mov`.
pub open spec fn mov_bytes(dst: X86Opnd, src: X86Opnd) -> Seq<u8> {
    match (dst, src) {
        (X86Opnd::Reg(reg), X86Opnd::Imm(imm)) => mov_reg_imm_bytes(
            reg,
            imm.value as u64,
            reg.num_bits == 64 && imm.value > 0 && imm.num_bits <= 32,
        ),
        (X86Opnd::Reg(reg), X86Opnd::UImm(uimm)) => mov_reg_imm_bytes(
            reg,
            uimm.value,
            reg.num_bits == 64 && uimm.value <= 0xffff_ffff,
        ),
        (X86Opnd::Mem(_), X86Opnd::Imm(imm)) => mov_mem_imm_bytes(dst, imm.value as u64),
        (X86Opnd::Mem(_), X86Opnd::UImm(uimm)) => mov_mem_imm_bytes(dst, uimm.value),
        _ => rm_multi_bytes(spec_mov_rm_opcodes(), dst, src),
    }
}

fn write_mov_reg_imm(reg: X86Reg, value: u64, short: bool) -> (out: Vec<u8>)
    ensures
        out@ == mov_reg_imm_bytes(reg, value, short),
{
    let rex_needed = X86Opnd::Reg(reg).rex_needed();
    if short {
        let out = write_opt_byte(rex_needed, write_rex(false, 0, 0, reg.reg_no));
        let out = concat(out, bytes1(write_opcode(0xb8, reg)));
        concat(out, int_bytes(value, 4))
    } else {
        let out = write_opt_byte(reg.num_bits == 16, 0x66);
        let out = concat(
            out,
            write_opt_byte(rex_needed || reg.num_bits == 64, write_rex(reg.num_bits == 64, 0, 0, reg.reg_no)),
        );
        let opcode: u8 = if reg.num_bits == 8 {
            0xb0
        } else {
            0xb8
        };
        let out = concat(out, bytes1(write_opcode(opcode, reg)));
        concat(out, int_bytes(value, (reg.num_bits / 8) as usize))
    }
}

fn write_mov_mem_imm(dst: X86Opnd, value: u64) -> (out: Vec<u8>)
    requires
        dst is Mem,
    ensures
        out@ == mov_mem_imm_bytes(dst, value),
{
    let size = dst.num_bits();
    let head = if size == 8 {
        write_rm(false, false, X86Opnd::Absent, dst, None, bytes1(0xc6))
    } else {
        write_rm(size == 16, size == 64, X86Opnd::Absent, dst, Some(0), bytes1(0xc7))
    };
    let n: usize = if size > 32 {
        4
    } else {
        (size / 8) as usize
    };
    concat(head, int_bytes(value, n))
}

/// Moves the second operand into the first.
pub fn mov(dst: X86Opnd, src: X86Opnd) -> (out: Vec<u8>)
    requires
        mov_ok(dst, src),
    ensures
        out@ == mov_bytes(dst, src),
{
    match (dst, src) {
        (X86Opnd::Reg(reg), X86Opnd::Imm(imm)) => write_mov_reg_imm(
            reg,
            imm.value as u64,
            reg.num_bits == 64 && imm.value > 0 && imm.num_bits <= 32,
        ),
        (X86Opnd::Reg(reg), X86Opnd::UImm(uimm)) => write_mov_reg_imm(
            reg,
            uimm.value,
            reg.num_bits == 64 && uimm.value <= 0xffff_ffff,
        ),
        (X86Opnd::Mem(_), X86Opnd::Imm(imm)) => write_mov_mem_imm(dst, imm.value as u64),
        (X86Opnd::Mem(_), X86Opnd::UImm(uimm)) => write_mov_mem_imm(dst, uimm.value),
        _ => write_rm_multi(mov_rm_opcodes(), dst, src),
    }
}

/// The encoding of a move of a 64-bit immediate into a 64-bit register in
/// its full form, whose last eight bytes are the immediate.
pub open spec fn movabs_bytes(reg: X86Reg, value: u64) -> Seq<u8> {
    seq![rex_byte(true, 0, 0, reg.reg_no), opcode_reg_byte(0xb8, reg)] + le_bytes(value, 8)
}

/// Moves a 64-bit immediate into a 64-bit register, always in full.
pub fn movabs(dst: X86Opnd, value: u64) -> (out: Vec<u8>)
    requires
        dst matches X86Opnd::Reg(reg) && reg.num_bits == 64,
    ensures
        out@ == movabs_bytes(dst->Reg_0, value),
        out@.len() == 10,
{
    let reg = match dst {
        X86Opnd::Reg(reg) => reg,
        _ => gp_reg(0),
    };
    proof {
        lemma_le_bytes_len(value, 8);
    }
    concat(bytes2(write_rex(true, 0, 0, reg.reg_no), write_opcode(0xb8, reg)), int_bytes(value, 8))
}

/// Whether `movsx` has an encoding for the operands: a register, and a
/// narrower register or memory source of 8, 16 or 32 bits.
pub open spec fn movsx_ok(dst: X86Opnd, src: X86Opnd) -> bool {
    &&& dst is Reg
    &&& src.is_rm()
    &&& src.spec_num_bits() < dst.spec_num_bits()
    &&& src.spec_num_bits() == 8 || src.spec_num_bits() == 16 || src.spec_num_bits() == 32
}

/// The encoding of `movsx`.
pub open spec fn movsx_bytes(dst: X86Opnd, src: X86Opnd) -> Seq<u8> {
    let d = dst.spec_num_bits();
    if src.spec_num_bits() == 8 {
        rm_bytes(d == 16, d == 64, dst, src, None, seq![0x0fu8, 0xbeu8])
    } else if src.spec_num_bits() == 16 {
        rm_bytes(d == 16, d == 64, dst, src, None, seq![0x0fu8, 0xbfu8])
    } else {
        rm_bytes(false, true, dst, src, None, seq![0x63u8])
    }
}

/// Moves with sign extension.
pub fn movsx(dst: X86Opnd, src: X86Opnd) -> (out: Vec<u8>)
    requires
        movsx_ok(dst, src),
    ensures
        out@ == movsx_bytes(dst, src),
{
    let d = dst.num_bits();
    let n = src.num_bits();
    if n == 8 {
        write_rm(d == 16, d == 64, dst, src, None, bytes2(0x0f, 0xbe))
    } else if n == 16 {
        write_rm(d == 16, d == 64, dst, src, None, bytes2(0x0f, 0xbf))
    } else {
        write_rm(false, true, dst, src, None, bytes1(0x63))
    }
}

/// Whether `lea` has an encoding for the operands: a 64-bit register and a
/// memory or instruction-pointer-relative source.
pub open spec fn lea_ok(dst: X86Opnd, src: X86Opnd) -> bool {
    &&& dst matches X86Opnd::Reg(reg) && reg.num_bits == 64
    &&& src is Mem || src is IPRel
}

/// The encoding of `lea`.
pub open spec fn lea_bytes(dst: X86Opnd, src: X86Opnd) -> Seq<u8> {
    rm_bytes(false, true, dst, src, None, seq![0x8du8])
}

/// Loads the address of the source into the destination.
pub fn lea(dst: X86Opnd, src: X86Opnd) -> (out: Vec<u8>)
    requires
        lea_ok(dst, src),
    ensures
        out@ == lea_bytes(dst, src),
{
    write_rm(false, true, dst, src, None, bytes1(0x8d))
}

/// The encoding of `not`.
pub open spec fn not_bytes(opnd: X86Opnd) -> Seq<u8> {
    rm_unary_bytes(0xf6, 0xf7, 2, opnd)
}

/// Bitwise NOT in place.
pub fn not(opnd: X86Opnd) -> (out: Vec<u8>)
    requires
        rm_unary_ok(opnd),
    ensures
        out@ == not_bytes(opnd),
{
    write_rm_unary(0xf6, 0xf7, 2, opnd)
}

/// Whether a shift has an encoding for the operands: a register or memory
/// operand of 16, 32 or 64 bits, shifted by an 8-bit immediate or by `cl`.
pub open spec fn shift_ok(opnd0: X86Opnd, opnd1: X86Opnd) -> bool {
    &&& opnd0.is_rm()
    &&& opnd0.spec_num_bits() == 16 || opnd0.spec_num_bits() == 32 || opnd0.spec_num_bits() == 64
    &&& match opnd1 {
        X86Opnd::UImm(imm) => imm.value == 1 || imm.num_bits <= 8,
        X86Opnd::Reg(reg) => reg.reg_no == RCX_REG_NO,
        _ => false,
    }
}

/// The encoding of a shift with opcode extension `op_ext`.
pub open spec fn shift_bytes(op_ext: u8, opnd0: X86Opnd, opnd1: X86Opnd) -> Seq<u8> {
    let size = opnd0.spec_num_bits();
    match opnd1 {
        X86Opnd::UImm(imm) => if imm.value == 1 {
            rm_bytes(size == 16, size == 64, X86Opnd::Absent, opnd0, Some(op_ext), seq![0xd1u8])
        } else {
            rm_bytes(size == 16, size == 64, X86Opnd::Absent, opnd0, Some(op_ext), seq![0xc1u8]) + le_bytes(
                imm.value,
                1,
            )
        },
        _ => rm_bytes(size == 16, size == 64, X86Opnd::Absent, opnd0, Some(op_ext), seq![0xd3u8]),
    }
}

fn write_shift(op_ext: u8, opnd0: X86Opnd, opnd1: X86Opnd) -> (out: Vec<u8>)
    requires
        shift_ok(opnd0, opnd1),
        op_ext < 8,
    ensures
        out@ == shift_bytes(op_ext, opnd0, opnd1),
{
    let size = opnd0.num_bits();
    match opnd1 {
        X86Opnd::UImm(imm) => {
            if imm.value == 1 {
                write_rm(size == 16, size == 64, X86Opnd::Absent, opnd0, Some(op_ext), bytes1(0xd1))
            } else {
                concat(
                    write_rm(size == 16, size == 64, X86Opnd::Absent, opnd0, Some(op_ext), bytes1(0xc1)),
                    int_bytes(imm.value, 1),
                )
            }
        },
        _ => write_rm(size == 16, size == 64, X86Opnd::Absent, opnd0, Some(op_ext), bytes1(0xd3)),
    }
}

/// Shift left.
pub fn shl(opnd0: X86Opnd, opnd1: X86Opnd) -> (out: Vec<u8>)
    requires
        shift_ok(opnd0, opnd1),
    ensures
        out@ == shift_bytes(4, opnd0, opnd1),
{
    write_shift(4, opnd0, opnd1)
}

/// Logical shift right.
pub fn shr(opnd0: X86Opnd, opnd1: X86Opnd) -> (out: Vec<u8>)
    requires
        shift_ok(opnd0, opnd1),
    ensures
        out@ == shift_bytes(5, opnd0, opnd1),
{
    write_shift(5, opnd0, opnd1)
}

/// Arithmetic shift right.
pub fn sar(opnd0: X86Opnd, opnd1: X86Opnd) -> (out: Vec<u8>)
    requires
        shift_ok(opnd0, opnd1),
    ensures
        out@ == shift_bytes(7, opnd0, opnd1),
{
    write_shift(7, opnd0, opnd1)
}

/// The encoding of a push or pop of a register: the opcode holds the
/// register.
pub open spec fn stack_reg_bytes(opcode: u8, reg: X86Reg) -> Seq<u8> {
    opt_byte(X86Opnd::Reg(reg).spec_rex_needed(), rex_byte(false, 0, 0, reg.reg_no)) + seq![
        opcode_reg_byte(opcode, reg),
    ]
}

fn write_stack_reg(opcode: u8, reg: X86Reg) -> (out: Vec<u8>)
    requires
        opcode % 8 == 0,
    ensures
        out@ == stack_reg_bytes(opcode, reg),
{
    concat(
        write_opt_byte(X86Opnd::Reg(reg).rex_needed(), write_rex(false, 0, 0, reg.reg_no)),
        bytes1(write_opcode(opcode, reg)),
    )
}

/// The encoding of `push`.
pub open spec fn push_bytes(opnd: X86Opnd) -> Seq<u8> {
    match opnd {
        X86Opnd::Reg(reg) => stack_reg_bytes(0x50, reg),
        _ => rm_bytes(false, false, X86Opnd::Absent, opnd, Some(6u8), seq![0xffu8]),
    }
}

/// Pushes a register or memory operand on the stack.
pub fn push(opnd: X86Opnd) -> (out: Vec<u8>)
    requires
        opnd.is_rm(),
    ensures
        out@ == push_bytes(opnd),
{
    match opnd {
        X86Opnd::Reg(reg) => write_stack_reg(0x50, reg),
        _ => write_rm(false, false, X86Opnd::Absent, opnd, Some(6), bytes1(0xff)),
    }
}

/// Whether `pop` has an encoding for the operand: a 64-bit register or
/// memory operand.
pub open spec fn pop_ok(opnd: X86Opnd) -> bool {
    opnd.is_rm() && opnd.spec_num_bits() == 64
}

/// The encoding of `pop`.
pub open spec fn pop_bytes(opnd: X86Opnd) -> Seq<u8> {
    match opnd {
        X86Opnd::Reg(reg) => stack_reg_bytes(0x58, reg),
        _ => rm_bytes(false, false, X86Opnd::Absent, opnd, Some(0u8), seq![0x8fu8]),
    }
}

/// Pops the stack into a register or memory operand.
pub fn pop(opnd: X86Opnd) -> (out: Vec<u8>)
    requires
        pop_ok(opnd),
    ensures
        out@ == pop_bytes(opnd),
{
    match opnd {
        X86Opnd::Reg(reg) => write_stack_reg(0x58, reg),
        _ => write_rm(false, false, X86Opnd::Absent, opnd, Some(0), bytes1(0x8f)),
    }
}

/// Pushes the flags register.
pub fn pushfq() -> (out: Vec<u8>)
    ensures
        out@ == seq![0x9cu8],
{
    bytes1(0x9c)
}

/// Pops the flags register.
pub fn popfq() -> (out: Vec<u8>)
    ensures
        out@ == seq![0x9du8],
{
    bytes1(0x9d)
}

/// Returns from the function.
pub fn ret() -> (out: Vec<u8>)
    ensures
        out@ == seq![0xc3u8],
{
    bytes1(0xc3)
}

/// Debugger breakpoint.
pub fn int3() -> (out: Vec<u8>)
    ensures
        out@ == seq![0xccu8],
{
    bytes1(0xcc)
}

/// The prefix that makes the next instruction atomic.
pub fn write_lock_prefix() -> (out: Vec<u8>)
    ensures
        out@ == seq![0xf0u8],
{
    bytes1(0xf0)
}

/// Whether a distance fits the 32-bit displacement of a relative jump or
/// call.
pub open spec fn fits_rel32(d: int) -> bool {
    -0x8000_0000 <= d <= 0x7fff_ffff
}

/// The distance from the end of an instruction of `len` bytes at `src` to
/// `dst`.
pub open spec fn rel_dist(src: CodePtr, len: int, dst: u64) -> int {
    dst - (src.0 + len)
}

fn rel_bytes(src: CodePtr, len: u8, dst: u64) -> (out: Option<Vec<u8>>)
    ensures
        out is Some == fits_rel32(rel_dist(src, len as int, dst)),
        out matches Some(b) ==> b@ == rel32_bytes(rel_dist(src, len as int, dst)),
{
    let rel: i128 = dst as i128 - (src.0 as i128 + len as i128);
    if rel >= -0x8000_0000 && rel <= 0x7fff_ffff {
        Some(int_bytes((rel as i64) as u64, 4))
    } else {
        None
    }
}

/// The encoding of a call of the address in a register or in memory.
pub open spec fn call_bytes(opnd: X86Opnd) -> Seq<u8> {
    rm_bytes(false, false, X86Opnd::Absent, opnd, Some(2u8), seq![0xffu8])
}

/// The encoding of a call of `dst` from an instruction that starts at
/// `src`: relative where the distance fits 32 bits, else through the
/// scratch register.
pub open spec fn call_ptr_bytes(src: CodePtr, scratch: X86Reg, dst: u64) -> Seq<u8> {
    if fits_rel32(rel_dist(src, 5, dst)) {
        seq![0xe8u8] + rel32_bytes(rel_dist(src, 5, dst))
    } else {
        mov_bytes(X86Opnd::Reg(scratch), spec_uimm_opnd(dst)) + call_bytes(X86Opnd::Reg(scratch))
    }
}

/// Calls the function at `dst` from the instruction that starts at `src`.
pub fn call_ptr(src: CodePtr, scratch_opnd: X86Opnd, dst: u64) -> (out: Vec<u8>)
    requires
        scratch_opnd matches X86Opnd::Reg(reg) && reg.num_bits == 64,
    ensures
        out@ == call_ptr_bytes(src, scratch_opnd->Reg_0, dst),
{
    match rel_bytes(src, 5, dst) {
        Some(rel) => concat(bytes1(0xe8), rel),
        None => concat(
            mov(scratch_opnd, const_ptr_opnd(dst)),
            write_rm(false, false, X86Opnd::Absent, scratch_opnd, Some(2), bytes1(0xff)),
        ),
    }
}

/// The encoding of a jump to the address in a register or in memory.
pub open spec fn jmp_rm_bytes(opnd: X86Opnd) -> Seq<u8> {
    rm_bytes(false, false, X86Opnd::Absent, opnd, Some(4u8), seq![0xffu8])
}

/// Jumps to the address held in a register or in memory.
pub fn jmp_rm(opnd: X86Opnd) -> (out: Vec<u8>)
    requires
        opnd.is_rm(),
    ensures
        out@ == jmp_rm_bytes(opnd),
{
    write_rm(false, false, X86Opnd::Absent, opnd, Some(4), bytes1(0xff))
}

/// Number of bytes of a jump to an address.
pub const JMP_PTR_LEN: u8 = 5;

/// Number of bytes of a conditional jump to an address.
pub const JCC_PTR_LEN: u8 = 6;

/// The encoding of a jump from the instruction at `src` to `dst`; only the
/// opcode where the distance does not fit 32 bits.
pub open spec fn jmp_ptr_bytes(src: CodePtr, dst: CodePtr) -> Seq<u8> {
    if fits_rel32(rel_dist(src, 5, dst.0)) {
        seq![0xe9u8] + rel32_bytes(rel_dist(src, 5, dst.0))
    } else {
        seq![0xe9u8]
    }
}

/// The encoding of a conditional jump with second opcode byte `op1` from
/// the instruction at `src` to `dst`; only the opcode where the distance
/// does not fit 32 bits.
pub open spec fn jcc_ptr_bytes(op1: u8, src: CodePtr, dst: CodePtr) -> Seq<u8> {
    if fits_rel32(rel_dist(src, 6, dst.0)) {
        seq![0x0fu8, op1] + rel32_bytes(rel_dist(src, 6, dst.0))
    } else {
        seq![0x0fu8, op1]
    }
}

/// A jump to an address takes five bytes at most.
pub proof fn lemma_jmp_ptr_len(src: CodePtr, dst: CodePtr)
    ensures
        jmp_ptr_bytes(src, dst).len() <= JMP_PTR_LEN,
{
    lemma_le_bytes_len(((rel_dist(src, 5, dst.0)) as i64) as u64, 4);
}

/// Jumps from the instruction at `src` to `dst`. Also says whether the
/// distance fit; if not, the bytes are no whole instruction.
pub fn jmp_ptr(src: CodePtr, dst: CodePtr) -> (out: (Vec<u8>, bool))
    ensures
        out.0@ == jmp_ptr_bytes(src, dst),
        out.1 == fits_rel32(rel_dist(src, 5, dst.0)),
{
    match rel_bytes(src, 5, dst.0) {
        Some(rel) => (concat(bytes1(0xe9), rel), true),
        None => (bytes1(0xe9), false),
    }
}

/// Jumps on a condition from the instruction at `src` to `dst`. Also says
/// whether the distance fit; if not, the bytes are no whole instruction.
pub fn jcc_ptr(op1: u8, src: CodePtr, dst: CodePtr) -> (out: (Vec<u8>, bool))
    ensures
        out.0@ == jcc_ptr_bytes(op1, src, dst),
        out.1 == fits_rel32(rel_dist(src, 6, dst.0)),
{
    match rel_bytes(src, 6, dst.0) {
        Some(rel) => (concat(bytes2(0x0f, op1), rel), true),
        None => (bytes2(0x0f, op1), false),
    }
}

/// Whether a conditional move has an encoding for the operands: a register
/// of at least 16 bits and a register or memory source.
pub open spec fn cmov_ok(dst: X86Opnd, src: X86Opnd) -> bool {
    &&& dst matches X86Opnd::Reg(reg) && reg.num_bits >= 16
    &&& src.is_rm()
}

/// The encoding of a conditional move with second opcode byte `op1`.
pub open spec fn cmov_bytes(op1: u8, dst: X86Opnd, src: X86Opnd) -> Seq<u8> {
    rm_bytes(dst.spec_num_bits() == 16, dst.spec_num_bits() == 64, dst, src, None, seq![0x0fu8, op1])
}

/// Moves the source into the destination if the condition that `op1`
/// stands for holds.
pub fn cmov(op1: u8, dst: X86Opnd, src: X86Opnd) -> (out: Vec<u8>)
    requires
        cmov_ok(dst, src),
    ensures
        out@ == cmov_bytes(op1, dst, src),
{
    let d = dst.num_bits();
    write_rm(d == 16, d == 64, dst, src, None, bytes2(0x0f, op1))
}

/// The operand at another width.
pub open spec fn resized(opnd: X86Opnd, num_bits: u8) -> X86Opnd {
    match opnd {
        X86Opnd::Reg(reg) => X86Opnd::Reg(reg.spec_sub_reg(num_bits)),
        X86Opnd::Mem(mem) => X86Opnd::Mem(X86Mem { num_bits, ..mem }),
        _ => opnd,
    }
}

/// Whether `test` has an encoding for the operands.
pub open spec fn test_ok(rm_opnd: X86Opnd, test_opnd: X86Opnd) -> bool {
    &&& rm_opnd.is_rm()
    &&& match test_opnd {
        X86Opnd::UImm(uimm) => {
            &&& uimm.num_bits == 8 || uimm.num_bits == 16 || uimm.num_bits == 32
            &&& uimm.num_bits <= rm_opnd.spec_num_bits()
        },
        X86Opnd::Imm(imm) => imm.num_bits <= 32 && rm_opnd.spec_num_bits() == 64,
        X86Opnd::Reg(reg) => reg.num_bits == rm_opnd.spec_num_bits(),
        _ => false,
    }
}

/// The encoding of `test`. An unsigned immediate is tested at its own
/// width, the smallest that holds it.
pub open spec fn test_bytes(rm_opnd: X86Opnd, test_opnd: X86Opnd) -> Seq<u8> {
    let size = rm_opnd.spec_num_bits();
    match test_opnd {
        X86Opnd::UImm(uimm) => (if uimm.num_bits == 8 {
            rm_bytes(false, false, X86Opnd::Absent, resized(rm_opnd, 8), Some(0u8), seq![0xf6u8])
        } else {
            rm_bytes(
                uimm.num_bits == 16,
                false,
                X86Opnd::Absent,
                resized(rm_opnd, uimm.num_bits),
                Some(0u8),
                seq![0xf7u8],
            )
        }) + le_bytes(uimm.value, (uimm.num_bits / 8) as nat),
        X86Opnd::Imm(imm) => rm_bytes(false, true, X86Opnd::Absent, rm_opnd, Some(0u8), seq![0xf7u8])
            + le_bytes(imm.value as u64, 4),
        _ => if size == 8 {
            rm_bytes(false, false, test_opnd, rm_opnd, None, seq![0x84u8])
        } else {
            rm_bytes(size == 16, size == 64, test_opnd, rm_opnd, None, seq![0x85u8])
        },
    }
}

/// Tests the bits of the first operand that the second selects.
pub fn test(rm_opnd: X86Opnd, test_opnd: X86Opnd) -> (out: Vec<u8>)
    requires
        test_ok(rm_opnd, test_opnd),
    ensures
        out@ == test_bytes(rm_opnd, test_opnd),
{
    let size = rm_opnd.num_bits();
    match test_opnd {
        X86Opnd::UImm(uimm) => {
            let rm_resized = match rm_opnd {
                X86Opnd::Reg(reg) => X86Opnd::Reg(
                    X86Reg { num_bits: uimm.num_bits, reg_type: reg.reg_type, reg_no: reg.reg_no },
                ),
                X86Opnd::Mem(mem) => X86Opnd::Mem(
                    X86Mem {
                        num_bits: uimm.num_bits,
                        base_reg_no: mem.base_reg_no,
                        idx_reg_no: mem.idx_reg_no,
                        scale_exp: mem.scale_exp,
                        disp: mem.disp,
                    },
                ),
                _ => rm_opnd,
            };
            let head = if uimm.num_bits == 8 {
                write_rm(false, false, X86Opnd::Absent, rm_resized, Some(0), bytes1(0xf6))
            } else {
                write_rm(uimm.num_bits == 16, false, X86Opnd::Absent, rm_resized, Some(0), bytes1(0xf7))
            };
            concat(head, int_bytes(uimm.value, (uimm.num_bits / 8) as usize))
        },
        X86Opnd::Imm(imm) => concat(
            write_rm(false, true, X86Opnd::Absent, rm_opnd, Some(0), bytes1(0xf7)),
            int_bytes(imm.value as u64, 4),
        ),
        _ => {
            if size == 8 {
                write_rm(false, false, test_opnd, rm_opnd, None, bytes1(0x84))
            } else {
                write_rm(size == 16, size == 64, test_opnd, rm_opnd, None, bytes1(0x85))
            }
        },
    }
}

/// A no-op of `length` bytes, for lengths up to 9.
pub open spec fn nop_unit(length: int) -> Seq<u8> {
    if length <= 0 {
        Seq::empty()
    } else if length == 1 {
        seq![0x90u8]
    } else if length == 2 {
        seq![0x66u8, 0x90u8]
    } else if length == 3 {
        seq![0x0fu8, 0x1fu8, 0x00u8]
    } else if length == 4 {
        seq![0x0fu8, 0x1fu8, 0x40u8, 0x00u8]
    } else if length == 5 {
        seq![0x0fu8, 0x1fu8, 0x44u8, 0x00u8, 0x00u8]
    } else if length == 6 {
        seq![0x66u8, 0x0fu8, 0x1fu8, 0x44u8, 0x00u8, 0x00u8]
    } else if length == 7 {
        seq![0x0fu8, 0x1fu8, 0x80u8, 0x00u8, 0x00u8, 0x00u8, 0x00u8]
    } else if length == 8 {
        seq![0x0fu8, 0x1fu8, 0x84u8, 0x00u8, 0x00u8, 0x00u8, 0x00u8, 0x00u8]
    } else {
        seq![0x66u8, 0x0fu8, 0x1fu8, 0x84u8, 0x00u8, 0x00u8, 0x00u8, 0x00u8, 0x00u8]
    }
}

/// No-ops that fill `length` bytes: nine-byte ones, then one for the rest.
pub open spec fn nop_bytes(length: int) -> Seq<u8>
    decreases length,
{
    if length <= 9 {
        nop_unit(length)
    } else {
        nop_unit(9) + nop_bytes(length - 9)
    }
}

fn write_nop_unit(length: u32) -> (out: Vec<u8>)
    requires
        length <= 9,
    ensures
        out@ == nop_unit(length as int),
{
    if length == 0 {
        Vec::new()
    } else if length == 1 {
        bytes1(0x90)
    } else if length == 2 {
        bytes2(0x66, 0x90)
    } else if length == 3 {
        bytes3(0x0f, 0x1f, 0x00)
    } else if length == 4 {
        let out = concat(bytes3(0x0f, 0x1f, 0x40), bytes1(0x00));
        assert(out@ =~= nop_unit(4));
        out
    } else if length == 5 {
        let out = concat(bytes3(0x0f, 0x1f, 0x44), bytes2(0x00, 0x00));
        assert(out@ =~= nop_unit(5));
        out
    } else if length == 6 {
        let out = concat(bytes3(0x66, 0x0f, 0x1f), bytes3(0x44, 0x00, 0x00));
        assert(out@ =~= nop_unit(6));
        out
    } else if length == 7 {
        let out = concat(concat(bytes3(0x0f, 0x1f, 0x80), bytes3(0x00, 0x00, 0x00)), bytes1(0x00));
        assert(out@ =~= nop_unit(7));
        out
    } else if length == 8 {
        let out = concat(concat(bytes3(0x0f, 0x1f, 0x84), bytes3(0x00, 0x00, 0x00)), bytes2(0x00, 0x00));
        assert(out@ =~= nop_unit(8));
        out
    } else {
        let out = concat(concat(bytes3(0x66, 0x0f, 0x1f), bytes3(0x84, 0x00, 0x00)), bytes3(0x00, 0x00, 0x00));
        assert(out@ =~= nop_unit(9));
        out
    }
}

/// No-ops that fill `length` bytes.
pub fn nop(length: u32) -> (out: Vec<u8>)
    ensures
        out@ == nop_bytes(length as int),
    decreases length,
{
    if length <= 9 {
        write_nop_unit(length)
    } else {
        concat(write_nop_unit(9), nop(length - 9))
    }
}

/// Whether a width is one that a register or memory operand can have.
pub fn is_valid_width(num_bits: u8) -> (b: bool)
    ensures
        b == valid_width(num_bits),
{
    num_bits == 8 || num_bits == 16 || num_bits == 32 || num_bits == 64
}

fn is_rm(opnd: X86Opnd) -> (b: bool)
    ensures
        b == opnd.is_rm(),
{
    match opnd {
        X86Opnd::Reg(_) => true,
        X86Opnd::Mem(_) => true,
        _ => false,
    }
}

fn is_reg(opnd: X86Opnd) -> (b: bool)
    ensures
        b == (opnd is Reg),
{
    match opnd {
        X86Opnd::Reg(_) => true,
        _ => false,
    }
}

fn can_encode_rm_multi(ops: MultiOpcodes, opnd0: X86Opnd, opnd1: X86Opnd) -> (b: bool)
    ensures
        b == rm_multi_ok(ops, opnd0, opnd1),
{
    if !is_rm(opnd0) {
        return false;
    }
    let size = opnd0.num_bits();
    if !is_valid_width(size) {
        return false;
    }
    match ops.ext_imm {
        Some(ext) => {
            if ext >= 8 {
                return false;
            }
        },
        None => {},
    }
    match opnd1 {
        X86Opnd::Reg(reg) => reg.num_bits == size,
        X86Opnd::Mem(mem) => is_reg(opnd0) && mem.num_bits == size,
        X86Opnd::IPRel(_) => is_reg(opnd0),
        X86Opnd::Imm(imm) => imm.num_bits <= size && imm.num_bits <= 32,
        X86Opnd::UImm(uimm) => {
            if uimm.num_bits > size {
                return false;
            }
            let own = uimm_num_bits(uimm.value);
            if size != own && uimm.value > 0x7fff_ffff_ffff_ffff {
                return false;
            }
            let bits = if size == own {
                size
            } else {
                imm_num_bits(uimm.value as i64)
            };
            bits <= 32 && (bits <= 8 || bits <= size)
        },
        X86Opnd::Absent => false,
    }
}

/// Whether `add` has an encoding for the operands.
pub fn can_encode_add(opnd0: X86Opnd, opnd1: X86Opnd) -> (b: bool)
    ensures
        b == add_ok(opnd0, opnd1),
{
    can_encode_rm_multi(add_opcodes(), opnd0, opnd1)
}

/// Whether `and` has an encoding for the operands.
pub fn can_encode_and(opnd0: X86Opnd, opnd1: X86Opnd) -> (b: bool)
    ensures
        b == and_ok(opnd0, opnd1),
{
    can_encode_rm_multi(and_opcodes(), opnd0, opnd1)
}

/// Whether `cmp` has an encoding for the operands.
pub fn can_encode_cmp(opnd0: X86Opnd, opnd1: X86Opnd) -> (b: bool)
    ensures
        b == cmp_ok(opnd0, opnd1),
{
    can_encode_rm_multi(cmp_opcodes(), opnd0, opnd1)
}

/// Whether `or` has an encoding for the operands.
pub fn can_encode_or(opnd0: X86Opnd, opnd1: X86Opnd) -> (b: bool)
    ensures
        b == or_ok(opnd0, opnd1),
{
    can_encode_rm_multi(or_opcodes(), opnd0, opnd1)
}

/// Whether `sub` has an encoding for the operands.
pub fn can_encode_sub(opnd0: X86Opnd, opnd1: X86Opnd) -> (b: bool)
    ensures
        b == sub_ok(opnd0, opnd1),
{
    can_encode_rm_multi(sub_opcodes(), opnd0, opnd1)
}

/// Whether `xor` has an encoding for the operands.
pub fn can_encode_xor(opnd0: X86Opnd, opnd1: X86Opnd) -> (b: bool)
    ensures
        b == xor_ok(opnd0, opnd1),
{
    can_encode_rm_multi(xor_opcodes(), opnd0, opnd1)
}

/// Whether `mov` has an encoding for the operands.
pub fn can_encode_mov(dst: X86Opnd, src: X86Opnd) -> (b: bool)
    ensures
        b == mov_ok(dst, src),
{
    match (dst, src) {
        (X86Opnd::Reg(reg), X86Opnd::Imm(imm)) => is_valid_width(reg.num_bits) && imm.num_bits <= reg.num_bits,
        (X86Opnd::Reg(reg), X86Opnd::UImm(uimm)) => is_valid_width(reg.num_bits) && uimm.num_bits
            <= reg.num_bits,
        (X86Opnd::Mem(mem), X86Opnd::Imm(imm)) => {
            let limit: u8 = if mem.num_bits > 32 {
                32
            } else {
                mem.num_bits
            };
            is_valid_width(mem.num_bits) && imm.num_bits <= mem.num_bits && imm_num_bits(imm.value) <= limit
        },
        (X86Opnd::Mem(mem), X86Opnd::UImm(uimm)) => {
            let limit: u8 = if mem.num_bits > 32 {
                32
            } else {
                mem.num_bits
            };
            is_valid_width(mem.num_bits) && uimm.num_bits <= mem.num_bits && imm_num_bits(uimm.value as i64)
                <= limit
        },
        (_, X86Opnd::Imm(_)) => false,
        (_, X86Opnd::UImm(_)) => false,
        _ => can_encode_rm_multi(mov_rm_opcodes(), dst, src),
    }
}

/// Whether `movsx` has an encoding for the operands.
pub fn can_encode_movsx(dst: X86Opnd, src: X86Opnd) -> (b: bool)
    ensures
        b == movsx_ok(dst, src),
{
    if !is_reg(dst) || !is_rm(src) {
        return false;
    }
    let n = src.num_bits();
    n < dst.num_bits() && (n == 8 || n == 16 || n == 32)
}

/// Whether `lea` has an encoding for the operands.
pub fn can_encode_lea(dst: X86Opnd, src: X86Opnd) -> (b: bool)
    ensures
        b == lea_ok(dst, src),
{
    let wide_reg = match dst {
        X86Opnd::Reg(reg) => reg.num_bits == 64,
        _ => false,
    };
    wide_reg && match src {
        X86Opnd::Mem(_) => true,
        X86Opnd::IPRel(_) => true,
        _ => false,
    }
}

/// Whether a one-operand instruction has an encoding for the operand.
pub fn can_encode_unary(opnd: X86Opnd) -> (b: bool)
    ensures
        b == rm_unary_ok(opnd),
{
    is_rm(opnd) && is_valid_width(opnd.num_bits())
}

/// Whether a shift has an encoding for the operands.
pub fn can_encode_shift(opnd0: X86Opnd, opnd1: X86Opnd) -> (b: bool)
    ensures
        b == shift_ok(opnd0, opnd1),
{
    if !is_rm(opnd0) {
        return false;
    }
    let size = opnd0.num_bits();
    if !(size == 16 || size == 32 || size == 64) {
        return false;
    }
    match opnd1 {
        X86Opnd::UImm(imm) => imm.value == 1 || imm.num_bits <= 8,
        X86Opnd::Reg(reg) => reg.reg_no == RCX_REG_NO,
        _ => false,
    }
}

/// Whether `push` has an encoding for the operand.
pub fn can_encode_push(opnd: X86Opnd) -> (b: bool)
    ensures
        b == opnd.is_rm(),
{
    is_rm(opnd)
}

/// Whether `pop` has an encoding for the operand.
pub fn can_encode_pop(opnd: X86Opnd) -> (b: bool)
    ensures
        b == pop_ok(opnd),
{
    is_rm(opnd) && opnd.num_bits() == 64
}

/// Whether a conditional move has an encoding for the operands.
pub fn can_encode_cmov(dst: X86Opnd, src: X86Opnd) -> (b: bool)
    ensures
        b == cmov_ok(dst, src),
{
    let wide_enough = match dst {
        X86Opnd::Reg(reg) => reg.num_bits >= 16,
        _ => false,
    };
    wide_enough && is_rm(src)
}

/// Whether `test` has an encoding for the operands.
pub fn can_encode_test(rm_opnd: X86Opnd, test_opnd: X86Opnd) -> (b: bool)
    ensures
        b == test_ok(rm_opnd, test_opnd),
{
    if !is_rm(rm_opnd) {
        return false;
    }
    let size = rm_opnd.num_bits();
    match test_opnd {
        X86Opnd::UImm(uimm) => (uimm.num_bits == 8 || uimm.num_bits == 16 || uimm.num_bits == 32)
            && uimm.num_bits <= size,
        X86Opnd::Imm(imm) => imm.num_bits <= 32 && size == 64,
        X86Opnd::Reg(reg) => reg.num_bits == size,
        _ => false,
    }
}

} // verus!
