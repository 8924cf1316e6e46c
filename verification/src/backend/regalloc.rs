//! Linear-scan register allocation: one pass over the instructions that
//! gives a register to every output that is read, and takes it back at the
//! last read.

use vstd::prelude::*;
use crate::backend::ir::{
    all_widths_agree, Assembler, AssemblerView, faithful, first_num_bits, Insn, InsnView, Mem, MemBase, Op,
    operand_uses, operands_agree, Opnd, out_num_bits, widths_agree,
};
use crate::backend::x86_64::{c_ret_reg, Reg, spec_c_ret_reg};
use crate::encoder::x86_64::valid_width;

verus! {

/// Largest number of registers that the pool can track.
pub const MAX_POOL_REGS: usize = 32;

/// The bit of the pool that stands for the register at position `i`.
pub open spec fn bit(i: usize) -> u32 {
    1u32 << i
}

fn bit_of(i: usize) -> (b: u32)
    requires
        i < MAX_POOL_REGS,
    ensures
        b == bit(i),
{
    1u32 << i
}

/// Whether the register at position `i` is in use.
pub open spec fn in_use(pool: u32, i: usize) -> bool {
    pool & bit(i) != 0
}

/// The position of the first register, from `from` on, that is not in use.
pub open spec fn first_free(pool: u32, num_regs: usize, from: usize) -> Option<usize>
    decreases num_regs - from,
{
    if from >= num_regs {
        None
    } else if !in_use(pool, from) {
        Some(from)
    } else {
        first_free(pool, num_regs, (from + 1) as usize)
    }
}

/// The position of the first register, from `from` on, with the given
/// number.
pub open spec fn position(regs: Seq<Reg>, reg_no: u8, from: int) -> Option<usize>
    decreases regs.len() - from,
{
    if from < 0 || from >= regs.len() {
        None
    } else if regs[from].reg_no == reg_no {
        Some(from as usize)
    } else {
        position(regs, reg_no, from + 1)
    }
}

/// Whether a given register can be taken: it is outside the pool, or not in
/// use.
pub open spec fn take_ok(pool: u32, regs: Seq<Reg>, reg: Reg) -> bool {
    position(regs, reg.reg_no, 0) matches Some(i) ==> !in_use(pool, i)
}

/// The pool after a given register was taken.
pub open spec fn take(pool: u32, regs: Seq<Reg>, reg: Reg) -> u32 {
    match position(regs, reg.reg_no, 0) {
        Some(i) => pool | bit(i),
        None => pool,
    }
}

/// The pool after a register was given back.
pub open spec fn dealloc(pool: u32, regs: Seq<Reg>, reg: Reg) -> u32 {
    match position(regs, reg.reg_no, 0) {
        Some(i) => pool & !bit(i),
        None => pool,
    }
}

fn find_reg(regs: &Vec<Reg>, reg_no: u8) -> (r: Option<usize>)
    ensures
        r == position(regs@, reg_no, 0),
        r matches Some(i) ==> i < regs@.len(),
{
    let mut i: usize = 0;
    while i < regs.len()
        invariant
            i <= regs@.len(),
            position(regs@, reg_no, 0) == position(regs@, reg_no, i as int),
        decreases regs@.len() - i,
    {
        if regs[i].reg_no == reg_no {
            return Some(i);
        }
        i += 1;
    }
    None
}

/// Gives a register back.
fn dealloc_reg(pool: &mut u32, regs: &Vec<Reg>, reg: Reg)
    requires
        regs@.len() <= MAX_POOL_REGS,
    ensures
        *final(pool) == dealloc(*old(pool), regs@, reg),
{
    match find_reg(regs, reg.reg_no) {
        Some(i) => {
            *pool = *pool & !bit_of(i);
        },
        None => {},
    }
}

/// The pool after the registers of the outputs that the first `n` operands
/// read for the last time were given back. `a` is the assembler under
/// construction, which holds the register of each output.
pub open spec fn reclaim(
    pool: u32,
    opnds: Seq<Opnd>,
    n: int,
    a: AssemblerView,
    live_ranges: Seq<usize>,
    index: usize,
    regs: Seq<Reg>,
) -> u32
    decreases n,
{
    if n <= 0 {
        pool
    } else {
        let before = reclaim(pool, opnds, n - 1, a, live_ranges, index, regs);
        match opnds[n - 1].insn_ref() {
            Some(j) => if live_ranges[j as int] == index {
                dealloc(before, regs, a.insns[j as int].out->Reg_0)
            } else {
                before
            },
            None => before,
        }
    }
}

/// Whether the registers can be taken back: every output that is read was
/// produced earlier, and one that is read for the last time has a register.
pub open spec fn reclaim_ok(opnds: Seq<Opnd>, a: AssemblerView, live_ranges: Seq<usize>, index: usize) -> bool {
    forall|k: int|
        0 <= k < opnds.len() ==> ((#[trigger] opnds[k]).insn_ref() matches Some(j) ==> {
            &&& j < index
            &&& live_ranges[j as int] == index ==> a.insns[j as int].out is Reg
        })
}

/// The register of the first operand, where that is an output read here for
/// the last time: the instruction can work in place.
pub open spec fn reuse_reg(a: AssemblerView, insn: InsnView, live_ranges: Seq<usize>, index: usize) -> Option<
    Reg,
> {
    if insn.opnds.len() > 0 {
        match insn.opnds[0] {
            Opnd::InsnOut { idx, .. } => if live_ranges[idx as int] == index {
                match a.insns[idx as int].out {
                    Opnd::Reg(reg) => Some(reg),
                    _ => None,
                }
            } else {
                None
            },
            _ => None,
        }
    } else {
        None
    }
}

/// Whether the output of the instruction is read by a later one.
pub open spec fn is_read(live_ranges: Seq<usize>, index: usize) -> bool {
    live_ranges[index as int] != index
}

/// Whether a register can be found for the output of the instruction.
pub open spec fn assign_ok(
    pool: u32,
    regs: Seq<Reg>,
    a: AssemblerView,
    insn: InsnView,
    live_ranges: Seq<usize>,
    index: usize,
) -> bool {
    is_read(live_ranges, index) ==> if insn.op == Op::CCall {
        take_ok(pool, regs, spec_c_ret_reg())
    } else {
        match reuse_reg(a, insn, live_ranges, index) {
            Some(reg) => take_ok(pool, regs, reg),
            None => if insn.op == Op::LiveReg {
                insn.opnds.len() > 0 && insn.opnds[0] is Reg && take_ok(pool, regs, insn.opnds[0]->Reg_0)
            } else {
                first_free(pool, regs.len() as usize, 0) is Some
            },
        }
    }
}

/// The register for the output of the instruction, at full width, and the
/// pool after it was taken. An output that nothing reads gets none. A call
/// gets the register in which C functions return; an instruction whose
/// first operand dies here gets that operand's register; `LiveReg` gets the
/// register that it names; every other instruction gets the first register
/// of the pool that is not in use.
pub open spec fn assign(
    pool: u32,
    regs: Seq<Reg>,
    a: AssemblerView,
    insn: InsnView,
    live_ranges: Seq<usize>,
    index: usize,
) -> (Opnd, u32) {
    if !is_read(live_ranges, index) {
        (Opnd::Absent, pool)
    } else if insn.op == Op::CCall {
        (Opnd::Reg(spec_c_ret_reg()), take(pool, regs, spec_c_ret_reg()))
    } else {
        match reuse_reg(a, insn, live_ranges, index) {
            Some(reg) => (Opnd::Reg(reg), take(pool, regs, reg)),
            None => if insn.op == Op::LiveReg {
                (Opnd::Reg(insn.opnds[0]->Reg_0), take(pool, regs, insn.opnds[0]->Reg_0))
            } else {
                (
                    Opnd::Reg(regs[first_free(pool, regs.len() as usize, 0)->Some_0 as int]),
                    pool | bit(first_free(pool, regs.len() as usize, 0)->Some_0),
                )
            },
        }
    }
}

/// The operand with the register of the output that it reads in place of
/// the reference.
pub open spec fn rewrite_opnd(a: AssemblerView, opnd: Opnd) -> Opnd {
    match opnd {
        Opnd::InsnOut { idx, .. } => a.insns[idx as int].out,
        Opnd::Mem(Mem { base: MemBase::InsnOut(idx), disp, num_bits }) => Opnd::Mem(
            Mem { base: MemBase::Reg(a.insns[idx as int].out->Reg_0.reg_no), disp, num_bits },
        ),
        _ => opnd,
    }
}

/// Whether the operand can be rewritten: the output that it reads is there,
/// and has a register where it serves as a base.
pub open spec fn rewrite_ok(a: AssemblerView, opnd: Opnd) -> bool {
    match opnd {
        Opnd::InsnOut { idx, .. } => idx < a.insns.len(),
        Opnd::Mem(Mem { base: MemBase::InsnOut(idx), .. }) => idx < a.insns.len() && a.insns[idx as int].out
            is Reg,
        _ => true,
    }
}

/// The operands with registers in place of references.
pub open spec fn rewrite_opnds(a: AssemblerView, opnds: Seq<Opnd>) -> Seq<Opnd> {
    Seq::new(opnds.len(), |k: int| rewrite_opnd(a, opnds[k]))
}

/// The register narrowed to the width of the output; no register stays
/// none.
pub open spec fn narrowed(out_reg: Opnd, num_bits: u8) -> Opnd {
    match out_reg {
        Opnd::Reg(reg) => Opnd::Reg(reg.spec_sub_reg(num_bits)),
        _ => Opnd::Absent,
    }
}

impl AssemblerView {
    /// The assembler with another output for its last instruction.
    pub open spec fn with_last_out(self, out: Opnd) -> AssemblerView {
        AssemblerView {
            insns: self.insns.update(
                self.insns.len() - 1,
                InsnView {
                    op: self.insns.last().op,
                    text: self.insns.last().text,
                    opnds: self.insns.last().opnds,
                    out,
                    target: self.insns.last().target,
                    pos_marker: self.insns.last().pos_marker,
                },
            ),
            ..self
        }
    }
}

/// The assembler under construction and the pool after one instruction was
/// allocated: registers of outputs that die here are given back, a
/// register is found for the output if it is read, and the instruction goes
/// in with registers in place of references.
pub open spec fn alloc_step(
    a: AssemblerView,
    pool: u32,
    insn: InsnView,
    index: usize,
    live_ranges: Seq<usize>,
    regs: Seq<Reg>,
) -> (AssemblerView, u32) {
    let reclaimed = reclaim(pool, insn.opnds, insn.opnds.len() as int, a, live_ranges, index, regs);
    let (out_reg, taken) = assign(reclaimed, regs, a, insn, live_ranges, index);
    let opnds = rewrite_opnds(a, insn.opnds);
    (a.push(InsnView { opnds, ..insn }).with_last_out(narrowed(out_reg, out_num_bits(opnds))), taken)
}

/// Whether one instruction can be allocated.
///
/// It reads only outputs of earlier instructions, and those that it reads
/// last, or as a base, have a register. No register is in use across a
/// call. A register is free for the output, and can be narrowed to the
/// output's width. The rewritten operands agree in width.
pub open spec fn alloc_step_ok(
    a: AssemblerView,
    pool: u32,
    insn: InsnView,
    index: usize,
    live_ranges: Seq<usize>,
    regs: Seq<Reg>,
) -> bool {
    let reclaimed = reclaim(pool, insn.opnds, insn.opnds.len() as int, a, live_ranges, index, regs);
    let (out_reg, taken) = assign(reclaimed, regs, a, insn, live_ranges, index);
    let opnds = rewrite_opnds(a, insn.opnds);
    &&& reclaim_ok(insn.opnds, a, live_ranges, index)
    &&& insn.op == Op::CCall ==> reclaimed == 0
    &&& assign_ok(reclaimed, regs, a, insn, live_ranges, index)
    &&& forall|k: int| 0 <= k < insn.opnds.len() ==> rewrite_ok(a, #[trigger] insn.opnds[k])
    &&& widths_agree(opnds)
    &&& out_reg matches Opnd::Reg(reg) ==> valid_width(out_num_bits(opnds)) && out_num_bits(opnds)
        <= reg.num_bits
}

/// The assembler under construction and the pool after the instructions of
/// `old` from index `i` on were allocated.
pub open spec fn alloc_from(old: AssemblerView, regs: Seq<Reg>, i: int, a: AssemblerView, pool: u32) -> (
    AssemblerView,
    u32,
)
    decreases old.insns.len() - i,
{
    if i < 0 || i >= old.insns.len() {
        (a, pool)
    } else {
        let (a1, pool1) = alloc_step(a, pool, old.insns[i], i as usize, old.live_ranges, regs);
        alloc_from(old, regs, i + 1, a1, pool1)
    }
}

/// Whether the instructions of `old` from index `i` on can be allocated,
/// and no register is in use at the end.
pub open spec fn alloc_ok_from(old: AssemblerView, regs: Seq<Reg>, i: int, a: AssemblerView, pool: u32) -> bool
    decreases old.insns.len() - i,
{
    if i < 0 || i >= old.insns.len() {
        pool == 0
    } else {
        let (a1, pool1) = alloc_step(a, pool, old.insns[i], i as usize, old.live_ranges, regs);
        alloc_step_ok(a, pool, old.insns[i], i as usize, old.live_ranges, regs) && alloc_ok_from(
            old,
            regs,
            i + 1,
            a1,
            pool1,
        )
    }
}

/// The instruction list with registers in place of outputs.
pub open spec fn alloc_regs(old: AssemblerView, regs: Seq<Reg>) -> AssemblerView {
    alloc_from(old, regs, 0, AssemblerView::empty(old.label_names), 0).0
}

/// Whether registers can be allocated from `regs` without spilling: each
/// step finds what it needs, no register is in use across a call, and none
/// is in use at the end.
pub open spec fn allocatable(old: AssemblerView, regs: Seq<Reg>) -> bool {
    alloc_ok_from(old, regs, 0, AssemblerView::empty(old.label_names), 0)
}

/// Every output is a register or none: what the allocator leaves behind.
pub open spec fn outs_allocated(a: AssemblerView) -> bool {
    forall|j: int| 0 <= j < a.insns.len() ==> ((#[trigger] a.insns[j]).out is Reg || a.insns[j].out is Absent)
}

/// Takes a given register, if it is outside the pool or not in use. Says
/// whether it did.
fn try_take_reg(pool: &mut u32, regs: &Vec<Reg>, reg: Reg) -> (ok: bool)
    requires
        regs@.len() <= MAX_POOL_REGS,
    ensures
        ok == take_ok(*old(pool), regs@, reg),
        ok ==> *final(pool) == take(*old(pool), regs@, reg),
{
    match find_reg(regs, reg.reg_no) {
        Some(i) => {
            if (*pool & bit_of(i)) != 0 {
                return false;
            }
            *pool = *pool | bit_of(i);
        },
        None => {},
    }
    true
}

/// Takes the first register that is not in use, if there is one.
fn try_alloc_reg(pool: &mut u32, regs: &Vec<Reg>) -> (reg: Option<Reg>)
    requires
        regs@.len() <= MAX_POOL_REGS,
    ensures
        reg is Some == first_free(*old(pool), regs@.len() as usize, 0) is Some,
        reg matches Some(r) ==> first_free(*old(pool), regs@.len() as usize, 0) matches Some(i) && i < regs@.len()
            && r == regs@[i as int] && *final(pool) == *old(pool) | bit(i),
{
    let mut i: usize = 0;
    while i < regs.len()
        invariant
            i <= regs@.len() <= MAX_POOL_REGS,
            *pool == *old(pool),
            first_free(*pool, regs@.len() as usize, 0) == first_free(*pool, regs@.len() as usize, i),
        decreases regs@.len() - i,
    {
        if (*pool & bit_of(i)) == 0 {
            *pool = *pool | bit_of(i);
            return Some(regs[i]);
        }
        i += 1;
    }
    None
}

/// Allocates one instruction of the old list into the assembler under
/// construction, if that can be done. Says whether it did.
#[verifier::loop_isolation(false)]
fn alloc_one(
    target: &mut Assembler,
    pool: &mut u32,
    regs: &Vec<Reg>,
    live_ranges: &Vec<usize>,
    index: usize,
    insn: Insn,
) -> (ok: bool)
    requires
        old(target)@.wf(),
        outs_allocated(old(target)@),
        old(target)@.insns.len() == index,
        index < live_ranges@.len(),
        regs@.len() <= MAX_POOL_REGS,
    ensures
        ok == alloc_step_ok(old(target)@, *old(pool), insn@, index, live_ranges@, regs@),
        ok ==> (final(target)@, *final(pool)) == alloc_step(
            old(target)@,
            *old(pool),
            insn@,
            index,
            live_ranges@,
            regs@,
        ),
        ok ==> final(target)@.wf(),
        ok ==> outs_allocated(final(target)@),
        ok ==> final(target)@.insns.len() == index + 1,
{
    let ghost a = target@;
    let ghost iv = insn@;
    let ghost lr = live_ranges@;
    let ghost pool0 = *pool;
    let Insn { op, text, opnds, out: _, target: jump_target, pos_marker } = insn;
    let n = opnds.len();

    // Give back the registers of the outputs that are read here for the
    // last time.
    let mut k: usize = 0;
    while k < n
        invariant
            k <= n,
            n == opnds@.len(),
            opnds@ == iv.opnds,
            target@ == a,
            a.insns.len() == index,
            index < lr.len(),
            lr == live_ranges@,
            regs@.len() <= MAX_POOL_REGS,
            forall|j: int|
                0 <= j < k ==> ((#[trigger] opnds@[j]).insn_ref() matches Some(r) ==> {
                    &&& r < index
                    &&& lr[r as int] == index ==> a.insns[r as int].out is Reg
                }),
            *pool == reclaim(pool0, opnds@, k as int, a, lr, index, regs@),
        decreases n - k,
    {
        let opnd = opnds[k];
        assert(opnd == opnds@[k as int]);
        let start: Option<usize> = match opnd {
            Opnd::InsnOut { idx, .. } => Some(idx),
            Opnd::Mem(Mem { base: MemBase::InsnOut(idx), .. }) => Some(idx),
            _ => None,
        };
        assert(start == opnd.insn_ref());
        match start {
            Some(start_index) => {
                if start_index >= index {
                    return false;
                }
                if live_ranges[start_index] == index {
                    match target.insns[start_index].out {
                        Opnd::Reg(reg) => {
                            dealloc_reg(pool, regs, reg);
                        },
                        _ => {
                            return false;
                        },
                    }
                }
            },
            None => {},
        }
        k += 1;
    }
    assert(reclaim_ok(iv.opnds, a, lr, index));
    let ghost reclaimed = *pool;

    // No register may be in use across a call.
    if op == Op::CCall && *pool != 0 {
        return false;
    }
    // If some instruction reads the output, it needs a register.

    let mut out_reg = Opnd::Absent;
    if live_ranges[index] != index {
        if op == Op::CCall {
            if !try_take_reg(pool, regs, c_ret_reg()) {
                return false;
            }
            out_reg = Opnd::Reg(c_ret_reg());
        } else if n > 0 {
            match opnds[0] {
                Opnd::InsnOut { idx, .. } => {
                    if live_ranges[idx] == index {
                        match target.insns[idx].out {
                            Opnd::Reg(reg) => {
                                if !try_take_reg(pool, regs, reg) {
                                    return false;
                                }
                                out_reg = Opnd::Reg(reg);
                            },
                            _ => {},
                        }
                    }
                },
                _ => {},
            }
        }
        if out_reg == Opnd::Absent {
            if op == Op::LiveReg {
                if n == 0 {
                    return false;
                }
                match opnds[0] {
                    Opnd::Reg(reg) => {
                        if !try_take_reg(pool, regs, reg) {
                            return false;
                        }
                        out_reg = Opnd::Reg(reg);
                    },
                    _ => {
                        return false;
                    },
                }
            } else {
                match try_alloc_reg(pool, regs) {
                    Some(reg) => {
                        out_reg = Opnd::Reg(reg);
                    },
                    None => {
                        return false;
                    },
                }
            }
        }
    }
    assert(assign_ok(reclaimed, regs@, a, iv, lr, index));
    assert((out_reg, *pool) == assign(reclaimed, regs@, a, iv, lr, index));

    // Put registers in place of the references to outputs.
    let mut reg_opnds: Vec<Opnd> = Vec::new();
    let mut i: usize = 0;
    while i < n
        invariant
            i <= n,
            n == opnds@.len(),
            opnds@ == iv.opnds,
            target@ == a,
            outs_allocated(a),
            forall|k: int| 0 <= k < i ==> rewrite_ok(a, #[trigger] opnds@[k]),
            reg_opnds@ == Seq::new(i as nat, |k: int| rewrite_opnd(a, opnds@[k])),
        decreases n - i,
    {
        let opnd = opnds[i];
        assert(opnd == opnds@[i as int]);
        let rewritten = match opnd {
            Opnd::InsnOut { idx, .. } => {
                if idx >= target.insns.len() {
                    return false;
                }
                target.insns[idx].out
            },
            Opnd::Mem(Mem { base: MemBase::InsnOut(idx), disp, num_bits }) => {
                if idx >= target.insns.len() {
                    return false;
                }
                match target.insns[idx].out {
                    Opnd::Reg(base_reg) => Opnd::Mem(Mem { base: MemBase::Reg(base_reg.reg_no), disp, num_bits }),
                    _ => {
                        return false;
                    },
                }
            },
            _ => opnd,
        };
        reg_opnds.push(rewritten);
        assert(reg_opnds@ =~= Seq::new((i + 1) as nat, |k: int| rewrite_opnd(a, opnds@[k])));
        i += 1;
    }
    proof {
        assert(reg_opnds@ =~= rewrite_opnds(a, iv.opnds));
        assert forall|k: int| 0 <= k < reg_opnds@.len() implies (#[trigger] reg_opnds@[k]).insn_ref() is None by {
            assert(rewrite_ok(a, iv.opnds[k]));
            match iv.opnds[k] {
                Opnd::InsnOut { idx, .. } => {
                    assert(a.insns[idx as int].out is Reg || a.insns[idx as int].out is Absent);
                },
                _ => {},
            }
        }
    }
    if !operands_agree(&reg_opnds) {
        return false;
    }
    target.push_insn_parts(op, reg_opnds, jump_target, text, pos_marker);
    let ghost pushed = target@;
    let ghost pushed_insns = target.insns@;
    assert(pushed.insns[index as int] == pushed_insns[index as int]@);

    // Set the register of the output, at the width of the output.
    match target.insns.pop() {
        Some(last) => {
            let mut last = last;
            assert(last == pushed_insns[index as int]);
            assert(last.out == a.next_out(rewrite_opnds(a, iv.opnds)));
            let out = match out_reg {
                Opnd::Reg(reg) => {
                    let num_out_bits = last.out.rm_num_bits();
                    let valid = num_out_bits == 8 || num_out_bits == 16 || num_out_bits == 32 || num_out_bits
                        == 64;
                    if !valid || num_out_bits > reg.num_bits {
                        return false;
                    }
                    Opnd::Reg(reg.sub_reg(num_out_bits))
                },
                _ => Opnd::Absent,
            };
            last.out = out;
            target.insns.push(last);
            proof {
                assert(target@.insns =~= pushed.with_last_out(out).insns);
                assert(target@.label_names =~= pushed.label_names);
                assert forall|j: int| 0 <= j < target@.insns.len() implies ((#[trigger] target@.insns[j]).out is Reg
                    || target@.insns[j].out is Absent) by {
                    if j < a.insns.len() {
                        assert(target@.insns[j] == a.insns[j]);
                    }
                }
            }
        },
        None => {},
    }
    true
}

impl Assembler {
    /// Gives a register of `regs` to every output that a later instruction
    /// reads, and puts the registers in place of the references to outputs,
    /// if that can be done with the registers given; else returns nothing.
    #[verifier::loop_isolation(false)]
    pub fn try_alloc_regs(self, regs: Vec<Reg>) -> (r: Option<Assembler>)
        requires
            self@.wf(),
        ensures
            r is Some == (regs@.len() <= MAX_POOL_REGS && allocatable(self@, regs@)),
            r matches Some(allocated) ==> {
                &&& allocated@ == alloc_regs(self@, regs@)
                &&& allocated@.wf()
                &&& outs_allocated(allocated@)
                &&& allocated@.insns.len() == self@.insns.len()
            },
    {
        if regs.len() > MAX_POOL_REGS {
            return None;
        }
        let ghost old = self@;
        let ghost empty = AssemblerView::empty(old.label_names);
        let mut pool: u32 = 0;
        let Assembler { insns, live_ranges, label_names } = self;
        let mut target = Assembler::new_with_label_names(label_names);
        let drained = Assembler { insns, live_ranges: Vec::new(), label_names: Vec::new() };
        assert(drained@.insns =~= old.insns);
        let mut iterator = drained.into_draining_iter();
        let mut done = false;
        while !done
            invariant
                iterator.wf(),
                iterator@.index <= old.insns.len(),
                iterator@.remaining == old.insns.skip(iterator@.index as int),
                target@.wf(),
                outs_allocated(target@),
                target@.insns.len() == iterator@.index,
                done ==> iterator@.index == old.insns.len(),
                alloc_ok_from(old, regs@, iterator@.index as int, target@, pool) == alloc_ok_from(
                    old,
                    regs@,
                    0,
                    empty,
                    0,
                ),
                alloc_from(old, regs@, iterator@.index as int, target@, pool) == alloc_from(old, regs@, 0, empty, 0),
            decreases
                    old.insns.len() - iterator@.index + (if done {
                        0int
                    } else {
                        1int
                    }),
        {
            let ghost i = iterator@.index as int;
            match iterator.next_unmapped() {
                None => {
                    assert(i == old.insns.len());
                    done = true;
                },
                Some((index, insn)) => {
                    assert(i < old.insns.len());
                    assert(insn@ == old.insns[i]);
                    assert(old.insns.skip(i).drop_first() =~= old.insns.skip(i + 1));
                    if !alloc_one(&mut target, &mut pool, &regs, &live_ranges, index, insn) {
                        return None;
                    }
                },
            }
        }
        if pool != 0 {
            return None;
        }
        Some(target)
    }

    /// Gives a register of `regs` to every output that a later instruction
    /// reads, and puts the registers in place of the references to outputs.
    /// The register of an output is free again once the last instruction
    /// that reads it is reached. No instruction is added or removed.
    pub fn alloc_regs(self, regs: Vec<Reg>) -> (r: Assembler)
        requires
            self@.wf(),
            regs@.len() <= MAX_POOL_REGS,
            allocatable(self@, regs@),
        ensures
            r@ == alloc_regs(self@, regs@),
            r@.wf(),
            outs_allocated(r@),
            r@.insns.len() == self@.insns.len(),
    {
        match self.try_alloc_regs(regs) {
            Some(r) => r,
            None => Assembler::new(),
        }
    }
}

/// What of an instruction the allocator does not touch: everything but
/// operands and output.
pub open spec fn same_instruction(a: InsnView, b: InsnView) -> bool {
    &&& a.op == b.op
    &&& a.text == b.text
    &&& a.target == b.target
    &&& a.pos_marker == b.pos_marker
    &&& a.opnds.len() == b.opnds.len()
}

/// No operand reads the output of an instruction, directly or as the base
/// of a memory location.
pub open spec fn no_references(a: AssemblerView) -> bool {
    forall|i: int, k: int|
        0 <= i < a.insns.len() && 0 <= k < a.insns[i].opnds.len() ==> (#[trigger] a.insns[i].opnds[k]).insn_ref()
            is None
}

proof fn lemma_alloc_step_shape(
    a: AssemblerView,
    pool: u32,
    insn: InsnView,
    index: usize,
    live_ranges: Seq<usize>,
    regs: Seq<Reg>,
)
    ensures
        alloc_step(a, pool, insn, index, live_ranges, regs).0.insns.len() == a.insns.len() + 1,
        alloc_step(a, pool, insn, index, live_ranges, regs).0.label_names == a.label_names,
        forall|j: int|
            0 <= j < a.insns.len() ==> alloc_step(a, pool, insn, index, live_ranges, regs).0.insns[j]
                == a.insns[j],
        same_instruction(alloc_step(a, pool, insn, index, live_ranges, regs).0.insns[a.insns.len() as int], insn),
        alloc_step(a, pool, insn, index, live_ranges, regs).0.insns[a.insns.len() as int].opnds == rewrite_opnds(
            a,
            insn.opnds,
        ),
        alloc_step(a, pool, insn, index, live_ranges, regs).0.insns[a.insns.len() as int].out is Reg || alloc_step(
            a,
            pool,
            insn,
            index,
            live_ranges,
            regs,
        ).0.insns[a.insns.len() as int].out is Absent,
{
}

proof fn lemma_alloc_from_shape(old: AssemblerView, regs: Seq<Reg>, i: int, a: AssemblerView, pool: u32)
    requires
        0 <= i <= old.insns.len(),
        a.insns.len() == i,
        a.label_names == old.label_names,
        forall|j: int| 0 <= j < i ==> same_instruction(#[trigger] a.insns[j], old.insns[j]),
    ensures
        alloc_from(old, regs, i, a, pool).0.insns.len() == old.insns.len(),
        alloc_from(old, regs, i, a, pool).0.label_names == old.label_names,
        forall|j: int|
            0 <= j < old.insns.len() ==> same_instruction(
                #[trigger] alloc_from(old, regs, i, a, pool).0.insns[j],
                old.insns[j],
            ),
    decreases old.insns.len() - i,
{
    if i < old.insns.len() {
        let (a1, pool1) = alloc_step(a, pool, old.insns[i], i as usize, old.live_ranges, regs);
        lemma_alloc_step_shape(a, pool, old.insns[i], i as usize, old.live_ranges, regs);
        assert forall|j: int| 0 <= j < i + 1 implies same_instruction(#[trigger] a1.insns[j], old.insns[j]) by {
            if j < i {
                assert(a1.insns[j] == a.insns[j]);
            }
        }
        lemma_alloc_from_shape(old, regs, i + 1, a1, pool1);
    }
}

/// The allocator adds and removes no instruction: what comes out has the
/// instructions that went in, in order, each with its opcode, text, target
/// and marker, and with as many operands as before.
pub proof fn lemma_alloc_keeps_instructions(old: AssemblerView, regs: Seq<Reg>)
    ensures
        alloc_regs(old, regs).insns.len() == old.insns.len(),
        alloc_regs(old, regs).label_names == old.label_names,
        forall|j: int|
            0 <= j < old.insns.len() ==> same_instruction(#[trigger] alloc_regs(old, regs).insns[j], old.insns[j]),
{
    lemma_alloc_from_shape(old, regs, 0, AssemblerView::empty(old.label_names), 0);
}

proof fn lemma_alloc_from_no_references(old: AssemblerView, regs: Seq<Reg>, i: int, a: AssemblerView, pool: u32)
    requires
        0 <= i <= old.insns.len(),
        a.insns.len() == i,
        outs_allocated(a),
        no_references(a),
        alloc_ok_from(old, regs, i, a, pool),
    ensures
        outs_allocated(alloc_from(old, regs, i, a, pool).0),
        no_references(alloc_from(old, regs, i, a, pool).0),
        alloc_from(old, regs, i, a, pool).1 == 0,
    decreases old.insns.len() - i,
{
    if i < old.insns.len() {
        let insn = old.insns[i];
        let (a1, pool1) = alloc_step(a, pool, insn, i as usize, old.live_ranges, regs);
        lemma_alloc_step_shape(a, pool, insn, i as usize, old.live_ranges, regs);
        assert forall|j: int| 0 <= j < a1.insns.len() implies ((#[trigger] a1.insns[j]).out is Reg
            || a1.insns[j].out is Absent) by {
            if j < i {
                assert(a1.insns[j] == a.insns[j]);
            }
        }
        assert forall|j: int, k: int| 0 <= j < a1.insns.len() && 0 <= k < a1.insns[j].opnds.len() implies (
        #[trigger] a1.insns[j].opnds[k]).insn_ref() is None by {
            if j < i {
                assert(a1.insns[j] == a.insns[j]);
                assert(a.insns[j].opnds[k].insn_ref() is None);
            } else {
                assert(a1.insns[j].opnds[k] == rewrite_opnd(a, insn.opnds[k]));
                assert(rewrite_ok(a, insn.opnds[k]));
                match insn.opnds[k] {
                    Opnd::InsnOut { idx, .. } => {
                        assert(a.insns[idx as int].out is Reg || a.insns[idx as int].out is Absent);
                    },
                    _ => {},
                }
            }
        }
        lemma_alloc_from_no_references(old, regs, i + 1, a1, pool1);
    }
}

/// After allocation no operand is the output of an instruction, no memory
/// operand has one as its base, every output is a register or none, and no
/// register of the pool is in use.
pub proof fn lemma_alloc_leaves_no_reference(old: AssemblerView, regs: Seq<Reg>)
    requires
        allocatable(old, regs),
    ensures
        no_references(alloc_regs(old, regs)),
        outs_allocated(alloc_regs(old, regs)),
        alloc_from(old, regs, 0, AssemblerView::empty(old.label_names), 0).1 == 0,
{
    lemma_alloc_from_no_references(old, regs, 0, AssemblerView::empty(old.label_names), 0);
}

/// Taking a register marks its position as in use and no other.
proof fn lemma_bit_set(pool: u32, p: usize, q: usize)
    requires
        p < MAX_POOL_REGS,
        q < MAX_POOL_REGS,
    ensures
        in_use(pool | bit(p), q) == (q == p || in_use(pool, q)),
{
    assert(((pool | (1u32 << p)) & (1u32 << q) != 0) == (q == p || (pool & (1u32 << q) != 0))) by (bit_vector)
        requires
            p < 32,
            q < 32,
    ;
}

/// Giving a register back marks its position as free and no other.
proof fn lemma_bit_clear(pool: u32, p: usize, q: usize)
    requires
        p < MAX_POOL_REGS,
        q < MAX_POOL_REGS,
    ensures
        in_use(pool & !bit(p), q) == (q != p && in_use(pool, q)),
{
    assert(((pool & !(1u32 << p)) & (1u32 << q) != 0) == (q != p && (pool & (1u32 << q) != 0))) by (bit_vector)
        requires
            p < 32,
            q < 32,
    ;
}

/// A pool without a position in use is the empty pool.
proof fn lemma_pool_empty(pool: u32)
    requires
        forall|q: usize| q < MAX_POOL_REGS ==> !#[trigger] in_use(pool, q),
    ensures
        pool == 0,
{
    assert(!in_use(pool, 0)); assert(!in_use(pool, 1)); assert(!in_use(pool, 2)); assert(!in_use(pool, 3));
    assert(!in_use(pool, 4)); assert(!in_use(pool, 5)); assert(!in_use(pool, 6)); assert(!in_use(pool, 7));
    assert(!in_use(pool, 8)); assert(!in_use(pool, 9)); assert(!in_use(pool, 10)); assert(!in_use(pool, 11));
    assert(!in_use(pool, 12)); assert(!in_use(pool, 13)); assert(!in_use(pool, 14)); assert(!in_use(pool, 15));
    assert(!in_use(pool, 16)); assert(!in_use(pool, 17)); assert(!in_use(pool, 18)); assert(!in_use(pool, 19));
    assert(!in_use(pool, 20)); assert(!in_use(pool, 21)); assert(!in_use(pool, 22)); assert(!in_use(pool, 23));
    assert(!in_use(pool, 24)); assert(!in_use(pool, 25)); assert(!in_use(pool, 26)); assert(!in_use(pool, 27));
    assert(!in_use(pool, 28)); assert(!in_use(pool, 29)); assert(!in_use(pool, 30)); assert(!in_use(pool, 31));
    assert(pool == 0) by (bit_vector)
        requires
            pool & (1u32 << 0usize) == 0, pool & (1u32 << 1usize) == 0, pool & (1u32 << 2usize) == 0,
            pool & (1u32 << 3usize) == 0, pool & (1u32 << 4usize) == 0, pool & (1u32 << 5usize) == 0,
            pool & (1u32 << 6usize) == 0, pool & (1u32 << 7usize) == 0, pool & (1u32 << 8usize) == 0,
            pool & (1u32 << 9usize) == 0, pool & (1u32 << 10usize) == 0, pool & (1u32 << 11usize) == 0,
            pool & (1u32 << 12usize) == 0, pool & (1u32 << 13usize) == 0, pool & (1u32 << 14usize) == 0,
            pool & (1u32 << 15usize) == 0, pool & (1u32 << 16usize) == 0, pool & (1u32 << 17usize) == 0,
            pool & (1u32 << 18usize) == 0, pool & (1u32 << 19usize) == 0, pool & (1u32 << 20usize) == 0,
            pool & (1u32 << 21usize) == 0, pool & (1u32 << 22usize) == 0, pool & (1u32 << 23usize) == 0,
            pool & (1u32 << 24usize) == 0, pool & (1u32 << 25usize) == 0, pool & (1u32 << 26usize) == 0,
            pool & (1u32 << 27usize) == 0, pool & (1u32 << 28usize) == 0, pool & (1u32 << 29usize) == 0,
            pool & (1u32 << 30usize) == 0, pool & (1u32 << 31usize) == 0,
    ;
}

/// In the empty pool no position is in use.
proof fn lemma_empty_pool(q: usize)
    requires
        q < MAX_POOL_REGS,
    ensures
        !in_use(0, q),
{
    assert((0u32 & (1u32 << q)) == 0) by (bit_vector);
}

/// No two registers of the list have the same number.
pub open spec fn distinct_regs(regs: Seq<Reg>) -> bool {
    forall|p: int, q: int|
        0 <= p < regs.len() && 0 <= q < regs.len() && p != q ==> (#[trigger] regs[p]).reg_no != (
        #[trigger] regs[q]).reg_no
}

/// What `position` finds is a place in the list with that number, and
/// before it none has it.
proof fn lemma_position(regs: Seq<Reg>, reg_no: u8, from: int)
    requires
        0 <= from,
        regs.len() <= MAX_POOL_REGS,
    ensures
        position(regs, reg_no, from) matches Some(p) ==> from <= p < regs.len() && regs[p as int].reg_no == reg_no,
        position(regs, reg_no, from) is None ==> forall|q: int|
            from <= q < regs.len() ==> (#[trigger] regs[q]).reg_no != reg_no,
    decreases regs.len() - from,
{
    if from < regs.len() {
        lemma_position(regs, reg_no, from + 1);
    }
}

/// Among distinct registers each is found at its own place.
proof fn lemma_position_distinct(regs: Seq<Reg>, p: int, from: int)
    requires
        0 <= from <= p < regs.len(),
        regs.len() <= MAX_POOL_REGS,
        distinct_regs(regs),
    ensures
        position(regs, regs[p].reg_no, from) == Some(p as usize),
    decreases p - from,
{
    if from < p {
        assert(regs[from].reg_no != regs[p].reg_no);
        lemma_position_distinct(regs, p, from + 1);
    }
}

proof fn lemma_first_free(pool: u32, num_regs: usize, from: usize)
    ensures
        first_free(pool, num_regs, from) matches Some(f) ==> from <= f < num_regs && !in_use(pool, f),
    decreases num_regs - from,
{
    if from < num_regs && in_use(pool, from) {
        lemma_first_free(pool, num_regs, (from + 1) as usize);
    }
}

/// Whether the instructions of `old` from index `i` on can be allocated,
/// whatever is in use at the end.
pub open spec fn alloc_steps_ok_from(old: AssemblerView, regs: Seq<Reg>, i: int, a: AssemblerView, pool: u32) -> bool
    decreases old.insns.len() - i,
{
    if i < 0 || i >= old.insns.len() {
        true
    } else {
        let (a1, pool1) = alloc_step(a, pool, old.insns[i], i as usize, old.live_ranges, regs);
        alloc_step_ok(a, pool, old.insns[i], i as usize, old.live_ranges, regs) && alloc_steps_ok_from(
            old,
            regs,
            i + 1,
            a1,
            pool1,
        )
    }
}

/// Whether the output of instruction `j` has the register at position `p`
/// of the pool.
spec fn holds(a: AssemblerView, regs: Seq<Reg>, j: int, p: usize) -> bool {
    a.insns[j].out matches Opnd::Reg(r) && position(regs, r.reg_no, 0) == Some(p)
}

/// Whether some output that is still to be read at step `i` has the
/// register at position `p`.
spec fn held(lr: Seq<usize>, a: AssemblerView, regs: Seq<Reg>, i: int, p: usize) -> bool {
    exists|j: int| 0 <= j < i && lr[j] >= i && #[trigger] holds(a, regs, j, p)
}

/// What the pool says at step `i`: a position is in use exactly if an
/// output that is still to be read has its register, and no two such
/// outputs share a register of the pool.
spec fn pool_inv(old: AssemblerView, regs: Seq<Reg>, i: int, a: AssemblerView, pool: u32) -> bool {
    &&& a.insns.len() == i
    &&& outs_allocated(a)
    &&& forall|j: int| 0 <= j < i && old.live_ranges[j] != j ==> (#[trigger] a.insns[j]).out is Reg
    &&& forall|p: usize| p < MAX_POOL_REGS ==> #[trigger] in_use(pool, p) == held(old.live_ranges, a, regs, i, p)
    &&& forall|j1: int, j2: int, p: usize|
        0 <= j1 < i && 0 <= j2 < i && old.live_ranges[j1] >= i && old.live_ranges[j2] >= i && #[trigger] holds(
            a,
            regs,
            j1,
            p,
        ) && #[trigger] holds(a, regs, j2, p) ==> j1 == j2
}

/// Whether one of the first `n` operands reads, for the last time, the
/// output that has the register at position `p`.
spec fn freed(opnds: Seq<Opnd>, n: int, a: AssemblerView, lr: Seq<usize>, index: usize, regs: Seq<Reg>, p: usize) -> bool {
    exists|k: int| 0 <= k < n && #[trigger] frees(opnds[k], a, lr, index, regs, p)
}

spec fn frees(opnd: Opnd, a: AssemblerView, lr: Seq<usize>, index: usize, regs: Seq<Reg>, p: usize) -> bool {
    opnd.insn_ref() matches Some(j) && lr[j as int] == index && holds(a, regs, j as int, p)
}

/// After the registers were taken back, a position is in use exactly if it
/// was in use and no operand freed it.
proof fn lemma_reclaim(
    pool: u32,
    opnds: Seq<Opnd>,
    n: int,
    a: AssemblerView,
    lr: Seq<usize>,
    index: usize,
    regs: Seq<Reg>,
)
    requires
        0 <= n <= opnds.len(),
        regs.len() <= MAX_POOL_REGS,
        reclaim_ok(opnds, a, lr, index),
    ensures
        forall|p: usize|
            p < MAX_POOL_REGS ==> #[trigger] in_use(reclaim(pool, opnds, n, a, lr, index, regs), p) == (in_use(
                pool,
                p,
            ) && !freed(opnds, n, a, lr, index, regs, p)),
    decreases n,
{
    if n > 0 {
        lemma_reclaim(pool, opnds, n - 1, a, lr, index, regs);
        let before = reclaim(pool, opnds, n - 1, a, lr, index, regs);
        let after = reclaim(pool, opnds, n, a, lr, index, regs);
        let opnd = opnds[n - 1];
        assert forall|p: usize| p < MAX_POOL_REGS implies #[trigger] in_use(after, p) == (in_use(pool, p) && !freed(
            opnds,
            n,
            a,
            lr,
            index,
            regs,
            p,
        )) by {
            assert(in_use(before, p) == (in_use(pool, p) && !freed(opnds, n - 1, a, lr, index, regs, p)));
            // One more operand frees what it frees.
            if freed(opnds, n - 1, a, lr, index, regs, p) {
                let k = choose|k: int| 0 <= k < n - 1 && #[trigger] frees(opnds[k], a, lr, index, regs, p);
                assert(frees(opnds[k], a, lr, index, regs, p));
            }
            if freed(opnds, n, a, lr, index, regs, p) {
                let k = choose|k: int| 0 <= k < n && #[trigger] frees(opnds[k], a, lr, index, regs, p);
                if k < n - 1 {
                    assert(frees(opnds[k], a, lr, index, regs, p));
                }
            }
            assert(freed(opnds, n, a, lr, index, regs, p) == (freed(opnds, n - 1, a, lr, index, regs, p) || frees(
                opnd,
                a,
                lr,
                index,
                regs,
                p,
            )));
            match opnd.insn_ref() {
                Some(j) => {
                    if lr[j as int] == index {
                        assert(a.insns[j as int].out is Reg);
                        let r = a.insns[j as int].out->Reg_0;
                        lemma_position(regs, r.reg_no, 0);
                        match position(regs, r.reg_no, 0) {
                            Some(slot) => {
                                lemma_bit_clear(before, slot, p);
                            },
                            None => {},
                        }
                    }
                },
                None => {},
            }
        }
    } else {
        assert forall|p: usize| p < MAX_POOL_REGS implies !freed(opnds, 0, a, lr, index, regs, p) by {}
    }
}

/// Whether some output that is read after step `i` has the register at
/// position `p`.
spec fn held_after(lr: Seq<usize>, a: AssemblerView, regs: Seq<Reg>, i: int, p: usize) -> bool {
    exists|j: int| 0 <= j < i && lr[j] > i && #[trigger] holds(a, regs, j, p)
}

/// After the registers of the outputs that die at step `i` were taken
/// back, exactly the registers of the outputs that live on are in use.
proof fn lemma_reclaimed_pool(old: AssemblerView, regs: Seq<Reg>, i: int, a: AssemblerView, pool: u32)
    requires
        0 <= i < old.insns.len(),
        old.exact(),
        regs.len() <= MAX_POOL_REGS,
        pool_inv(old, regs, i, a, pool),
        reclaim_ok(old.insns[i].opnds, a, old.live_ranges, i as usize),
    ensures
        forall|p: usize|
            p < MAX_POOL_REGS ==> #[trigger] in_use(
                reclaim(
                    pool,
                    old.insns[i].opnds,
                    old.insns[i].opnds.len() as int,
                    a,
                    old.live_ranges,
                    i as usize,
                    regs,
                ),
                p,
            ) == held_after(old.live_ranges, a, regs, i, p),
{
    let lr = old.live_ranges;
    let opnds = old.insns[i].opnds;
    let n = opnds.len() as int;
    let reclaimed = reclaim(pool, opnds, n, a, lr, i as usize, regs);
    lemma_reclaim(pool, opnds, n, a, lr, i as usize, regs);
    assert forall|p: usize| p < MAX_POOL_REGS implies #[trigger] in_use(reclaimed, p) == held_after(
        lr,
        a,
        regs,
        i,
        p,
    ) by {
        assert(in_use(reclaimed, p) == (in_use(pool, p) && !freed(opnds, n, a, lr, i as usize, regs, p)));
        assert(in_use(pool, p) == held(lr, a, regs, i, p));
        if in_use(reclaimed, p) {
            let j = choose|j: int| 0 <= j < i && lr[j] >= i && #[trigger] holds(a, regs, j, p);
            if lr[j] == i {
                // The instruction that ends the live range reads the output.
                assert(operand_uses(old.insns[lr[j] as int].opnds, j as usize));
                let k = choose|k: int| 0 <= k < opnds.len() && (#[trigger] opnds[k]).insn_ref() == Some(j as usize);
                assert(frees(opnds[k], a, lr, i as usize, regs, p));
                assert(false);
            }
            assert(holds(a, regs, j, p));
        }
        if held_after(lr, a, regs, i, p) {
            let j = choose|j: int| 0 <= j < i && lr[j] > i && #[trigger] holds(a, regs, j, p);
            assert(holds(a, regs, j, p));
            assert(held(lr, a, regs, i, p));
            if freed(opnds, n, a, lr, i as usize, regs, p) {
                let k = choose|k: int| 0 <= k < n && #[trigger] frees(opnds[k], a, lr, i as usize, regs, p);
                let j2 = opnds[k].insn_ref()->Some_0 as int;
                assert(j2 < i);
                assert(holds(a, regs, j2, p));
                assert(j == j2);
                assert(false);
            }
        }
    }
}

/// The register that a step gives to its output, if it gives one, is at a
/// position that is not in use and that is then marked; a register outside
/// the pool leaves the pool as it is.
proof fn lemma_assign(pool: u32, regs: Seq<Reg>, a: AssemblerView, insn: InsnView, lr: Seq<usize>, index: usize)
    requires
        regs.len() <= MAX_POOL_REGS,
        distinct_regs(regs),
        assign_ok(pool, regs, a, insn, lr, index),
        is_read(lr, index),
    ensures
        assign(pool, regs, a, insn, lr, index).0 is Reg,
        match position(regs, assign(pool, regs, a, insn, lr, index).0->Reg_0.reg_no, 0) {
            Some(slot) => slot < regs.len() && !in_use(pool, slot) && assign(pool, regs, a, insn, lr, index).1 == pool
                | bit(slot),
            None => assign(pool, regs, a, insn, lr, index).1 == pool,
        },
{
    let (out_reg, taken) = assign(pool, regs, a, insn, lr, index);
    let r = out_reg->Reg_0;
    lemma_position(regs, r.reg_no, 0);
    if insn.op != Op::CCall && reuse_reg(a, insn, lr, index) is None && insn.op != Op::LiveReg {
        lemma_first_free(pool, regs.len() as usize, 0);
        let f = first_free(pool, regs.len() as usize, 0)->Some_0;
        lemma_position_distinct(regs, f as int, 0);
    }
}

/// One step of the allocator keeps what the pool says.
proof fn lemma_alloc_step_pool(old: AssemblerView, regs: Seq<Reg>, i: int, a: AssemblerView, pool: u32)
    requires
        0 <= i < old.insns.len(),
        old.exact(),
        regs.len() <= MAX_POOL_REGS,
        distinct_regs(regs),
        pool_inv(old, regs, i, a, pool),
        alloc_step_ok(a, pool, old.insns[i], i as usize, old.live_ranges, regs),
    ensures
        pool_inv(
            old,
            regs,
            i + 1,
            alloc_step(a, pool, old.insns[i], i as usize, old.live_ranges, regs).0,
            alloc_step(a, pool, old.insns[i], i as usize, old.live_ranges, regs).1,
        ),
{
    let lr = old.live_ranges;
    let insn = old.insns[i];
    let opnds = insn.opnds;
    let reclaimed = reclaim(pool, opnds, opnds.len() as int, a, lr, i as usize, regs);
    let (out_reg, taken) = assign(reclaimed, regs, a, insn, lr, i as usize);
    let (a1, pool1) = alloc_step(a, pool, insn, i as usize, lr, regs);
    let new_opnds = rewrite_opnds(a, opnds);
    assert(pool1 == taken);
    assert(a1.insns[i].out == narrowed(out_reg, out_num_bits(new_opnds)));
    lemma_alloc_step_shape(a, pool, insn, i as usize, lr, regs);
    lemma_reclaimed_pool(old, regs, i, a, pool);
    assert forall|j: int, p: usize| 0 <= j < i implies holds(a1, regs, j, p) == holds(a, regs, j, p) by {
        assert(a1.insns[j] == a.insns[j]);
    }
    assert forall|j: int| 0 <= j < a1.insns.len() implies ((#[trigger] a1.insns[j]).out is Reg || a1.insns[j].out
        is Absent) by {
        if j < i {
            assert(a1.insns[j] == a.insns[j]);
        }
    }
    if is_read(lr, i as usize) {
        lemma_assign(reclaimed, regs, a, insn, lr, i as usize);
        let r = out_reg->Reg_0;
        assert(a1.insns[i].out->Reg_0.reg_no == r.reg_no);
        assert forall|p: usize| p < MAX_POOL_REGS implies #[trigger] in_use(pool1, p) == held(
            lr,
            a1,
            regs,
            i + 1,
            p,
        ) by {
            assert(in_use(reclaimed, p) == held_after(lr, a, regs, i, p));
            match position(regs, r.reg_no, 0) {
                Some(slot) => {
                    lemma_bit_set(reclaimed, slot, p);
                },
                None => {},
            }
            if held(lr, a1, regs, i + 1, p) {
                let j = choose|j: int| 0 <= j < i + 1 && lr[j] >= i + 1 && #[trigger] holds(a1, regs, j, p);
                if j < i {
                    assert(holds(a, regs, j, p));
                    assert(held_after(lr, a, regs, i, p));
                }
            }
            if held_after(lr, a, regs, i, p) {
                let j = choose|j: int| 0 <= j < i && lr[j] > i && #[trigger] holds(a, regs, j, p);
                assert(holds(a1, regs, j, p));
            }
            if holds(a1, regs, i, p) {
                assert(lr[i] >= i + 1);
            }
        }
        assert forall|j1: int, j2: int, p: usize|
            0 <= j1 < i + 1 && 0 <= j2 < i + 1 && lr[j1] >= i + 1 && lr[j2] >= i + 1 && #[trigger] holds(
                a1,
                regs,
                j1,
                p,
            ) && #[trigger] holds(a1, regs, j2, p) implies j1 == j2 by {
            if j1 < i && j2 < i {
                assert(holds(a, regs, j1, p) && holds(a, regs, j2, p));
            } else if j1 == i && j2 < i {
                assert(holds(a, regs, j2, p));
                assert(held_after(lr, a, regs, i, p));
                assert(in_use(reclaimed, p));
                assert(false);
            } else if j2 == i && j1 < i {
                assert(holds(a, regs, j1, p));
                assert(held_after(lr, a, regs, i, p));
                assert(in_use(reclaimed, p));
                assert(false);
            }
        }
    } else {
        assert(a1.insns[i].out is Absent);
        assert forall|p: usize| p < MAX_POOL_REGS implies #[trigger] in_use(pool1, p) == held(
            lr,
            a1,
            regs,
            i + 1,
            p,
        ) by {
            assert(in_use(reclaimed, p) == held_after(lr, a, regs, i, p));
            if held(lr, a1, regs, i + 1, p) {
                let j = choose|j: int| 0 <= j < i + 1 && lr[j] >= i + 1 && #[trigger] holds(a1, regs, j, p);
                assert(j < i);
                assert(holds(a, regs, j, p));
                assert(held_after(lr, a, regs, i, p));
            }
            if held_after(lr, a, regs, i, p) {
                let j = choose|j: int| 0 <= j < i && lr[j] > i && #[trigger] holds(a, regs, j, p);
                assert(holds(a1, regs, j, p));
            }
        }
        assert forall|j1: int, j2: int, p: usize|
            0 <= j1 < i + 1 && 0 <= j2 < i + 1 && lr[j1] >= i + 1 && lr[j2] >= i + 1 && #[trigger] holds(
                a1,
                regs,
                j1,
                p,
            ) && #[trigger] holds(a1, regs, j2, p) implies j1 == j2 by {
            assert(j1 < i && j2 < i);
            assert(holds(a, regs, j1, p) && holds(a, regs, j2, p));
        }
    }
    assert forall|j: int| 0 <= j < i + 1 && lr[j] != j implies (#[trigger] a1.insns[j]).out is Reg by {
        if j < i {
            assert(a1.insns[j] == a.insns[j]);
        }
    }
}

proof fn lemma_alloc_from_pool(old: AssemblerView, regs: Seq<Reg>, i: int, a: AssemblerView, pool: u32)
    requires
        0 <= i <= old.insns.len(),
        old.exact(),
        regs.len() <= MAX_POOL_REGS,
        distinct_regs(regs),
        pool_inv(old, regs, i, a, pool),
        alloc_steps_ok_from(old, regs, i, a, pool),
    ensures
        alloc_from(old, regs, i, a, pool).1 == 0,
        alloc_ok_from(old, regs, i, a, pool),
    decreases old.insns.len() - i,
{
    if i < old.insns.len() {
        let (a1, pool1) = alloc_step(a, pool, old.insns[i], i as usize, old.live_ranges, regs);
        lemma_alloc_step_pool(old, regs, i, a, pool);
        lemma_alloc_from_pool(old, regs, i + 1, a1, pool1);
    } else {
        assert forall|q: usize| q < MAX_POOL_REGS implies !#[trigger] in_use(pool, q) by {
            if held(old.live_ranges, a, regs, i, q) {
                let j = choose|j: int| 0 <= j < i && old.live_ranges[j] >= i && #[trigger] holds(a, regs, j, q);
                assert(old.live_ranges[j] < old.insns.len());
            }
        }
        lemma_pool_empty(pool);
    }
}

/// The pool is empty again at the end of the allocation: every register is
/// given back at the last read of the output that had it.
///
/// This holds of a list with exact live ranges, as `push` builds them, and
/// of registers with different numbers, if every step finds what it needs.
/// So for such a list nothing but a step that fails stands in the way of
/// the allocation.
pub proof fn lemma_pool_empties(old: AssemblerView, regs: Seq<Reg>)
    requires
        old.exact(),
        regs.len() <= MAX_POOL_REGS,
        distinct_regs(regs),
        alloc_steps_ok_from(old, regs, 0, AssemblerView::empty(old.label_names), 0),
    ensures
        alloc_from(old, regs, 0, AssemblerView::empty(old.label_names), 0).1 == 0,
        allocatable(old, regs),
{
    let empty = AssemblerView::empty(old.label_names);
    assert forall|p: usize| p < MAX_POOL_REGS implies #[trigger] in_use(0, p) == held(
        old.live_ranges,
        empty,
        regs,
        0,
        p,
    ) by {
        lemma_empty_pool(p);
    }
    lemma_alloc_from_pool(old, regs, 0, empty, 0);
}

/// What one step of the allocator asks of the registers: none in use
/// across a call, one free for the output, and that one wide enough.
pub open spec fn demand_ok(
    a: AssemblerView,
    pool: u32,
    insn: InsnView,
    index: usize,
    live_ranges: Seq<usize>,
    regs: Seq<Reg>,
) -> bool {
    let reclaimed = reclaim(pool, insn.opnds, insn.opnds.len() as int, a, live_ranges, index, regs);
    let (out_reg, taken) = assign(reclaimed, regs, a, insn, live_ranges, index);
    let opnds = rewrite_opnds(a, insn.opnds);
    &&& insn.op == Op::CCall ==> reclaimed == 0
    &&& assign_ok(reclaimed, regs, a, insn, live_ranges, index)
    &&& out_reg matches Opnd::Reg(reg) ==> valid_width(out_num_bits(opnds)) && out_num_bits(opnds)
        <= reg.num_bits
}

/// Whether every step from index `i` on gets of the registers what it asks.
pub open spec fn demands_ok_from(old: AssemblerView, regs: Seq<Reg>, i: int, a: AssemblerView, pool: u32) -> bool
    decreases old.insns.len() - i,
{
    if i < 0 || i >= old.insns.len() {
        true
    } else {
        let (a1, pool1) = alloc_step(a, pool, old.insns[i], i as usize, old.live_ranges, regs);
        demand_ok(a, pool, old.insns[i], i as usize, old.live_ranges, regs) && demands_ok_from(
            old,
            regs,
            i + 1,
            a1,
            pool1,
        )
    }
}

/// Operand lists whose operands have the same widths, one by one, give
/// outputs of the same width.
proof fn lemma_first_num_bits_same(a: Seq<Opnd>, b: Seq<Opnd>, from: int)
    requires
        a.len() == b.len(),
        forall|k: int| 0 <= k < a.len() ==> (#[trigger] a[k]).spec_num_bits() == b[k].spec_num_bits(),
    ensures
        first_num_bits(a, from) == first_num_bits(b, from),
    decreases a.len() - from,
{
    if 0 <= from < a.len() {
        assert(a[from].spec_num_bits() == b[from].spec_num_bits());
        lemma_first_num_bits_same(a, b, from + 1);
    }
}

/// What the list under construction keeps of the old one: the widths of all
/// operands, and for every output that is read a register of its width.
spec fn widths_kept(old: AssemblerView, i: int, a: AssemblerView) -> bool {
    &&& a.insns.len() == i
    &&& forall|j: int|
        0 <= j < i ==> (#[trigger] a.insns[j]).opnds.len() == old.insns[j].opnds.len()
    &&& forall|j: int, k: int|
        0 <= j < i && 0 <= k < a.insns[j].opnds.len() ==> (#[trigger] a.insns[j].opnds[k]).spec_num_bits()
            == old.insns[j].opnds[k].spec_num_bits()
    &&& forall|j: int|
        0 <= j < i && old.live_ranges[j] != j ==> ((#[trigger] a.insns[j]).out matches Opnd::Reg(r) && r.num_bits
            == out_num_bits(old.insns[j].opnds))
}

/// For a list as `push` builds it, a step of the allocator that gets of
/// the registers what it asks is a step that can be done: the outputs that
/// it reads are there with their registers, and the widths still agree.
proof fn lemma_demand_is_enough(old: AssemblerView, regs: Seq<Reg>, i: int, a: AssemblerView, pool: u32)
    requires
        0 <= i < old.insns.len(),
        old.exact(),
        faithful(old),
        all_widths_agree(old),
        widths_kept(old, i, a),
        demand_ok(a, pool, old.insns[i], i as usize, old.live_ranges, regs),
    ensures
        alloc_step_ok(a, pool, old.insns[i], i as usize, old.live_ranges, regs),
        widths_kept(old, i + 1, alloc_step(a, pool, old.insns[i], i as usize, old.live_ranges, regs).0),
{
    let lr = old.live_ranges;
    let insn = old.insns[i];
    let opnds = insn.opnds;
    let new_opnds = rewrite_opnds(a, opnds);
    let (a1, pool1) = alloc_step(a, pool, insn, i as usize, lr, regs);
    lemma_alloc_step_shape(a, pool, insn, i as usize, lr, regs);
    assert forall|k: int| 0 <= k < opnds.len() implies ((#[trigger] opnds[k]).insn_ref() matches Some(j) ==> {
        &&& j < i
        &&& a.insns[j as int].out matches Opnd::Reg(r) && r.num_bits == out_num_bits(old.insns[j as int].opnds)
    }) by {
        assert(old.insns[i].opnds[k] == opnds[k]);
        if let Some(j) = opnds[k].insn_ref() {
            assert(j < i && lr[j as int] >= i);
        }
    }
    assert forall|k: int| 0 <= k < opnds.len() implies rewrite_ok(a, #[trigger] opnds[k]) by {
        assert(opnds[k].insn_ref() matches Some(j) ==> j < i);
    }
    assert forall|k: int| 0 <= k < opnds.len() implies (#[trigger] new_opnds[k]).spec_num_bits()
        == opnds[k].spec_num_bits() by {
        assert(opnds[k].insn_ref() matches Some(j) ==> j < i);
        assert(old.insns[i].opnds[k] == opnds[k]);
        match opnds[k] {
            Opnd::InsnOut { idx, num_bits } => {
                assert(num_bits == out_num_bits(old.insns[idx as int].opnds));
            },
            _ => {},
        }
    }
    assert(widths_agree(new_opnds)) by {
        assert(widths_agree(old.insns[i].opnds));
        assert forall|x: int, y: int|
            0 <= x < new_opnds.len() && 0 <= y < new_opnds.len() && (#[trigger] new_opnds[x]).spec_num_bits() is Some
                && (#[trigger] new_opnds[y]).spec_num_bits() is Some implies new_opnds[x].spec_num_bits()
            == new_opnds[y].spec_num_bits() by {
            assert(new_opnds[x].spec_num_bits() == opnds[x].spec_num_bits());
            assert(new_opnds[y].spec_num_bits() == opnds[y].spec_num_bits());
        }
    }
    assert(reclaim_ok(opnds, a, lr, i as usize));
    lemma_first_num_bits_same(new_opnds, opnds, 0);
    assert(out_num_bits(new_opnds) == out_num_bits(opnds));
    assert forall|j: int| 0 <= j < i + 1 implies (#[trigger] a1.insns[j]).opnds.len()
        == old.insns[j].opnds.len() by {
        if j < i {
            assert(a1.insns[j] == a.insns[j]);
        }
    }
    assert forall|j: int, k: int| 0 <= j < i + 1 && 0 <= k < a1.insns[j].opnds.len() implies (
    #[trigger] a1.insns[j].opnds[k]).spec_num_bits() == old.insns[j].opnds[k].spec_num_bits() by {
        if j < i {
            assert(a1.insns[j] == a.insns[j]);
            assert(a.insns[j].opnds[k].spec_num_bits() == old.insns[j].opnds[k].spec_num_bits());
        } else {
            assert(a1.insns[i].opnds[k] == new_opnds[k]);
        }
    }
    assert forall|j: int| 0 <= j < i + 1 && lr[j] != j implies ((#[trigger] a1.insns[j]).out matches Opnd::Reg(r)
        && r.num_bits == out_num_bits(old.insns[j].opnds)) by {
        if j < i {
            assert(a1.insns[j] == a.insns[j]);
        }
    }
}

proof fn lemma_demands_are_enough(old: AssemblerView, regs: Seq<Reg>, i: int, a: AssemblerView, pool: u32)
    requires
        0 <= i <= old.insns.len(),
        old.exact(),
        faithful(old),
        all_widths_agree(old),
        widths_kept(old, i, a),
        demands_ok_from(old, regs, i, a, pool),
    ensures
        alloc_steps_ok_from(old, regs, i, a, pool),
    decreases old.insns.len() - i,
{
    if i < old.insns.len() {
        let (a1, pool1) = alloc_step(a, pool, old.insns[i], i as usize, old.live_ranges, regs);
        lemma_demand_is_enough(old, regs, i, a, pool);
        lemma_demands_are_enough(old, regs, i + 1, a1, pool1);
    }
}

/// A list as `push` builds it can be allocated with distinct registers if
/// every step gets of the registers what it asks: that none is in use
/// across a call, and that one is free for the output and wide enough.
/// Nothing else can go wrong, and in the end no register is in use.
pub proof fn lemma_allocatable(old: AssemblerView, regs: Seq<Reg>)
    requires
        old.exact(),
        faithful(old),
        all_widths_agree(old),
        regs.len() <= MAX_POOL_REGS,
        distinct_regs(regs),
        demands_ok_from(old, regs, 0, AssemblerView::empty(old.label_names), 0),
    ensures
        allocatable(old, regs),
{
    lemma_demands_are_enough(old, regs, 0, AssemblerView::empty(old.label_names), 0);
    lemma_pool_empties(old, regs);
}

} // verus!
