//! Legalization: rewrites the instruction list so that every instruction has
//! a form that x86-64 can encode and that does not overwrite a value still
//! in use.

use vstd::prelude::*;
use crate::backend::ir::{
    Assembler, AssemblerDrainingIterator, AssemblerView, first_num_bits, Insn, InsnView, Op,
    operands_below, Opnd, out_num_bits, refs_below,
};
use crate::backend::x86_64::{C_ARG_COUNT, c_arg_opnds, spec_c_arg_opnds};
use crate::backend::x86_64::emit::{is_alu, is_csel, is_shift};
use crate::encoder::{imm_num_bits, spec_imm_num_bits};
use crate::value::Value;

verus! {

/// The loads, whose operand is carried over as it is.
pub open spec fn is_load_op(op: Op) -> bool {
    op == Op::Load || op == Op::LoadInto
}

/// Whether a value cannot stand as an immediate of an instruction: it is a
/// reference to a heap object, which the emitter has to record, or it does
/// not fit 32 bits with sign.
pub open spec fn promotes(val: Value) -> bool {
    !val.is_special_const() || spec_imm_num_bits(val.spec_as_i64()) > 32
}

/// Whether an immediate does not fit the 32-bit field of a move to memory.
pub open spec fn wide_imm(opnd: Opnd) -> bool {
    match opnd {
        Opnd::UImm(value) => spec_imm_num_bits(value as i64) > 32,
        Opnd::Imm(value) => spec_imm_num_bits(value) > 32,
        _ => false,
    }
}

/// Whether an operand is the output of an instruction that is read again
/// after instruction `index`.
pub open spec fn lives_on(opnd: Opnd, live_ranges: Seq<usize>, index: usize) -> bool {
    opnd matches Opnd::InsnOut { idx, .. } && live_ranges[idx as int] > index
}

/// Whether an instruction that overwrites its first operand would destroy
/// something: memory, a register, or an output that is read again later.
pub open spec fn clobbers(opnd: Opnd, live_ranges: Seq<usize>, index: usize) -> bool {
    opnd is Mem || opnd is Reg || lives_on(opnd, live_ranges, index)
}

/// Number of operands that legalization reads of an instruction.
pub open spec fn min_opnds(op: Op) -> nat {
    if is_alu(op) || is_shift(op) || is_csel(op) || op == Op::Cmp || op == Op::Test || op == Op::Mov {
        2
    } else if op == Op::Not {
        1
    } else {
        0
    }
}

/// What becomes of operand `unmapped` before the rules of the opcode are
/// applied: a value that can stand as an immediate becomes one; every other
/// operand is carried over with its reference renumbered. (A value that
/// cannot stand as an immediate is loaded; that is not this function's
/// business.)
pub open spec fn carried(op: Op, unmapped: Opnd, indices: Seq<usize>) -> Opnd {
    match unmapped {
        Opnd::Value(val) => if is_load_op(op) {
            unmapped
        } else {
            Opnd::UImm(val.0)
        },
        _ => unmapped.spec_map_index(indices),
    }
}

/// Whether the operand is a value that is loaded before the instruction.
pub open spec fn promoted(op: Op, unmapped: Opnd) -> bool {
    !is_load_op(op) && (unmapped matches Opnd::Value(val) && promotes(val))
}

/// The assembler under construction and the operands of the instruction
/// after the first `n` operands were carried over.
pub open spec fn map_opnds(a: AssemblerView, op: Op, opnds: Seq<Opnd>, indices: Seq<usize>, n: int) -> (
    AssemblerView,
    Seq<Opnd>,
)
    decreases n,
{
    if n <= 0 {
        (a, Seq::empty())
    } else {
        let (a1, mapped) = map_opnds(a, op, opnds, indices, n - 1);
        if promoted(op, opnds[n - 1]) {
            (a1.load(opnds[n - 1]), mapped.push(a1.next_out(seq![opnds[n - 1]])))
        } else {
            (a1, mapped.push(carried(op, opnds[n - 1], indices)))
        }
    }
}

/// Whether the first operand is loaded into a fresh register before the
/// instruction. `unmapped` are the operands as they stood in the old list.
pub open spec fn loads_first(op: Op, unmapped: Seq<Opnd>, live_ranges: Seq<usize>, index: usize) -> bool {
    if is_alu(op) || is_shift(op) || op == Op::Not {
        clobbers(unmapped[0], live_ranges, index)
    } else if is_csel(op) {
        lives_on(unmapped[0], live_ranges, index) || unmapped[0] is UImm || unmapped[0] is Imm
            || unmapped[0] is Value
    } else {
        false
    }
}

/// Whether the second operand is loaded into a fresh register before the
/// instruction. `unmapped` are the operands as they stood in the old list.
pub open spec fn loads_second(op: Op, unmapped: Seq<Opnd>) -> bool {
    if op == Op::Cmp || op == Op::Test {
        unmapped[0] is Mem && unmapped[1] is Mem
    } else if is_csel(op) {
        unmapped[1] is UImm || unmapped[1] is Imm || (unmapped[1] matches Opnd::Value(val) && !promotes(val))
    } else if op == Op::Mov {
        unmapped[0] is Mem && (unmapped[1] is Mem || wide_imm(unmapped[1]))
    } else {
        false
    }
}

/// The assembler after the first `n` arguments of a call were loaded into
/// their argument registers.
pub open spec fn load_args(a: AssemblerView, args: Seq<Opnd>, n: int) -> AssemblerView
    decreases n,
{
    if n <= 0 {
        a
    } else {
        load_args(a, args, n - 1).push_op(Op::LoadInto, seq![spec_c_arg_opnds()[n - 1], args[n - 1]])
    }
}

/// The assembler under construction after one instruction of the old list
/// was legalized into it.
pub open spec fn split_insn(
    a: AssemblerView,
    insn: InsnView,
    index: usize,
    live_ranges: Seq<usize>,
    indices: Seq<usize>,
) -> AssemblerView {
    let (a1, m1) = map_opnds(a, insn.op, insn.opnds, indices, insn.opnds.len() as int);
    if insn.op == Op::CCall {
        load_args(a1, m1, m1.len() as int).push(InsnView { opnds: Seq::empty(), ..insn })
    } else {
        let (a2, m2) = if loads_first(insn.op, insn.opnds, live_ranges, index) {
            (a1.load(m1[0]), m1.update(0, a1.next_out(seq![m1[0]])))
        } else {
            (a1, m1)
        };
        let (a3, m3) = if loads_second(insn.op, insn.opnds) {
            (a2.load(m2[1]), m2.update(1, a2.next_out(seq![m2[1]])))
        } else {
            (a2, m2)
        };
        a3.push(InsnView { opnds: m3, ..insn })
    }
}

/// The assembler under construction after the instructions of `old` from
/// index `i` on were legalized into it.
pub open spec fn split_from(old: AssemblerView, i: int, a: AssemblerView, indices: Seq<usize>) -> AssemblerView
    decreases old.insns.len() - i,
{
    if i < 0 || i >= old.insns.len() {
        a
    } else {
        let a1 = split_insn(a, old.insns[i], i as usize, old.live_ranges, indices);
        split_from(old, i + 1, a1, indices.push((a1.insns.len() - 1) as usize))
    }
}

/// The legalized form of an instruction list.
pub open spec fn x86_split(old: AssemblerView) -> AssemblerView {
    split_from(old, 0, AssemblerView::empty(old.label_names), Seq::empty())
}

/// The width of operand `k` of the instruction that legalization puts in
/// place of `insn`: a loaded operand has the width of what was loaded, 64
/// bits where that has none.
pub open spec fn split_width(insn: InsnView, live_ranges: Seq<usize>, index: usize, k: int) -> Option<u8> {
    let loaded = promoted(insn.op, insn.opnds[k]) || (k == 0 && loads_first(
        insn.op,
        insn.opnds,
        live_ranges,
        index,
    )) || (k == 1 && loads_second(insn.op, insn.opnds));
    if insn.opnds[k] is Value && !is_load_op(insn.op) {
        if loaded {
            Some(64u8)
        } else {
            None
        }
    } else if loaded && insn.opnds[k].spec_num_bits() is None {
        Some(64u8)
    } else {
        insn.opnds[k].spec_num_bits()
    }
}

/// Whether an instruction at `index` of a list can be legalized: it reads
/// only earlier instructions, has the operands that its opcode needs, and
/// the operands of the instruction that replaces it agree in width. A call
/// has no more arguments than there are argument registers, each 64 bits
/// wide or an immediate.
pub open spec fn splittable_insn(insn: InsnView, live_ranges: Seq<usize>, index: usize) -> bool {
    &&& refs_below(insn.opnds, index as nat)
    &&& insn.opnds.len() >= min_opnds(insn.op)
    &&& if insn.op == Op::CCall {
        &&& insn.opnds.len() <= C_ARG_COUNT
        &&& forall|k: int|
            0 <= k < insn.opnds.len() ==> ((#[trigger] insn.opnds[k]).spec_num_bits() matches Some(w) ==> w
                == 64)
    } else {
        forall|j: int, k: int|
            0 <= j < insn.opnds.len() && 0 <= k < insn.opnds.len() ==> (#[trigger] split_width(
                insn,
                live_ranges,
                index,
                j,
            ) is Some && #[trigger] split_width(insn, live_ranges, index, k) is Some ==> split_width(
                insn,
                live_ranges,
                index,
                j,
            ) == split_width(insn, live_ranges, index, k))
    }
}

/// Whether every instruction of the list can be legalized.
pub open spec fn splittable(old: AssemblerView) -> bool {
    forall|i: int|
        0 <= i < old.insns.len() ==> splittable_insn(#[trigger] old.insns[i], old.live_ranges, i as usize)
}

/// The output of an instruction with one operand has that operand's width,
/// or 64 bits where it has none.
pub proof fn lemma_out_num_bits_one(opnd: Opnd)
    ensures
        out_num_bits(seq![opnd]) == match opnd.spec_num_bits() {
            Some(w) => w,
            None => 64u8,
        },
{
    reveal_with_fuel(first_num_bits, 3);
}

/// The operand that stands for an old operand once it was carried over:
/// the output of its load, at position `at`, where it was loaded first.
pub open spec fn settled(op: Op, unmapped: Opnd, indices: Seq<usize>, at: nat) -> Opnd {
    if promoted(op, unmapped) {
        Opnd::InsnOut { idx: at as usize, num_bits: 64 }
    } else {
        carried(op, unmapped, indices)
    }
}

fn load_if_clobbered(opnd: Opnd, live_ranges: &Vec<usize>, index: usize) -> (b: bool)
    requires
        opnd matches Opnd::InsnOut { idx, .. } ==> idx < live_ranges@.len(),
    ensures
        b == clobbers(opnd, live_ranges@, index),
{
    match opnd {
        Opnd::InsnOut { idx, .. } => live_ranges[idx] > index,
        Opnd::Mem(_) => true,
        Opnd::Reg(_) => true,
        _ => false,
    }
}

fn is_wide_imm(opnd: Opnd) -> (b: bool)
    ensures
        b == wide_imm(opnd),
{
    match opnd {
        Opnd::UImm(value) => imm_num_bits(value as i64) > 32,
        Opnd::Imm(value) => imm_num_bits(value) > 32,
        _ => false,
    }
}

fn is_mem(opnd: Opnd) -> (b: bool)
    ensures
        b == (opnd is Mem),
{
    match opnd {
        Opnd::Mem(_) => true,
        _ => false,
    }
}

fn is_raw_imm(opnd: Opnd) -> (b: bool)
    ensures
        b == (opnd is UImm || opnd is Imm),
{
    match opnd {
        Opnd::UImm(_) => true,
        Opnd::Imm(_) => true,
        _ => false,
    }
}

fn op_is_alu(op: Op) -> (b: bool)
    ensures
        b == is_alu(op),
{
    op == Op::Add || op == Op::Sub || op == Op::And || op == Op::Or || op == Op::Xor
}

fn op_is_shift(op: Op) -> (b: bool)
    ensures
        b == is_shift(op),
{
    op == Op::LShift || op == Op::RShift || op == Op::URShift
}

fn op_is_csel(op: Op) -> (b: bool)
    ensures
        b == is_csel(op),
{
    op == Op::CSelZ || op == Op::CSelNZ || op == Op::CSelE || op == Op::CSelNE || op == Op::CSelL || op
        == Op::CSelLE || op == Op::CSelG || op == Op::CSelGE
}

/// Legalizes one instruction of the old list into the assembler under
/// construction.
fn split_one(
    target: &mut Assembler,
    iterator: &AssemblerDrainingIterator,
    live_ranges: &Vec<usize>,
    index: usize,
    insn: Insn,
)
    requires
        old(target)@.wf(),
        splittable_insn(insn@, live_ranges@, index),
        index <= live_ranges@.len(),
        iterator@.indices.len() == index,
        forall|j: int| 0 <= j < iterator@.indices.len() ==> (#[trigger] iterator@.indices[j]) < old(
            target,
        )@.insns.len(),
    ensures
        final(target)@ == split_insn(old(target)@, insn@, index, live_ranges@, iterator@.indices),
        final(target)@.wf(),
        final(target)@.insns.len() > old(target)@.insns.len(),
{
    let ghost iv = insn@;
    let ghost indices = iterator@.indices;
    let ghost lr = live_ranges@;
    let Insn { op, text, opnds, out: _, target: jump_target, pos_marker } = insn;
    let is_load = op == Op::Load || op == Op::LoadInto;
    let n = opnds.len();

    // Carry the operands over. Values that cannot stand as immediates are
    // loaded here, so that the emitter finds them in loads only.
    let mut mapped: Vec<Opnd> = Vec::new();
    let ghost mut ats: Seq<nat> = Seq::empty();
    let mut k: usize = 0;
    while k < n
        invariant
            ats.len() == k,
            k <= n,
            n == opnds@.len(),
            opnds@ == iv.opnds,
            op == iv.op,
            is_load == is_load_op(op),
            indices == iterator@.indices,
            refs_below(opnds@, indices.len()),
            target@.wf(),
            target@.insns.len() >= old(target)@.insns.len(),
            forall|j: int| 0 <= j < indices.len() ==> (#[trigger] indices[j]) < target@.insns.len(),
            (target@, mapped@) == map_opnds(old(target)@, op, opnds@, indices, k as int),
            mapped@.len() == k,
            refs_below(mapped@, target@.insns.len()),
            forall|j: int| 0 <= j < k ==> (#[trigger] mapped@[j]) == settled(op, opnds@[j], indices, ats[j]),
        decreases n - k,
    {
        let opnd = opnds[k];
        assert(opnd == opnds@[k as int]);
        let ghost before = target@;
        let ghost prev = mapped@;
        let promote = !is_load && match opnd {
            Opnd::Value(value) => !value.special_const_p() || imm_num_bits(value.as_i64()) > 32,
            _ => false,
        };
        let next = if promote {
            proof {
                lemma_out_num_bits_one(opnd);
            }
            target.load(iterator.map_opnd(opnd))
        } else {
            match opnd {
                Opnd::Value(value) => {
                    if is_load {
                        opnd
                    } else {
                        Opnd::UImm(value.as_u64())
                    }
                },
                _ => iterator.map_opnd(opnd),
            }
        };
        mapped.push(next);
        proof {
            assert(next == settled(op, opnd, indices, before.insns.len()));
            ats = ats.push(before.insns.len());
            assert forall|j: int| 0 <= j < k + 1 implies (#[trigger] mapped@[j]) == settled(
                op,
                opnds@[j],
                indices,
                ats[j],
            ) by {
                if j < k {
                    assert(mapped@[j] == prev[j]);
                }
            }
            assert forall|j: int| 0 <= j < mapped@.len() implies ((#[trigger] mapped@[j]).insn_ref() matches Some(
                r,
            ) ==> r < target@.insns.len()) by {
                if j < k {
                    assert(prev[j] == mapped@[j]);
                }
            }
        }
        k += 1;
    }
    let ghost a1 = target@;
    let ghost m1 = mapped@;

    if op == Op::CCall {
        let args = c_arg_opnds();
        let mut idx: usize = 0;
        while idx < n
            invariant
                idx <= n,
                n == mapped@.len(),
                n <= C_ARG_COUNT,
                args@ == spec_c_arg_opnds(),
                mapped@ == m1,
                opnds@ == iv.opnds,
                op == Op::CCall,
                target@.wf(),
                target@.insns.len() >= a1.insns.len(),
                refs_below(m1, a1.insns.len()),
                target@ == load_args(a1, m1, idx as int),
                n == opnds@.len(),
                ats.len() == n,
                forall|j: int| 0 <= j < n ==> (#[trigger] m1[j]) == settled(op, opnds@[j], indices, ats[j]),
                forall|j: int| 0 <= j < n ==> ((#[trigger] opnds@[j]).spec_num_bits() matches Some(w) ==> w == 64),
            decreases n - idx,
        {
            let arg = mapped[idx];
            let reg = args[idx];
            proof {
                assert(arg == m1[idx as int]);
                assert(opnds@[idx as int].spec_num_bits() matches Some(w) ==> w == 64);
                assert(arg.spec_num_bits() matches Some(w) ==> w == 64);
                assert(reg.spec_num_bits() == Some(64u8));
                assert(seq![reg, arg][0] == reg);
                assert(seq![reg, arg][1] == arg);
            }
            target.load_into(reg, arg);
            idx += 1;
        }
        target.push_insn_parts(op, Vec::new(), jump_target, text, pos_marker);
        return ;
    }
    let first = if op_is_alu(op) || op_is_shift(op) || op == Op::Not {
        load_if_clobbered(opnds[0], live_ranges, index)
    } else if op_is_csel(op) {
        match opnds[0] {
            Opnd::InsnOut { idx, .. } => live_ranges[idx] > index,
            Opnd::UImm(_) => true,
            Opnd::Imm(_) => true,
            Opnd::Value(_) => true,
            _ => false,
        }
    } else {
        false
    };
    assert(first == loads_first(op, opnds@, lr, index));
    if first {
        proof {
            lemma_out_num_bits_one(mapped@[0]);
        }
        let loaded = target.load(mapped[0]);
        mapped.set(0, loaded);
    }
    let ghost a2 = target@;
    let ghost m2 = mapped@;
    proof {
        if n >= 2 {
            assert(m2[1] == m1[1]);
            assert(m1[1] == settled(op, opnds@[1], indices, ats[1]));
        }
        if n >= 1 {
            assert(m1[0] == settled(op, opnds@[0], indices, ats[0]));
        }
    }
    let second = if op == Op::Cmp || op == Op::Test {
        is_mem(mapped[0]) && is_mem(mapped[1])
    } else if op_is_csel(op) {
        is_raw_imm(mapped[1])
    } else if op == Op::Mov {
        is_mem(mapped[0]) && (is_mem(mapped[1]) || is_wide_imm(mapped[1]))
    } else {
        false
    };
    assert(second == loads_second(op, opnds@));
    if second {
        proof {
            lemma_out_num_bits_one(mapped@[1]);
        }
        let loaded = target.load(mapped[1]);
        mapped.set(1, loaded);
    }
    proof {
        let m3 = mapped@;
        assert forall|j: int| 0 <= j < m3.len() implies (#[trigger] m3[j]).spec_num_bits() == split_width(
            iv,
            lr,
            index,
            j,
        ) by {
            assert(m1[j] == settled(op, opnds@[j], indices, ats[j]));
            if j == 0 {
            } else if j == 1 {
                assert(m2[1] == m1[1]);
            } else {
                assert(m3[j] == m1[j]);
            }
        }
        assert forall|x: int, y: int|
            0 <= x < m3.len() && 0 <= y < m3.len() && (#[trigger] m3[x]).spec_num_bits() is Some
                && (#[trigger] m3[y]).spec_num_bits() is Some implies m3[x].spec_num_bits()
            == m3[y].spec_num_bits() by {
            assert(m3[x].spec_num_bits() == split_width(iv, lr, index, x));
            assert(m3[y].spec_num_bits() == split_width(iv, lr, index, y));
        }
        assert forall|j: int| 0 <= j < m3.len() implies ((#[trigger] m3[j]).insn_ref() matches Some(r) ==> r
            < target@.insns.len()) by {
            if j >= 2 {
                assert(m3[j] == m1[j]);
            } else if j == 1 {
                if !second {
                    assert(m3[1] == m1[1]);
                }
            } else {
                if !first {
                    assert(m2[0] == m1[0]);
                }
            }
        }
    }
    target.push_insn_parts(op, mapped, jump_target, text, pos_marker);
}

impl Assembler {
    /// Legalizes the instructions for x86-64. Where the form of an
    /// instruction cannot be encoded, or would overwrite a value still in
    /// use, the offending operand is first loaded into a fresh register.
    pub fn x86_split(self) -> (r: Assembler)
        requires
            self@.wf(),
            splittable(self@),
        ensures
            r@ == x86_split(self@),
            r@.wf(),
    {
        let ghost old = self@;
        let Assembler { insns, live_ranges, label_names } = self;
        let mut target = Assembler::new_with_label_names(label_names);
        let drained = Assembler { insns, live_ranges: Vec::new(), label_names: Vec::new() };
        assert(drained@.insns =~= old.insns);
        let mut iterator = drained.into_draining_iter();
        loop
            invariant
                iterator.wf(),
                iterator@.index <= old.insns.len(),
                iterator@.remaining == old.insns.skip(iterator@.index as int),
                iterator@.indices.len() == iterator@.index,
                forall|j: int| 0 <= j < iterator@.indices.len() ==> (#[trigger] iterator@.indices[j])
                    < target@.insns.len(),
                target@.wf(),
                live_ranges@ == old.live_ranges,
                old.wf(),
                splittable(old),
                split_from(old, iterator@.index as int, target@, iterator@.indices) == x86_split(old),
            ensures
                target@ == x86_split(old),
                target@.wf(),
            decreases old.insns.len() - iterator@.index,
        {
            let ghost i = iterator@.index as int;
            let ghost before = iterator@;
            match iterator.next_unmapped() {
                None => {
                    assert(i == old.insns.len());
                    break ;
                },
                Some((index, insn)) => {
                    assert(i < old.insns.len());
                    assert(insn@ == old.insns[i]);
                    assert(old.insns.skip(i).drop_first() =~= old.insns.skip(i + 1));
                    split_one(&mut target, &iterator, &live_ranges, index, insn);
                    iterator.map_insn_index(&mut target);
                },
            }
        }
        target
    }
}

fn min_opnds_of(op: Op) -> (n: usize)
    ensures
        n == min_opnds(op),
{
    if op_is_alu(op) || op_is_shift(op) || op_is_csel(op) || op == Op::Cmp || op == Op::Test || op == Op::Mov {
        2
    } else if op == Op::Not {
        1
    } else {
        0
    }
}

fn is_promoted(op: Op, opnd: Opnd) -> (b: bool)
    ensures
        b == promoted(op, opnd),
{
    if op == Op::Load || op == Op::LoadInto {
        false
    } else {
        match opnd {
            Opnd::Value(value) => !value.special_const_p() || imm_num_bits(value.as_i64()) > 32,
            _ => false,
        }
    }
}

fn first_is_loaded(op: Op, opnds: &Vec<Opnd>, live_ranges: &Vec<usize>, index: usize) -> (b: bool)
    requires
        opnds@.len() >= min_opnds(op),
        refs_below(opnds@, index as nat),
        index <= live_ranges@.len(),
    ensures
        b == loads_first(op, opnds@, live_ranges@, index),
{
    if op_is_alu(op) || op_is_shift(op) || op == Op::Not {
        assert(opnds@[0].insn_ref() matches Some(r) ==> r < index);
        load_if_clobbered(opnds[0], live_ranges, index)
    } else if op_is_csel(op) {
        assert(opnds@[0].insn_ref() matches Some(r) ==> r < index);
        match opnds[0] {
            Opnd::InsnOut { idx, .. } => live_ranges[idx] > index,
            Opnd::UImm(_) => true,
            Opnd::Imm(_) => true,
            Opnd::Value(_) => true,
            _ => false,
        }
    } else {
        false
    }
}

fn second_is_loaded(op: Op, opnds: &Vec<Opnd>) -> (b: bool)
    requires
        opnds@.len() >= min_opnds(op),
    ensures
        b == loads_second(op, opnds@),
{
    if op == Op::Cmp || op == Op::Test {
        is_mem(opnds[0]) && is_mem(opnds[1])
    } else if op_is_csel(op) {
        match opnds[1] {
            Opnd::UImm(_) => true,
            Opnd::Imm(_) => true,
            Opnd::Value(value) => !(!value.special_const_p() || imm_num_bits(value.as_i64()) > 32),
            _ => false,
        }
    } else if op == Op::Mov {
        is_mem(opnds[0]) && (is_mem(opnds[1]) || is_wide_imm(opnds[1]))
    } else {
        false
    }
}

/// Whether the instruction at `index` of a list with the given live ranges
/// can be legalized.
pub fn is_splittable_insn(insn: &Insn, live_ranges: &Vec<usize>, index: usize) -> (b: bool)
    requires
        index <= live_ranges@.len(),
    ensures
        b == splittable_insn(insn@, live_ranges@, index),
{
    let op = insn.op;
    let n = insn.opnds.len();
    if !operands_below(&insn.opnds, index) {
        return false;
    }
    if n < min_opnds_of(op) {
        return false;
    }
    if op == Op::CCall {
        if n > C_ARG_COUNT {
            return false;
        }
        let mut k: usize = 0;
        while k < n
            invariant
                k <= n,
                n == insn.opnds@.len(),
                insn.op == Op::CCall,
                n <= C_ARG_COUNT,
                refs_below(insn.opnds@, index as nat),
                forall|j: int|
                    0 <= j < k ==> ((#[trigger] insn.opnds@[j]).spec_num_bits() matches Some(w) ==> w == 64),
            decreases n - k,
        {
            match insn.opnds[k].num_bits() {
                Some(w) => {
                    if w != 64 {
                        assert(insn.opnds@[k as int].spec_num_bits() == Some(w));
                        return false;
                    }
                },
                None => {},
            }
            k += 1;
        }
        return true;
    }
    let first = first_is_loaded(op, &insn.opnds, live_ranges, index);
    let second = second_is_loaded(op, &insn.opnds);
    let is_load = op == Op::Load || op == Op::LoadInto;
    let mut seen: Option<u8> = None;
    let mut k: usize = 0;
    while k < n
        invariant
            k <= n,
            n == insn.opnds@.len(),
            op == insn.op,
            is_load == is_load_op(op),
            first == loads_first(op, insn.opnds@, live_ranges@, index),
            second == loads_second(op, insn.opnds@),
            forall|j: int|
                0 <= j < k ==> (#[trigger] split_width(insn@, live_ranges@, index, j) is Some ==> split_width(
                    insn@,
                    live_ranges@,
                    index,
                    j,
                ) == seen),
            seen is Some ==> exists|j: int| 0 <= j < k && #[trigger] split_width(insn@, live_ranges@, index, j) == seen,
        decreases n - k,
    {
        let opnd = insn.opnds[k];
        let loaded = is_promoted(op, opnd) || (k == 0 && first) || (k == 1 && second);
        let is_value = match opnd {
            Opnd::Value(_) => true,
            _ => false,
        };
        let width: Option<u8> = if is_value && !is_load {
            if loaded {
                Some(64)
            } else {
                None
            }
        } else {
            match opnd.num_bits() {
                Some(w) => Some(w),
                None => if loaded {
                    Some(64)
                } else {
                    None
                },
            }
        };
        assert(width == split_width(insn@, live_ranges@, index, k as int));
        match width {
            Some(w) => {
                match seen {
                    Some(s) => {
                        if s != w {
                            proof {
                                let j = choose|j: int|
                                    0 <= j < k && #[trigger] split_width(insn@, live_ranges@, index, j) == seen;
                                assert(split_width(insn@, live_ranges@, index, j) is Some);
                                assert(split_width(insn@, live_ranges@, index, k as int) is Some);
                            }
                            return false;
                        }
                    },
                    None => {
                        seen = Some(w);
                    },
                }
            },
            None => {},
        }
        k += 1;
    }
    true
}

impl Assembler {
    /// Whether every instruction of the list can be legalized.
    pub fn is_splittable(&self) -> (b: bool)
        requires
            self@.wf(),
        ensures
            b == splittable(self@),
    {
        let n = self.insns.len();
        let mut i: usize = 0;
        while i < n
            invariant
                i <= n,
                n == self.insns@.len(),
                n == self.live_ranges@.len(),
                forall|j: int|
                    0 <= j < i ==> splittable_insn(#[trigger] self@.insns[j], self@.live_ranges, j as usize),
            decreases n - i,
        {
            if !is_splittable_insn(&self.insns[i], &self.live_ranges, i) {
                assert(!splittable_insn(self@.insns[i as int], self@.live_ranges, i as usize));
                return false;
            }
            i += 1;
        }
        true
    }
}

} // verus!
