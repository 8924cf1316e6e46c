//! What legalization guarantees: its output obeys the rules of the
//! platform, and it leaves alone what already obeys them.

use vstd::prelude::*;
use crate::backend::ir::{
    all_widths_agree, AssemblerView, faithful, first_num_bits, InsnView, lemma_empty_exact, lemma_push_exact,
    lemma_push_wf, Op, operand_uses, Opnd, out_num_bits, refs_below, widths_agree,
};
use crate::backend::x86_64::emit::{is_alu, is_csel, is_shift};
use crate::backend::x86_64::split::{
    carried, is_load_op, lives_on, load_args, loads_first, loads_second, map_opnds, min_opnds, promoted,
    settled, split_from, split_insn, split_width, splittable, splittable_insn, x86_split,
};
use crate::backend::x86_64::split::lemma_out_num_bits_one;
use crate::backend::x86_64::{C_ARG_COUNT, spec_c_arg_opnds};

verus! {

/// Whether an instruction at `index` obeys the rules of the platform:
///
/// - a value of the language is an operand of loads only;
/// - an instruction that works in place on its first operand (arithmetic,
///   logic, shift, not) has neither memory nor a register there, nor an
///   output that is read again later;
/// - a comparison or test does not have two memory operands;
/// - a select has no immediate operand, and its first operand is not an
///   output that is read again later;
/// - a move to memory comes neither from memory nor from an immediate that
///   does not fit 32 bits;
/// - a call has no operands: its arguments are in the argument registers.
pub open spec fn legal_insn(insn: InsnView, live_ranges: Seq<usize>, index: usize) -> bool {
    &&& forall|k: int| 0 <= k < insn.opnds.len() ==> ((#[trigger] insn.opnds[k]) is Value ==> is_load_op(insn.op))
    &&& insn.opnds.len() >= min_opnds(insn.op)
    &&& !loads_first(insn.op, insn.opnds, live_ranges, index)
    &&& !loads_second(insn.op, insn.opnds)
    &&& insn.op == Op::CCall ==> insn.opnds.len() == 0
}

/// Whether every instruction of the list obeys the rules of the platform.
pub open spec fn legal(a: AssemblerView) -> bool {
    forall|i: int| 0 <= i < a.insns.len() ==> legal_insn(#[trigger] a.insns[i], a.live_ranges, i as usize)
}

/// Whether each output is the operand that `push` gave it.
pub open spec fn outs_canonical(a: AssemblerView) -> bool {
    forall|i: int|
        0 <= i < a.insns.len() ==> (#[trigger] a.insns[i]).out == (Opnd::InsnOut {
            idx: i as usize,
            num_bits: out_num_bits(a.insns[i].opnds),
        })
}

proof fn lemma_map_opnds_of_legal(a: AssemblerView, op: Op, opnds: Seq<Opnd>, indices: Seq<usize>, n: int)
    requires
        0 <= n <= opnds.len(),
        forall|k: int| 0 <= k < opnds.len() ==> ((#[trigger] opnds[k]) is Value ==> is_load_op(op)),
        refs_below(opnds, indices.len()),
        forall|j: int| 0 <= j < indices.len() ==> (#[trigger] indices[j]) == j,
    ensures
        map_opnds(a, op, opnds, indices, n) == (a, opnds.take(n)),
    decreases n,
{
    if n > 0 {
        lemma_map_opnds_of_legal(a, op, opnds, indices, n - 1);
        let u = opnds[n - 1];
        assert(!promoted(op, u));
        assert(carried(op, u, indices) == u) by {
            if let Some(j) = u.insn_ref() {
                assert(j < indices.len());
                assert(indices[j as int] == j);
            }
        }
        assert(opnds.take(n - 1).push(u) =~= opnds.take(n));
    } else {
        assert(opnds.take(0) =~= Seq::empty());
    }
}

proof fn lemma_split_from_of_legal(old: AssemblerView, i: int, a: AssemblerView, indices: Seq<usize>)
    requires
        old.insns.len() <= usize::MAX,
        0 <= i <= old.insns.len(),
        legal(old),
        old.wf(),
        old.covered(),
        outs_canonical(old),
        a.exact(),
        a.insns == old.insns.take(i),
        a.label_names == old.label_names,
        indices.len() == i,
        forall|j: int| 0 <= j < i ==> (#[trigger] indices[j]) == j,
    ensures
        split_from(old, i, a, indices).insns == old.insns,
        split_from(old, i, a, indices).label_names == old.label_names,
        split_from(old, i, a, indices).exact(),
    decreases old.insns.len() - i,
{
    if i < old.insns.len() {
        let insn = old.insns[i];
        assert(legal_insn(insn, old.live_ranges, i as usize));
        assert(refs_below(insn.opnds, i as nat)) by {
            assert forall|k: int| 0 <= k < insn.opnds.len() implies ((#[trigger] insn.opnds[k]).insn_ref() matches Some(
                j,
            ) ==> j < i) by {
                assert(old.insns[i].opnds[k] == insn.opnds[k]);
            }
        }
        lemma_map_opnds_of_legal(a, insn.op, insn.opnds, indices, insn.opnds.len() as int);
        assert(insn.opnds.take(insn.opnds.len() as int) =~= insn.opnds);
        let a1 = split_insn(a, insn, i as usize, old.live_ranges, indices);
        if insn.op == Op::CCall {
            assert(insn.opnds =~= Seq::empty());
        }
        assert(a1 == a.push(insn));
        lemma_push_exact(a, insn);
        assert(a1.insns =~= old.insns.take(i + 1)) by {
            assert(a1.insns[i] == old.insns[i]);
        }
        let next = indices.push((a1.insns.len() - 1) as usize);
        lemma_split_from_of_legal(old, i + 1, a1, next);
    } else {
        assert(old.insns.take(i) =~= old.insns);
    }
}

/// Two assemblers with the same instructions and exact live ranges have the
/// same live ranges.
pub proof fn lemma_exact_live_ranges_unique(a: AssemblerView, b: AssemblerView)
    requires
        a.exact(),
        b.exact(),
        a.insns == b.insns,
    ensures
        a.live_ranges == b.live_ranges,
{
    assert forall|j: int| 0 <= j < a.live_ranges.len() implies a.live_ranges[j] == b.live_ranges[j] by {
        lemma_live_range_bound(a, b, j);
        lemma_live_range_bound(b, a, j);
    }
    assert(a.live_ranges =~= b.live_ranges);
}

proof fn lemma_live_range_bound(a: AssemblerView, b: AssemblerView, j: int)
    requires
        a.exact(),
        b.exact(),
        a.insns == b.insns,
        0 <= j < a.live_ranges.len(),
    ensures
        a.live_ranges[j] <= b.live_ranges[j],
{
    let q = a.live_ranges[j] as int;
    if q != j {
        assert(operand_uses(a.insns[q].opnds, j as usize));
        let k = choose|k: int|
            0 <= k < a.insns[q].opnds.len() && (#[trigger] a.insns[q].opnds[k]).insn_ref() == Some(j as usize);
        assert(b.insns[q].opnds[k].insn_ref() == Some(j as usize));
    }
}

/// Legalizing a list that already obeys the rules of the platform changes
/// nothing: the same instructions with the same operands come out, and no
/// load is added. (The list has exact live ranges and the outputs that
/// `push` gave, as every list built by `push` has.)
pub proof fn lemma_split_of_legal_is_identity(old: AssemblerView)
    requires
        old.insns.len() <= usize::MAX,
        old.exact(),
        outs_canonical(old),
        legal(old),
    ensures
        x86_split(old) == old,
{
    let start = AssemblerView::empty(old.label_names);
    lemma_empty_exact(old.label_names);
    assert(start.insns =~= old.insns.take(0));
    lemma_split_from_of_legal(old, 0, start, Seq::empty());
    lemma_exact_live_ranges_unique(x86_split(old), old);
}

// How the legalized list hangs together.
//
// The instructions that stand for old instruction `g` form a group: some
// loads, then the instruction itself, at the index that the table `ix` holds
// for `g`. While old instruction `i` is being legalized its group is open:
// it holds loads only, and `ix` has no entry for it yet.

/// Where the group of old instruction `g` starts.
spec fn start(ix: Seq<usize>, g: int) -> int {
    if g <= 0 {
        0
    } else {
        ix[g - 1] + 1
    }
}

/// Whether position `p` lies in the group of old instruction `g`, when the
/// groups before `i` are closed and that of `i` is open.
spec fn in_group(ix: Seq<usize>, i: int, g: int, p: int) -> bool {
    &&& 0 <= g <= i
    &&& start(ix, g) <= p
    &&& g < i ==> p <= ix[g]
}

/// Whether an instruction of group `g` may read the output at `r`: that is
/// a load of the same group, or what stands for an output that old
/// instruction `g` read.
spec fn ref_ok(old: AssemblerView, ix: Seq<usize>, g: int, r: int) -> bool {
    r >= start(ix, g) || exists|j: int|
        0 <= j < g && j < ix.len() && #[trigger] ix[j] == r && operand_uses(old.insns[g].opnds, j as usize)
}

/// Whether the output at `q` may be worked on in place by the instruction of
/// group `g`: it is a load of the same group, or stands for an output whose
/// last reader old instruction `g` was.
spec fn dies_ok(old: AssemblerView, ix: Seq<usize>, g: int, q: int) -> bool {
    q >= start(ix, g) || exists|j: int|
        0 <= j < g && j < ix.len() && #[trigger] ix[j] == q && old.live_ranges[j] <= g
}

/// The opcodes that work in place on their first operand.
spec fn works_on_first(op: Op) -> bool {
    is_alu(op) || is_shift(op) || op == Op::Not || is_csel(op)
}

/// The rules of the platform that speak of one instruction alone.
spec fn static_legal(insn: InsnView) -> bool {
    &&& forall|k: int| 0 <= k < insn.opnds.len() ==> ((#[trigger] insn.opnds[k]) is Value ==> is_load_op(insn.op))
    &&& insn.opnds.len() >= min_opnds(insn.op)
    &&& (is_alu(insn.op) || is_shift(insn.op) || insn.op == Op::Not) ==> !(insn.opnds[0] is Mem)
        && !(insn.opnds[0] is Reg)
    &&& is_csel(insn.op) ==> !(insn.opnds[0] is UImm) && !(insn.opnds[0] is Imm)
    &&& !loads_second(insn.op, insn.opnds)
    &&& insn.op == Op::CCall ==> insn.opnds.len() == 0
}

/// The table is increasing and stays within the list, which ends where the
/// open group starts, or later.
spec fn table_ok(a: AssemblerView, ix: Seq<usize>, i: int) -> bool {
    &&& ix.len() == i
    &&& a.insns.len() <= usize::MAX
    &&& forall|j1: int, j2: int| 0 <= j1 < j2 < i ==> (#[trigger] ix[j1]) < (#[trigger] ix[j2])
    &&& start(ix, i) <= a.insns.len()
}

/// What legalization leaves of an instruction as it is: everything but
/// operands and output.
pub open spec fn same_head(a: InsnView, b: InsnView) -> bool {
    &&& a.op == b.op
    &&& a.text == b.text
    &&& a.target == b.target
    &&& a.pos_marker == b.pos_marker
}

/// The structure of a list under legalization.
spec fn structured(old: AssemblerView, a: AssemblerView, ix: Seq<usize>, i: int) -> bool {
    &&& a.exact()
    &&& table_ok(a, ix, i)
    &&& forall|g: int| 0 <= g < i ==> same_head(a.insns[(#[trigger] ix[g]) as int], old.insns[g])
    &&& forall|p: int| 0 <= p < a.insns.len() ==> static_legal(#[trigger] a.insns[p])
    &&& forall|p: int, g: int|
        0 <= p < a.insns.len() && #[trigger] in_group(ix, i, g, p) && (g == i || p != ix[g]) ==> is_load_op(
            (#[trigger] a.insns[p]).op,
        )
    &&& forall|p: int, k: int, g: int|
        0 <= p < a.insns.len() && 0 <= k < a.insns[p].opnds.len() && #[trigger] in_group(ix, i, g, p) ==> ((
        #[trigger] a.insns[p].opnds[k]).insn_ref() matches Some(r) ==> ref_ok(old, ix, g, r as int))
    &&& forall|g: int|
        0 <= g < i && works_on_first(a.insns[(#[trigger] ix[g]) as int].op) ==> (a.insns[ix[g] as int].opnds[0] matches Opnd::InsnOut {
            idx,
            ..
        } ==> dies_ok(old, ix, g, idx as int))
}

/// A load goes into the open group.
proof fn lemma_push_load(old: AssemblerView, a: AssemblerView, ix: Seq<usize>, i: int, insn: InsnView)
    requires
        structured(old, a, ix, i),
        a.insns.len() < usize::MAX,
        is_load_op(insn.op),
        forall|k: int|
            0 <= k < insn.opnds.len() ==> ((#[trigger] insn.opnds[k]).insn_ref() matches Some(r) ==> r
                < a.insns.len() && ref_ok(old, ix, i, r as int)),
    ensures
        structured(old, a.push(insn), ix, i),
        a.push(insn).insns.len() == a.insns.len() + 1,
{
    let b = a.push(insn);
    let n = a.insns.len() as int;
    lemma_push_wf(a, insn);
    lemma_push_exact(a, insn);
    assert forall|p: int| 0 <= p < b.insns.len() implies static_legal(#[trigger] b.insns[p]) by {
        if p < n {
            assert(b.insns[p] == a.insns[p]);
        }
    }
    assert forall|p: int, g: int|
        0 <= p < b.insns.len() && #[trigger] in_group(ix, i, g, p) && (g == i || p != ix[g]) implies is_load_op(
        (#[trigger] b.insns[p]).op,
    ) by {
        if p < n {
            assert(b.insns[p] == a.insns[p]);
        }
    }
    assert forall|p: int, k: int, g: int|
        0 <= p < b.insns.len() && 0 <= k < b.insns[p].opnds.len() && #[trigger] in_group(ix, i, g, p) implies ((
    #[trigger] b.insns[p].opnds[k]).insn_ref() matches Some(r) ==> ref_ok(old, ix, g, r as int)) by {
        if p < n {
            assert(b.insns[p] == a.insns[p]);
            assert(a.insns[p].opnds[k] == b.insns[p].opnds[k]);
        } else {
            assert(b.insns[p].opnds[k] == insn.opnds[k]);
            if g < i {
                assert(ix[g] < ix[i - 1] || g == i - 1);
            }
        }
    }
    assert forall|g: int| 0 <= g < i && works_on_first(b.insns[(#[trigger] ix[g]) as int].op) implies (b.insns[ix[g] as int].opnds[0] matches Opnd::InsnOut {
        idx,
        ..
    } ==> dies_ok(old, ix, g, idx as int)) by {
        assert(ix[g] <= ix[i - 1]);
        assert(b.insns[ix[g] as int] == a.insns[ix[g] as int]);
    }
    assert forall|g: int| 0 <= g < i implies same_head(b.insns[(#[trigger] ix[g]) as int], old.insns[g]) by {
        assert(ix[g] <= ix[i - 1]);
        assert(b.insns[ix[g] as int] == a.insns[ix[g] as int]);
    }
}

/// What stands for an output in a longer table is what stood for it before.
proof fn lemma_ref_ok_longer(old: AssemblerView, ix: Seq<usize>, next: usize, g: int, r: int)
    requires
        0 <= g <= ix.len(),
    ensures
        ref_ok(old, ix, g, r) ==> ref_ok(old, ix.push(next), g, r),
        dies_ok(old, ix, g, r) ==> dies_ok(old, ix.push(next), g, r),
        start(ix.push(next), g) == start(ix, g),
{
    let ix2 = ix.push(next);
    if ref_ok(old, ix, g, r) && r < start(ix, g) {
        let j = choose|j: int|
            0 <= j < g && j < ix.len() && #[trigger] ix[j] == r && operand_uses(old.insns[g].opnds, j as usize);
        assert(ix2[j] == r);
    }
    if dies_ok(old, ix, g, r) && r < start(ix, g) {
        let j = choose|j: int| 0 <= j < g && j < ix.len() && #[trigger] ix[j] == r && old.live_ranges[j] <= g;
        assert(ix2[j] == r);
    }
}

/// The instruction that stands for old instruction `i` closes its group.
proof fn lemma_push_final(old: AssemblerView, a: AssemblerView, ix: Seq<usize>, i: int, insn: InsnView)
    requires
        structured(old, a, ix, i),
        a.insns.len() < usize::MAX,
        static_legal(insn),
        same_head(insn, old.insns[i]),
        forall|k: int|
            0 <= k < insn.opnds.len() ==> ((#[trigger] insn.opnds[k]).insn_ref() matches Some(r) ==> r
                < a.insns.len() && ref_ok(old, ix, i, r as int)),
        works_on_first(insn.op) ==> (insn.opnds[0] matches Opnd::InsnOut { idx, .. } ==> dies_ok(
            old,
            ix,
            i,
            idx as int,
        )),
    ensures
        structured(old, a.push(insn), ix.push(a.insns.len() as usize), i + 1),
        a.push(insn).insns.len() == a.insns.len() + 1,
{
    let b = a.push(insn);
    let n = a.insns.len() as int;
    let ix2 = ix.push(n as usize);
    lemma_push_wf(a, insn);
    lemma_push_exact(a, insn);
    assert forall|j1: int, j2: int| 0 <= j1 < j2 < i + 1 implies (#[trigger] ix2[j1]) < (#[trigger] ix2[j2]) by {
        if j2 == i {
            assert(ix[j1] <= ix[i - 1]);
        } else {
            assert(ix[j1] < ix[j2]);
        }
    }
    assert forall|p: int| 0 <= p < b.insns.len() implies static_legal(#[trigger] b.insns[p]) by {
        if p < n {
            assert(b.insns[p] == a.insns[p]);
        }
    }
    assert forall|p: int, g: int|
        0 <= p < b.insns.len() && #[trigger] in_group(ix2, i + 1, g, p) && (g == i + 1 || p != ix2[g]) implies is_load_op(
        (#[trigger] b.insns[p]).op,
    ) by {
        assert(g <= i);
        assert(start(ix2, g) == start(ix, g));
        assert(p < n);
        assert(b.insns[p] == a.insns[p]);
        assert(in_group(ix, i, g, p));
    }
    assert forall|p: int, k: int, g: int|
        0 <= p < b.insns.len() && 0 <= k < b.insns[p].opnds.len() && #[trigger] in_group(ix2, i + 1, g, p) implies ((
    #[trigger] b.insns[p].opnds[k]).insn_ref() matches Some(r) ==> ref_ok(old, ix2, g, r as int)) by {
        assert(g <= i);
        assert(start(ix2, g) == start(ix, g));
        if let Some(r) = b.insns[p].opnds[k].insn_ref() {
            lemma_ref_ok_longer(old, ix, n as usize, g, r as int);
            if p < n {
                assert(b.insns[p] == a.insns[p]);
                assert(a.insns[p].opnds[k] == b.insns[p].opnds[k]);
                assert(in_group(ix, i, g, p));
            } else {
                assert(b.insns[p].opnds[k] == insn.opnds[k]);
                if g < i {
                    assert(ix[g] <= ix[i - 1]);
                }
            }
        }
    }
    assert forall|g: int| 0 <= g < i + 1 && works_on_first(b.insns[(#[trigger] ix2[g]) as int].op) implies (b.insns[ix2[g] as int].opnds[0] matches Opnd::InsnOut {
        idx,
        ..
    } ==> dies_ok(old, ix2, g, idx as int)) by {
        if let Opnd::InsnOut { idx, .. } = b.insns[ix2[g] as int].opnds[0] {
            lemma_ref_ok_longer(old, ix, n as usize, g, idx as int);
            if g < i {
                assert(ix[g] <= ix[i - 1]);
                assert(b.insns[ix[g] as int] == a.insns[ix[g] as int]);
                assert(works_on_first(a.insns[ix[g] as int].op));
            } else {
                assert(b.insns[n].opnds == insn.opnds);
            }
        }
    }
    assert forall|g: int| 0 <= g < i + 1 implies same_head(b.insns[(#[trigger] ix2[g]) as int], old.insns[g]) by {
        if g < i {
            assert(ix[g] <= ix[i - 1]);
            assert(b.insns[ix[g] as int] == a.insns[ix[g] as int]);
        }
    }
}

/// Carrying operands over adds instructions, one mapped operand for each
/// operand, and never takes any away.
proof fn lemma_map_opnds_len(a: AssemblerView, op: Op, opnds: Seq<Opnd>, ix: Seq<usize>, n: int)
    requires
        0 <= n,
    ensures
        map_opnds(a, op, opnds, ix, n).0.insns.len() >= a.insns.len(),
        map_opnds(a, op, opnds, ix, n).1.len() == n,
        map_opnds(a, op, opnds, ix, n).0.label_names == a.label_names,
    decreases n,
{
    if n > 0 {
        lemma_map_opnds_len(a, op, opnds, ix, n - 1);
    }
}

proof fn lemma_load_args_len(a: AssemblerView, args: Seq<Opnd>, n: int)
    requires
        0 <= n,
    ensures
        load_args(a, args, n).insns.len() == a.insns.len() + n,
        load_args(a, args, n).label_names == a.label_names,
    decreases n,
{
    if n > 0 {
        lemma_load_args_len(a, args, n - 1);
    }
}

proof fn lemma_split_insn_len(a: AssemblerView, insn: InsnView, index: usize, lr: Seq<usize>, ix: Seq<usize>)
    ensures
        split_insn(a, insn, index, lr, ix).insns.len() > a.insns.len(),
        split_insn(a, insn, index, lr, ix).label_names == a.label_names,
{
    lemma_map_opnds_len(a, insn.op, insn.opnds, ix, insn.opnds.len() as int);
    let (a1, m1) = map_opnds(a, insn.op, insn.opnds, ix, insn.opnds.len() as int);
    if insn.op == Op::CCall {
        lemma_load_args_len(a1, m1, m1.len() as int);
    }
}

proof fn lemma_split_from_len(old: AssemblerView, i: int, a: AssemblerView, ix: Seq<usize>)
    ensures
        split_from(old, i, a, ix).insns.len() >= a.insns.len(),
        split_from(old, i, a, ix).label_names == a.label_names,
    decreases old.insns.len() - i,
{
    if 0 <= i < old.insns.len() {
        let a1 = split_insn(a, old.insns[i], i as usize, old.live_ranges, ix);
        lemma_split_insn_len(a, old.insns[i], i as usize, old.live_ranges, ix);
        lemma_split_from_len(old, i + 1, a1, ix.push((a1.insns.len() - 1) as usize));
    }
}

/// Legalization keeps the names of the labels.
pub proof fn lemma_split_keeps_labels(old: AssemblerView)
    ensures
        x86_split(old).label_names == old.label_names,
{
    lemma_split_from_len(old, 0, AssemblerView::empty(old.label_names), Seq::empty());
}

/// Carrying the operands of old instruction `i` over keeps the structure.
/// Returns, for each operand, the position of the load that was added for
/// it, where one was.
proof fn lemma_map_opnds_structured(old: AssemblerView, a: AssemblerView, ix: Seq<usize>, i: int, n: int) -> (ats: Seq<
    nat,
>)
    requires
        structured(old, a, ix, i),
        0 <= i < old.insns.len(),
        0 <= n <= old.insns[i].opnds.len(),
        refs_below(old.insns[i].opnds, i as nat),
        map_opnds(a, old.insns[i].op, old.insns[i].opnds, ix, n).0.insns.len() <= usize::MAX,
    ensures
        structured(old, map_opnds(a, old.insns[i].op, old.insns[i].opnds, ix, n).0, ix, i),
        map_opnds(a, old.insns[i].op, old.insns[i].opnds, ix, n).0.insns.len() >= a.insns.len(),
        map_opnds(a, old.insns[i].op, old.insns[i].opnds, ix, n).1.len() == n,
        ats.len() == n,
        forall|k: int|
            0 <= k < n ==> start(ix, i) <= (#[trigger] ats[k]) < map_opnds(
                a,
                old.insns[i].op,
                old.insns[i].opnds,
                ix,
                n,
            ).0.insns.len() || !promoted(old.insns[i].op, old.insns[i].opnds[k]),
        forall|k: int|
            0 <= k < n ==> (#[trigger] map_opnds(a, old.insns[i].op, old.insns[i].opnds, ix, n).1[k]) == settled(
                old.insns[i].op,
                old.insns[i].opnds[k],
                ix,
                ats[k],
            ),
        forall|k: int|
            0 <= k < n ==> ((#[trigger] map_opnds(a, old.insns[i].op, old.insns[i].opnds, ix, n).1[k]).insn_ref() matches Some(
                r,
            ) ==> r < map_opnds(a, old.insns[i].op, old.insns[i].opnds, ix, n).0.insns.len() && ref_ok(
                old,
                ix,
                i,
                r as int,
            )),
    decreases n,
{
    let op = old.insns[i].op;
    let opnds = old.insns[i].opnds;
    if n <= 0 {
        Seq::empty()
    } else {
        lemma_map_opnds_len(a, op, opnds, ix, n - 1);
        let (a0, m0) = map_opnds(a, op, opnds, ix, n - 1);
        let (a1, m1) = map_opnds(a, op, opnds, ix, n);
        let u = opnds[n - 1];
        assert(a1.insns.len() >= a0.insns.len());
        let ats0 = lemma_map_opnds_structured(old, a, ix, i, n - 1);
        let ats = ats0.push(a0.insns.len());
        if promoted(op, u) {
            let load = InsnView {
                op: Op::Load,
                text: None,
                opnds: seq![u],
                out: Opnd::Absent,
                target: None,
                pos_marker: None,
            };
            assert(a1 == a0.push(load));
            assert forall|k: int| 0 <= k < load.opnds.len() implies ((#[trigger] load.opnds[k]).insn_ref() matches Some(
                r,
            ) ==> r < a0.insns.len() && ref_ok(old, ix, i, r as int)) by {
                assert(load.opnds[k] == u);
            }
            lemma_push_load(old, a0, ix, i, load);
            lemma_out_num_bits_one(u);
            assert(m1[n - 1] == settled(op, u, ix, a0.insns.len()));
        } else {
            assert(a1 == a0);
            assert(m1[n - 1] == carried(op, u, ix));
            if let Some(r) = m1[n - 1].insn_ref() {
                let j = u.insn_ref()->Some_0;
                assert(u.insn_ref() is Some);
                assert(j < i);
                assert(r == ix[j as int]);
                assert(operand_uses(opnds, j));
                assert(ix[j as int] <= ix[i - 1]);
                assert(ref_ok(old, ix, i, r as int));
            }
        }
        assert forall|k: int| 0 <= k < n implies (#[trigger] m1[k]) == settled(op, opnds[k], ix, ats[k]) by {
            if k < n - 1 {
                assert(m1[k] == m0[k]);
            }
        }
        assert forall|k: int| 0 <= k < n implies ((#[trigger] m1[k]).insn_ref() matches Some(r) ==> r
            < a1.insns.len() && ref_ok(old, ix, i, r as int)) by {
            if k < n - 1 {
                assert(m1[k] == m0[k]);
            }
        }
        assert forall|k: int| 0 <= k < n implies start(ix, i) <= (#[trigger] ats[k]) < a1.insns.len() || !promoted(
            op,
            opnds[k],
        ) by {
            if k < n - 1 {
                assert(ats[k] == ats0[k]);
            }
        }
        ats
    }
}

/// Loading the arguments of a call keeps the structure.
proof fn lemma_load_args_structured(
    old: AssemblerView,
    a: AssemblerView,
    ix: Seq<usize>,
    i: int,
    args: Seq<Opnd>,
    n: int,
)
    requires
        structured(old, a, ix, i),
        0 <= n <= args.len(),
        n <= C_ARG_COUNT,
        forall|k: int|
            0 <= k < args.len() ==> ((#[trigger] args[k]).insn_ref() matches Some(r) ==> r < a.insns.len()
                && ref_ok(old, ix, i, r as int)),
        a.insns.len() + n <= usize::MAX,
    ensures
        structured(old, load_args(a, args, n), ix, i),
        load_args(a, args, n).insns.len() == a.insns.len() + n,
    decreases n,
{
    if n > 0 {
        lemma_load_args_structured(old, a, ix, i, args, n - 1);
        let a0 = load_args(a, args, n - 1);
        let load = InsnView {
            op: Op::LoadInto,
            text: None,
            opnds: seq![spec_c_arg_opnds()[n - 1], args[n - 1]],
            out: Opnd::Absent,
            target: None,
            pos_marker: None,
        };
        assert forall|k: int| 0 <= k < load.opnds.len() implies ((#[trigger] load.opnds[k]).insn_ref() matches Some(
            r,
        ) ==> r < a0.insns.len() && ref_ok(old, ix, i, r as int)) by {
            if k == 0 {
                assert(load.opnds[0] == spec_c_arg_opnds()[n - 1]);
                assert(load.opnds[0] is Reg);
            } else {
                assert(load.opnds[1] == args[n - 1]);
            }
        }
        lemma_push_load(old, a0, ix, i, load);
    }
}

/// The operands of the instruction that stands for an old one: those
/// carried over, with the loads of the first and second operand in place.
spec fn last_opnds(
    op: Op,
    opnds: Seq<Opnd>,
    lr: Seq<usize>,
    index: usize,
    m1: Seq<Opnd>,
    first_out: Opnd,
    second_out: Opnd,
) -> Seq<Opnd> {
    let m2 = if loads_first(op, opnds, lr, index) {
        m1.update(0, first_out)
    } else {
        m1
    };
    if loads_second(op, opnds) {
        m2.update(1, second_out)
    } else {
        m2
    }
}

/// The instruction that stands for an old one obeys the rules that speak
/// of one instruction alone.
proof fn lemma_last_static_legal(
    insn: InsnView,
    lr: Seq<usize>,
    index: usize,
    ix: Seq<usize>,
    m1: Seq<Opnd>,
    ats: Seq<nat>,
    first_out: Opnd,
    second_out: Opnd,
)
    requires
        insn.op != Op::CCall,
        insn.opnds.len() >= min_opnds(insn.op),
        m1.len() == insn.opnds.len(),
        ats.len() == insn.opnds.len(),
        forall|k: int| 0 <= k < m1.len() ==> (#[trigger] m1[k]) == settled(insn.op, insn.opnds[k], ix, ats[k]),
        first_out is InsnOut,
        second_out is InsnOut,
    ensures
        static_legal(
            InsnView { opnds: last_opnds(insn.op, insn.opnds, lr, index, m1, first_out, second_out), ..insn },
        ),
{
    let op = insn.op;
    let opnds = insn.opnds;
    let n = opnds.len() as int;
    let m3 = last_opnds(op, opnds, lr, index, m1, first_out, second_out);
    let last = InsnView { opnds: m3, ..insn };
    assert forall|k: int| 0 <= k < m3.len() && (#[trigger] m3[k]) is Value implies is_load_op(op) by {
        assert(m1[k] == settled(op, opnds[k], ix, ats[k]));
    }
    if n >= 1 {
        assert(m1[0] == settled(op, opnds[0], ix, ats[0]));
    }
    if n >= 2 {
        assert(m1[1] == settled(op, opnds[1], ix, ats[1]));
    }
}

/// The first operand of the instruction that stands for an old one can be
/// worked on in place.
proof fn lemma_last_dies(
    old: AssemblerView,
    ix: Seq<usize>,
    i: int,
    m1: Seq<Opnd>,
    ats: Seq<nat>,
    first_out: Opnd,
    second_out: Opnd,
)
    requires
        0 <= i < old.insns.len(),
        old.wf(),
        ix.len() == i,
        forall|j1: int, j2: int| 0 <= j1 < j2 < i ==> (#[trigger] ix[j1]) < (#[trigger] ix[j2]),
        refs_below(old.insns[i].opnds, i as nat),
        old.insns[i].opnds.len() >= min_opnds(old.insns[i].op),
        works_on_first(old.insns[i].op),
        m1.len() == old.insns[i].opnds.len(),
        ats.len() == old.insns[i].opnds.len(),
        forall|k: int|
            0 <= k < m1.len() ==> (#[trigger] m1[k]) == settled(
                old.insns[i].op,
                old.insns[i].opnds[k],
                ix,
                ats[k],
            ),
        forall|k: int|
            0 <= k < m1.len() ==> start(ix, i) <= (#[trigger] ats[k]) <= usize::MAX || !promoted(
                old.insns[i].op,
                old.insns[i].opnds[k],
            ),
        first_out matches Opnd::InsnOut { idx, .. } && idx >= start(ix, i),
    ensures
        last_opnds(
            old.insns[i].op,
            old.insns[i].opnds,
            old.live_ranges,
            i as usize,
            m1,
            first_out,
            second_out,
        )[0] matches Opnd::InsnOut { idx, .. } ==> dies_ok(old, ix, i, idx as int),
{
    let op = old.insns[i].op;
    let opnds = old.insns[i].opnds;
    let lr = old.live_ranges;
    let m3 = last_opnds(op, opnds, lr, i as usize, m1, first_out, second_out);
    assert(opnds.len() >= 1);
    assert(m1[0] == settled(op, opnds[0], ix, ats[0]));
    if let Opnd::InsnOut { idx, .. } = m3[0] {
        if loads_first(op, opnds, lr, i as usize) {
            assert(m3[0] == first_out);
        } else if promoted(op, opnds[0]) {
            assert(m3[0] == m1[0]);
            assert(start(ix, i) <= ats[0] <= usize::MAX);
            assert(idx == ats[0]);
        } else {
            assert(m3[0] == m1[0]);
            assert(opnds[0] is InsnOut);
            let j = opnds[0]->InsnOut_idx;
            assert(opnds[0].insn_ref() == Some(j));
            assert(j < i);
            assert(idx == ix[j as int]);
            assert(!lives_on(opnds[0], lr, i as usize));
            assert(lr[j as int] <= i);
            assert(dies_ok(old, ix, i, idx as int));
        }
    }
}

/// Loading a mapped operand keeps the structure.
proof fn lemma_load_mapped(old: AssemblerView, a: AssemblerView, ix: Seq<usize>, i: int, opnd: Opnd)
    requires
        structured(old, a, ix, i),
        a.insns.len() < usize::MAX,
        opnd.insn_ref() matches Some(r) ==> r < a.insns.len() && ref_ok(old, ix, i, r as int),
    ensures
        structured(old, a.load(opnd), ix, i),
        a.load(opnd).insns.len() == a.insns.len() + 1,
        a.next_out(seq![opnd]) matches Opnd::InsnOut { idx, .. } && idx == a.insns.len() && idx >= start(ix, i),
{
    let load = InsnView {
        op: Op::Load,
        text: None,
        opnds: seq![opnd],
        out: Opnd::Absent,
        target: None,
        pos_marker: None,
    };
    assert forall|k: int| 0 <= k < load.opnds.len() implies ((#[trigger] load.opnds[k]).insn_ref() matches Some(
        r,
    ) ==> r < a.insns.len() && ref_ok(old, ix, i, r as int)) by {
        assert(load.opnds[k] == opnd);
    }
    lemma_push_load(old, a, ix, i, load);
}

/// Legalizing a call keeps the structure and closes its group.
proof fn lemma_split_call_structured(old: AssemblerView, a: AssemblerView, ix: Seq<usize>, i: int)
    requires
        structured(old, a, ix, i),
        0 <= i < old.insns.len(),
        old.insns[i].op == Op::CCall,
        splittable_insn(old.insns[i], old.live_ranges, i as usize),
        split_insn(a, old.insns[i], i as usize, old.live_ranges, ix).insns.len() <= usize::MAX,
    ensures
        structured(
            old,
            split_insn(a, old.insns[i], i as usize, old.live_ranges, ix),
            ix.push((split_insn(a, old.insns[i], i as usize, old.live_ranges, ix).insns.len() - 1) as usize),
            i + 1,
        ),
{
    let insn = old.insns[i];
    let n = insn.opnds.len() as int;
    lemma_map_opnds_len(a, insn.op, insn.opnds, ix, n);
    let (a1, m1) = map_opnds(a, insn.op, insn.opnds, ix, n);
    lemma_load_args_len(a1, m1, n);
    let ats = lemma_map_opnds_structured(old, a, ix, i, n);
    lemma_load_args_structured(old, a1, ix, i, m1, n);
    let a2 = load_args(a1, m1, n);
    let last = InsnView { opnds: Seq::empty(), ..insn };
    assert(static_legal(last));
    lemma_push_final(old, a2, ix, i, last);
}

/// Legalizing an instruction that is no call keeps the structure and closes
/// its group.
proof fn lemma_split_plain_structured(old: AssemblerView, a: AssemblerView, ix: Seq<usize>, i: int)
    requires
        structured(old, a, ix, i),
        0 <= i < old.insns.len(),
        old.wf(),
        old.insns[i].op != Op::CCall,
        splittable_insn(old.insns[i], old.live_ranges, i as usize),
        split_insn(a, old.insns[i], i as usize, old.live_ranges, ix).insns.len() <= usize::MAX,
    ensures
        structured(
            old,
            split_insn(a, old.insns[i], i as usize, old.live_ranges, ix),
            ix.push((split_insn(a, old.insns[i], i as usize, old.live_ranges, ix).insns.len() - 1) as usize),
            i + 1,
        ),
{
    let insn = old.insns[i];
    let op = insn.op;
    let opnds = insn.opnds;
    let lr = old.live_ranges;
    let n = opnds.len() as int;
    let result = split_insn(a, insn, i as usize, lr, ix);
    lemma_map_opnds_len(a, op, opnds, ix, n);
    let (a1, m1) = map_opnds(a, op, opnds, ix, n);
    let ats = lemma_map_opnds_structured(old, a, ix, i, n);
    let first = loads_first(op, opnds, lr, i as usize);
    let second = loads_second(op, opnds);
    let first_out = a1.next_out(seq![m1[0]]);
    let (a2, m2) = if first {
        (a1.load(m1[0]), m1.update(0, first_out))
    } else {
        (a1, m1)
    };
    let second_out = a2.next_out(seq![m2[1]]);
    let (a3, m3) = if second {
        (a2.load(m2[1]), m2.update(1, second_out))
    } else {
        (a2, m2)
    };
    let last = InsnView { opnds: m3, ..insn };
    assert(result == a3.push(last));
    assert(m3 == last_opnds(op, opnds, lr, i as usize, m1, first_out, second_out));
    if first {
        assert(n >= 1);
        lemma_load_mapped(old, a1, ix, i, m1[0]);
    }
    assert forall|k: int| 0 <= k < n implies ((#[trigger] m2[k]).insn_ref() matches Some(r) ==> r
        < a2.insns.len() && ref_ok(old, ix, i, r as int)) by {
        if first && k == 0 {
        } else {
            assert(m2[k] == m1[k]);
        }
    }
    if second {
        assert(n >= 2);
        lemma_load_mapped(old, a2, ix, i, m2[1]);
    }
    assert forall|k: int| 0 <= k < n implies ((#[trigger] m3[k]).insn_ref() matches Some(r) ==> r
        < a3.insns.len() && ref_ok(old, ix, i, r as int)) by {
        if second && k == 1 {
        } else {
            assert(m3[k] == m2[k]);
        }
    }
    lemma_last_static_legal(insn, lr, i as usize, ix, m1, ats, first_out, second_out);
    if works_on_first(op) {
        assert(ats.len() == n);
        assert forall|k: int| 0 <= k < m1.len() implies start(ix, i) <= (#[trigger] ats[k]) <= usize::MAX
            || !promoted(op, opnds[k]) by {}
        lemma_last_dies(
            old,
            ix,
            i,
            m1,
            ats,
            if first {
                first_out
            } else {
                Opnd::InsnOut { idx: a1.insns.len() as usize, num_bits: 64 }
            },
            second_out,
        );
    }
    lemma_push_final(old, a3, ix, i, last);
}

/// Legalizing the old instructions from `i` on keeps the structure. Returns
/// the table of the whole list.
proof fn lemma_split_from_structured(old: AssemblerView, i: int, a: AssemblerView, ix: Seq<usize>) -> (table: Seq<
    usize,
>)
    requires
        structured(old, a, ix, i),
        a.insns.len() == start(ix, i),
        0 <= i <= old.insns.len(),
        old.wf(),
        splittable(old),
        split_from(old, i, a, ix).insns.len() <= usize::MAX,
    ensures
        structured(old, split_from(old, i, a, ix), table, old.insns.len() as int),
        split_from(old, i, a, ix).insns.len() == start(table, old.insns.len() as int),
    decreases old.insns.len() - i,
{
    if i < old.insns.len() {
        let insn = old.insns[i];
        let a1 = split_insn(a, insn, i as usize, old.live_ranges, ix);
        let ix1 = ix.push((a1.insns.len() - 1) as usize);
        lemma_split_insn_len(a, insn, i as usize, old.live_ranges, ix);
        lemma_split_from_len(old, i + 1, a1, ix1);
        if insn.op == Op::CCall {
            lemma_split_call_structured(old, a, ix, i);
        } else {
            lemma_split_plain_structured(old, a, ix, i);
        }
        lemma_split_from_structured(old, i + 1, a1, ix1)
    } else {
        ix
    }
}

/// Every position before the open group lies in a closed group.
proof fn lemma_owner(ix: Seq<usize>, i: int, p: int) -> (g: int)
    requires
        0 <= i <= ix.len(),
        0 <= p < start(ix, i),
        forall|j1: int, j2: int| 0 <= j1 < j2 < i ==> (#[trigger] ix[j1]) < (#[trigger] ix[j2]),
    ensures
        0 <= g < i,
        start(ix, g) <= p <= ix[g],
    decreases i,
{
    if p >= start(ix, i - 1) {
        i - 1
    } else {
        lemma_owner(ix, i - 1, p)
    }
}

/// In a structured list whose groups are all closed, an output that an
/// instruction works on in place is not read again later.
proof fn lemma_structured_dies(old: AssemblerView, s: AssemblerView, ix: Seq<usize>, p: int)
    requires
        structured(old, s, ix, old.insns.len() as int),
        s.insns.len() == start(ix, old.insns.len() as int),
        old.covered(),
        0 <= p < s.insns.len(),
        works_on_first(s.insns[p].op),
        s.insns[p].opnds.len() >= 1,
        s.insns[p].opnds[0] is InsnOut,
    ensures
        !lives_on(s.insns[p].opnds[0], s.live_ranges, p as usize),
{
    let n = old.insns.len() as int;
    let q = s.insns[p].opnds[0]->InsnOut_idx as int;
    assert(s.insns[p].opnds[0].insn_ref() == Some(q as usize));
    assert(q < p);
    let later = s.live_ranges[q] as int;
    if later > p {
        let g = lemma_owner(ix, n, p);
        assert(in_group(ix, n, g, p));
        assert(!is_load_op(s.insns[p].op));
        assert(p == ix[g]);
        assert(dies_ok(old, ix, g, q));
        assert(operand_uses(s.insns[later].opnds, q as usize));
        let k = choose|k: int|
            0 <= k < s.insns[later].opnds.len() && (#[trigger] s.insns[later].opnds[k]).insn_ref() == Some(
                q as usize,
            );
        let g2 = lemma_owner(ix, n, later);
        assert(in_group(ix, n, g2, later));
        assert(ref_ok(old, ix, g2, q));
        // The later reader is in a later group.
        if g2 < g {
            assert(ix[g2] < ix[g]);
        }
        assert(g2 > g);
        assert(ix[g] <= ix[g2 - 1]);
        assert(q < start(ix, g2));
        let j2 = choose|j: int|
            0 <= j < g2 && j < ix.len() && #[trigger] ix[j] == q && operand_uses(old.insns[g2].opnds, j as usize);
        let k2 = choose|k: int|
            0 <= k < old.insns[g2].opnds.len() && (#[trigger] old.insns[g2].opnds[k]).insn_ref() == Some(
                j2 as usize,
            );
        assert(old.live_ranges[j2] >= g2);
        if q >= start(ix, g) {
            // A load of the group of `p` stands for no old instruction.
            if j2 < g {
                if j2 < g - 1 {
                    assert(ix[j2] < ix[g - 1]);
                }
            } else if j2 > g {
                assert(ix[g] < ix[j2]);
            }
            assert(false);
        } else {
            let j = choose|j: int| 0 <= j < g && j < ix.len() && #[trigger] ix[j] == q && old.live_ranges[j] <= g;
            if j < j2 {
                assert(ix[j] < ix[j2]);
            } else if j2 < j {
                assert(ix[j2] < ix[j]);
            }
            assert(false);
        }
    }
}

/// Legalization keeps every instruction, in order, and adds nothing but
/// loads. Returns the table that says where each old instruction stands in
/// the new list: there it is with its opcode, text, target and marker, and
/// every instruction at another place is a load.
pub proof fn lemma_split_keeps_instructions(old: AssemblerView) -> (table: Seq<usize>)
    requires
        old.wf(),
        splittable(old),
        x86_split(old).insns.len() <= usize::MAX,
    ensures
        table.len() == old.insns.len(),
        forall|j1: int, j2: int| 0 <= j1 < j2 < table.len() ==> (#[trigger] table[j1]) < (#[trigger] table[j2]),
        forall|g: int|
            0 <= g < table.len() ==> (#[trigger] table[g]) < x86_split(old).insns.len() && same_head(
                x86_split(old).insns[table[g] as int],
                old.insns[g],
            ),
        forall|p: int|
            0 <= p < x86_split(old).insns.len() && (forall|g: int| 0 <= g < table.len() ==> p != #[trigger] table[g])
                ==> is_load_op((#[trigger] x86_split(old).insns[p]).op),
        old.insns.len() > 0 ==> x86_split(old).insns.len() == table[old.insns.len() - 1] + 1,
{
    let s = x86_split(old);
    let n = old.insns.len() as int;
    let empty = AssemblerView::empty(old.label_names);
    lemma_empty_exact(old.label_names);
    assert(structured(old, empty, Seq::empty(), 0));
    let ix = lemma_split_from_structured(old, 0, empty, Seq::empty());
    assert forall|g: int| 0 <= g < ix.len() implies (#[trigger] ix[g]) < s.insns.len() && same_head(
        s.insns[ix[g] as int],
        old.insns[g],
    ) by {
        assert(ix[g] <= ix[n - 1]);
    }
    assert forall|p: int|
        0 <= p < s.insns.len() && (forall|g: int| 0 <= g < ix.len() ==> p != #[trigger] ix[g]) implies is_load_op(
        (#[trigger] s.insns[p]).op,
    ) by {
        let g = lemma_owner(ix, n, p);
        assert(in_group(ix, n, g, p));
        assert(p != ix[g]);
    }
    ix
}

/// What legalization puts out obeys the rules of the platform: no
/// instruction works in place on memory, on a register or on an output that
/// is read again; none has two memory operands or an immediate where the
/// platform takes none; values of the language are operands of loads only;
/// calls have their arguments in registers.
///
/// (The list that goes in has live ranges that cover every read, as every
/// list built by `push` has, and what comes out is no longer than a `usize`
/// counts.)
pub proof fn lemma_split_is_legal(old: AssemblerView)
    requires
        old.wf(),
        old.covered(),
        splittable(old),
        x86_split(old).insns.len() <= usize::MAX,
    ensures
        legal(x86_split(old)),
        x86_split(old).exact(),
{
    let s = x86_split(old);
    let n = old.insns.len() as int;
    let empty = AssemblerView::empty(old.label_names);
    lemma_empty_exact(old.label_names);
    assert(structured(old, empty, Seq::empty(), 0));
    let ix = lemma_split_from_structured(old, 0, empty, Seq::empty());
    assert forall|p: int| 0 <= p < s.insns.len() implies legal_insn(#[trigger] s.insns[p], s.live_ranges, p as usize) by {
        let insn = s.insns[p];
        assert(static_legal(insn));
        if works_on_first(insn.op) {
            assert(insn.opnds.len() >= 1);
            if insn.opnds[0] is InsnOut {
                lemma_structured_dies(old, s, ix, p);
            }
            if is_csel(insn.op) {
                assert(!(insn.opnds[0] is Value));
            }
        }
    }
}

// How the widths come through.

/// Whether an operand that is an output carries the width of the
/// instruction of `a` that it names.
spec fn wide_ok(a: AssemblerView, opnd: Opnd) -> bool {
    opnd matches Opnd::InsnOut { idx, num_bits } ==> idx < a.insns.len() && num_bits == out_num_bits(
        a.insns[idx as int].opnds,
    )
}

/// The widths in a list under legalization: the operands of each
/// instruction agree, each reference carries the width of the output that
/// it names, and what stands for an old instruction has an output as wide
/// as that had.
spec fn widthwise(old: AssemblerView, a: AssemblerView, ix: Seq<usize>, i: int) -> bool {
    &&& all_widths_agree(a)
    &&& faithful(a)
    &&& forall|g: int|
        0 <= g < i ==> (#[trigger] ix[g]) < a.insns.len() && out_num_bits(a.insns[ix[g] as int].opnds)
            == out_num_bits(old.insns[g].opnds)
}

/// An instruction whose operands agree and carry the right widths keeps the
/// widths in order.
proof fn lemma_push_widthwise(old: AssemblerView, a: AssemblerView, ix: Seq<usize>, i: int, insn: InsnView)
    requires
        widthwise(old, a, ix, i),
        a.covered(),
        ix.len() >= i,
        a.insns.len() < usize::MAX,
        widths_agree(insn.opnds),
        forall|k: int| 0 <= k < insn.opnds.len() ==> wide_ok(a, #[trigger] insn.opnds[k]),
    ensures
        widthwise(old, a.push(insn), ix, i),
        forall|opnd: Opnd| wide_ok(a, opnd) ==> wide_ok(a.push(insn), opnd),
        wide_ok(a.push(insn), a.next_out(insn.opnds)),
{
    let b = a.push(insn);
    let n = a.insns.len() as int;
    assert forall|p: int| 0 <= p < b.insns.len() implies widths_agree((#[trigger] b.insns[p]).opnds) by {
        if p < n {
            assert(b.insns[p] == a.insns[p]);
        }
    }
    assert forall|p: int, k: int| 0 <= p < b.insns.len() && 0 <= k < b.insns[p].opnds.len() implies ((
    #[trigger] b.insns[p].opnds[k]) matches Opnd::InsnOut { idx, num_bits } ==> num_bits == out_num_bits(
        b.insns[idx as int].opnds,
    )) by {
        if p < n {
            assert(b.insns[p] == a.insns[p]);
            assert(a.insns[p].opnds[k] == b.insns[p].opnds[k]);
            // What an instruction of `a` names lies in `a`.
            if let Opnd::InsnOut { idx, num_bits } = a.insns[p].opnds[k] {
                assert(a.insns[p].opnds[k].insn_ref() == Some(idx));
                assert(idx < p);
                assert(num_bits == out_num_bits(a.insns[idx as int].opnds));
                assert(b.insns[idx as int] == a.insns[idx as int]);
            }
        } else {
            assert(b.insns[p].opnds[k] == insn.opnds[k]);
            assert(wide_ok(a, insn.opnds[k]));
            if let Opnd::InsnOut { idx, num_bits } = insn.opnds[k] {
                assert(b.insns[idx as int] == a.insns[idx as int]);
            }
        }
    }
    assert forall|g: int| 0 <= g < i implies (#[trigger] ix[g]) < b.insns.len() && out_num_bits(
        b.insns[ix[g] as int].opnds,
    ) == out_num_bits(old.insns[g].opnds) by {
        assert(b.insns[ix[g] as int] == a.insns[ix[g] as int]);
    }
    assert forall|opnd: Opnd| wide_ok(a, opnd) implies wide_ok(b, opnd) by {
        if let Opnd::InsnOut { idx, num_bits } = opnd {
            assert(b.insns[idx as int] == a.insns[idx as int]);
        }
    }
}

/// The width that `first_num_bits` finds is that of an operand.
proof fn lemma_first_num_bits_witness(opnds: Seq<Opnd>, from: int) -> (k: int)
    requires
        0 <= from,
        first_num_bits(opnds, from) is Some,
    ensures
        from <= k < opnds.len(),
        opnds[k].spec_num_bits() == first_num_bits(opnds, from),
    decreases opnds.len() - from,
{
    if opnds[from].spec_num_bits() is Some {
        from
    } else {
        lemma_first_num_bits_witness(opnds, from + 1)
    }
}

/// Where operands keep their widths, and operands without one get none or
/// 64 bits, and the new operands agree, the first width found is the same.
proof fn lemma_first_width_kept(old_opnds: Seq<Opnd>, new_opnds: Seq<Opnd>, from: int)
    requires
        0 <= from,
        old_opnds.len() == new_opnds.len(),
        forall|k: int|
            0 <= k < old_opnds.len() ==> ((#[trigger] old_opnds[k]).spec_num_bits() is Some
                ==> new_opnds[k].spec_num_bits() == old_opnds[k].spec_num_bits()),
        forall|k: int|
            0 <= k < old_opnds.len() ==> ((#[trigger] old_opnds[k]).spec_num_bits() is None
                ==> new_opnds[k].spec_num_bits() is None || new_opnds[k].spec_num_bits() == Some(64u8)),
        widths_agree(new_opnds),
    ensures
        first_num_bits(old_opnds, from) is Some ==> first_num_bits(new_opnds, from) == first_num_bits(
            old_opnds,
            from,
        ),
        first_num_bits(old_opnds, from) is None ==> first_num_bits(new_opnds, from) is None || first_num_bits(
            new_opnds,
            from,
        ) == Some(64u8),
    decreases old_opnds.len() - from,
{
    if from < old_opnds.len() {
        lemma_first_width_kept(old_opnds, new_opnds, from + 1);
        if old_opnds[from].spec_num_bits() is None && new_opnds[from].spec_num_bits() is Some
            && first_num_bits(old_opnds, from + 1) is Some {
            let k = lemma_first_num_bits_witness(new_opnds, from + 1);
            assert(new_opnds[from].spec_num_bits() is Some && new_opnds[k].spec_num_bits() is Some);
        }
    }
}

/// The widths of the operands of the instruction that stands for an old
/// one are those that `split_width` names.
proof fn lemma_last_widths(
    insn: InsnView,
    lr: Seq<usize>,
    index: usize,
    ix: Seq<usize>,
    m1: Seq<Opnd>,
    ats: Seq<nat>,
    first_out: Opnd,
    second_out: Opnd,
)
    requires
        insn.op != Op::CCall,
        insn.opnds.len() >= min_opnds(insn.op),
        m1.len() == insn.opnds.len(),
        ats.len() == insn.opnds.len(),
        forall|k: int| 0 <= k < m1.len() ==> (#[trigger] m1[k]) == settled(insn.op, insn.opnds[k], ix, ats[k]),
        loads_first(insn.op, insn.opnds, lr, index) ==> first_out.spec_num_bits() == Some(
            out_num_bits(seq![m1[0]]),
        ),
        loads_second(insn.op, insn.opnds) ==> second_out.spec_num_bits() == Some(out_num_bits(seq![m1[1]])),
    ensures
        forall|k: int|
            0 <= k < m1.len() ==> (#[trigger] last_opnds(
                insn.op,
                insn.opnds,
                lr,
                index,
                m1,
                first_out,
                second_out,
            )[k]).spec_num_bits() == split_width(insn, lr, index, k),
{
    let op = insn.op;
    let opnds = insn.opnds;
    let m3 = last_opnds(op, opnds, lr, index, m1, first_out, second_out);
    assert forall|k: int| 0 <= k < m1.len() implies (#[trigger] m3[k]).spec_num_bits() == split_width(
        insn,
        lr,
        index,
        k,
    ) by {
        assert(m1[k] == settled(op, opnds[k], ix, ats[k]));
        if k == 0 && loads_first(op, opnds, lr, index) {
            lemma_out_num_bits_one(m1[0]);
        }
        if k == 1 && loads_second(op, opnds) {
            lemma_out_num_bits_one(m1[1]);
        }
    }
}

/// The operands of the instruction that stands for an old one agree in
/// width, and its output is as wide as the old one.
proof fn lemma_last_out_width(insn: InsnView, lr: Seq<usize>, index: usize, m3: Seq<Opnd>)
    requires
        insn.op != Op::CCall,
        splittable_insn(insn, lr, index),
        m3.len() == insn.opnds.len(),
        forall|k: int| 0 <= k < m3.len() ==> (#[trigger] m3[k]).spec_num_bits() == split_width(insn, lr, index, k),
    ensures
        widths_agree(m3),
        out_num_bits(m3) == out_num_bits(insn.opnds),
{
    assert forall|x: int, y: int|
        0 <= x < m3.len() && 0 <= y < m3.len() && (#[trigger] m3[x]).spec_num_bits() is Some && (
        #[trigger] m3[y]).spec_num_bits() is Some implies m3[x].spec_num_bits() == m3[y].spec_num_bits() by {
        assert(m3[x].spec_num_bits() == split_width(insn, lr, index, x));
        assert(m3[y].spec_num_bits() == split_width(insn, lr, index, y));
    }
    assert forall|k: int|
        0 <= k < insn.opnds.len() && (#[trigger] insn.opnds[k]).spec_num_bits() is Some implies m3[k].spec_num_bits()
        == insn.opnds[k].spec_num_bits() by {
        assert(m3[k].spec_num_bits() == split_width(insn, lr, index, k));
    }
    assert forall|k: int|
        0 <= k < insn.opnds.len() && (#[trigger] insn.opnds[k]).spec_num_bits() is None implies m3[k].spec_num_bits()
        is None || m3[k].spec_num_bits() == Some(64u8) by {
        assert(m3[k].spec_num_bits() == split_width(insn, lr, index, k));
    }
    lemma_first_width_kept(insn.opnds, m3, 0);
}

/// The output of a call whose arguments are 64 bits wide, where they have
/// a width, is 64 bits wide.
proof fn lemma_call_out_width(opnds: Seq<Opnd>)
    requires
        forall|k: int| 0 <= k < opnds.len() ==> ((#[trigger] opnds[k]).spec_num_bits() matches Some(w) ==> w == 64),
    ensures
        out_num_bits(opnds) == 64,
        out_num_bits(Seq::<Opnd>::empty()) == 64,
{
    if first_num_bits(opnds, 0) is Some {
        let k = lemma_first_num_bits_witness(opnds, 0);
        assert(opnds[k].spec_num_bits() is Some);
    }
}

/// Closing a group with an instruction whose output is as wide as that of
/// the old one keeps the widths in order.
proof fn lemma_close_widthwise(old: AssemblerView, a: AssemblerView, ix: Seq<usize>, i: int, insn: InsnView)
    requires
        widthwise(old, a, ix, i),
        a.covered(),
        ix.len() == i,
        a.insns.len() < usize::MAX,
        widths_agree(insn.opnds),
        forall|k: int| 0 <= k < insn.opnds.len() ==> wide_ok(a, #[trigger] insn.opnds[k]),
        out_num_bits(insn.opnds) == out_num_bits(old.insns[i].opnds),
    ensures
        widthwise(old, a.push(insn), ix.push(a.insns.len() as usize), i + 1),
{
    lemma_push_widthwise(old, a, ix, i, insn);
    let b = a.push(insn);
    let ix2 = ix.push(a.insns.len() as usize);
    assert forall|g: int| 0 <= g < i + 1 implies (#[trigger] ix2[g]) < b.insns.len() && out_num_bits(
        b.insns[ix2[g] as int].opnds,
    ) == out_num_bits(old.insns[g].opnds) by {
        if g < i {
            assert(ix2[g] == ix[g]);
        }
    }
}

/// Carrying the operands of old instruction `i` over keeps the widths in
/// order, and each operand that comes out carries the right width.
proof fn lemma_map_opnds_widthwise(old: AssemblerView, a: AssemblerView, ix: Seq<usize>, i: int, n: int)
    requires
        structured(old, a, ix, i),
        widthwise(old, a, ix, i),
        faithful(old),
        old.covered(),
        0 <= i < old.insns.len(),
        0 <= n <= old.insns[i].opnds.len(),
        refs_below(old.insns[i].opnds, i as nat),
        map_opnds(a, old.insns[i].op, old.insns[i].opnds, ix, n).0.insns.len() <= usize::MAX,
    ensures
        widthwise(old, map_opnds(a, old.insns[i].op, old.insns[i].opnds, ix, n).0, ix, i),
        forall|k: int|
            0 <= k < n ==> wide_ok(
                map_opnds(a, old.insns[i].op, old.insns[i].opnds, ix, n).0,
                #[trigger] map_opnds(a, old.insns[i].op, old.insns[i].opnds, ix, n).1[k],
            ),
    decreases n,
{
    let op = old.insns[i].op;
    let opnds = old.insns[i].opnds;
    if n > 0 {
        lemma_map_opnds_len(a, op, opnds, ix, n - 1);
        lemma_map_opnds_len(a, op, opnds, ix, n);
        let (a0, m0) = map_opnds(a, op, opnds, ix, n - 1);
        let (a1, m1) = map_opnds(a, op, opnds, ix, n);
        let u = opnds[n - 1];
        assert(a1.insns.len() >= a0.insns.len());
        lemma_map_opnds_widthwise(old, a, ix, i, n - 1);
        let ats0 = lemma_map_opnds_structured(old, a, ix, i, n - 1);
        if promoted(op, u) {
            let load = InsnView {
                op: Op::Load,
                text: None,
                opnds: seq![u],
                out: Opnd::Absent,
                target: None,
                pos_marker: None,
            };
            assert(a1 == a0.push(load));
            assert forall|k: int| 0 <= k < load.opnds.len() implies wide_ok(a0, #[trigger] load.opnds[k]) by {
                assert(load.opnds[k] == u);
            }
            assert(widths_agree(load.opnds)) by {
                assert forall|x: int| 0 <= x < load.opnds.len() implies (#[trigger] load.opnds[x]).spec_num_bits()
                    is None by {
                    assert(load.opnds[x] == u);
                }
            }
            lemma_push_widthwise(old, a0, ix, i, load);
            assert(m1[n - 1] == a0.next_out(seq![u]));
        } else {
            assert(a1 == a0);
            assert(m1[n - 1] == carried(op, u, ix));
            if let Opnd::InsnOut { idx, num_bits } = m1[n - 1] {
                assert(u is InsnOut);
                let j = u->InsnOut_idx;
                assert(u.insn_ref() == Some(j));
                assert(j < i);
                assert(idx == ix[j as int]);
                assert(old.insns[i].opnds[n - 1] == u);
                assert(num_bits == out_num_bits(old.insns[j as int].opnds));
            }
        }
        assert forall|k: int| 0 <= k < n implies wide_ok(a1, #[trigger] m1[k]) by {
            if k < n - 1 {
                assert(m1[k] == m0[k]);
                assert(wide_ok(a0, m0[k]));
            }
        }
    }
}

/// A list of one operand agrees with itself.
proof fn lemma_one_agrees(opnd: Opnd)
    ensures
        widths_agree(seq![opnd]),
{
    assert forall|x: int, y: int| 0 <= x < seq![opnd].len() && 0 <= y < seq![opnd].len() implies (
    #[trigger] seq![opnd][x]) == (#[trigger] seq![opnd][y]) by {}
}

/// Loading an operand that carries the right width keeps the widths in
/// order, and so does the output of the load.
proof fn lemma_load_widthwise(old: AssemblerView, a: AssemblerView, ix: Seq<usize>, i: int, opnd: Opnd)
    requires
        widthwise(old, a, ix, i),
        a.covered(),
        ix.len() >= i,
        a.insns.len() < usize::MAX,
        wide_ok(a, opnd),
    ensures
        widthwise(old, a.load(opnd), ix, i),
        forall|other: Opnd| wide_ok(a, other) ==> wide_ok(a.load(opnd), other),
        wide_ok(a.load(opnd), a.next_out(seq![opnd])),
        a.next_out(seq![opnd]).spec_num_bits() == Some(out_num_bits(seq![opnd])),
{
    let load = InsnView {
        op: Op::Load,
        text: None,
        opnds: seq![opnd],
        out: Opnd::Absent,
        target: None,
        pos_marker: None,
    };
    lemma_one_agrees(opnd);
    assert forall|k: int| 0 <= k < load.opnds.len() implies wide_ok(a, #[trigger] load.opnds[k]) by {
        assert(load.opnds[k] == opnd);
    }
    lemma_push_widthwise(old, a, ix, i, load);
}

/// Loading the arguments of a call keeps the widths in order.
proof fn lemma_load_args_widthwise(
    old: AssemblerView,
    a: AssemblerView,
    ix: Seq<usize>,
    i: int,
    args: Seq<Opnd>,
    n: int,
)
    requires
        structured(old, a, ix, i),
        widthwise(old, a, ix, i),
        0 <= n <= args.len(),
        n <= C_ARG_COUNT,
        forall|k: int|
            0 <= k < args.len() ==> ((#[trigger] args[k]).insn_ref() matches Some(r) ==> r < a.insns.len()
                && ref_ok(old, ix, i, r as int)),
        forall|k: int| 0 <= k < args.len() ==> wide_ok(a, #[trigger] args[k]),
        forall|k: int| 0 <= k < args.len() ==> ((#[trigger] args[k]).spec_num_bits() matches Some(w) ==> w == 64),
        a.insns.len() + n <= usize::MAX,
    ensures
        widthwise(old, load_args(a, args, n), ix, i),
    decreases n,
{
    if n > 0 {
        lemma_load_args_widthwise(old, a, ix, i, args, n - 1);
        lemma_load_args_structured(old, a, ix, i, args, n - 1);
        lemma_load_args_wide(a, args, n - 1);
        let a0 = load_args(a, args, n - 1);
        let reg = spec_c_arg_opnds()[n - 1];
        let load = InsnView {
            op: Op::LoadInto,
            text: None,
            opnds: seq![reg, args[n - 1]],
            out: Opnd::Absent,
            target: None,
            pos_marker: None,
        };
        assert(reg.spec_num_bits() == Some(64u8));
        assert forall|k: int| 0 <= k < load.opnds.len() implies wide_ok(a0, #[trigger] load.opnds[k]) by {
            if k == 1 {
                assert(load.opnds[1] == args[n - 1]);
                assert(wide_ok(a, args[n - 1]));
            }
        }
        assert forall|x: int, y: int|
            0 <= x < load.opnds.len() && 0 <= y < load.opnds.len() && (#[trigger] load.opnds[x]).spec_num_bits() is Some
                && (#[trigger] load.opnds[y]).spec_num_bits() is Some implies load.opnds[x].spec_num_bits()
            == load.opnds[y].spec_num_bits() by {
            assert(load.opnds[0] == reg);
            assert(load.opnds[1] == args[n - 1]);
        }
        lemma_push_widthwise(old, a0, ix, i, load);
    }
}

/// What carried the right width before the arguments were loaded still
/// does.
proof fn lemma_load_args_wide(a: AssemblerView, args: Seq<Opnd>, n: int)
    requires
        0 <= n,
    ensures
        forall|opnd: Opnd| wide_ok(a, opnd) ==> wide_ok(load_args(a, args, n), opnd),
    decreases n,
{
    if n > 0 {
        lemma_load_args_wide(a, args, n - 1);
        lemma_load_args_len(a, args, n - 1);
        let a0 = load_args(a, args, n - 1);
        let a1 = load_args(a, args, n);
        assert forall|opnd: Opnd| wide_ok(a, opnd) implies wide_ok(a1, opnd) by {
            assert(wide_ok(a0, opnd));
            if let Opnd::InsnOut { idx, num_bits } = opnd {
                assert(a1.insns[idx as int] == a0.insns[idx as int]);
            }
        }
    }
}

/// Legalizing old instruction `i` keeps the widths in order.
proof fn lemma_split_insn_widthwise(old: AssemblerView, a: AssemblerView, ix: Seq<usize>, i: int)
    requires
        structured(old, a, ix, i),
        widthwise(old, a, ix, i),
        faithful(old),
        old.covered(),
        0 <= i < old.insns.len(),
        old.wf(),
        splittable_insn(old.insns[i], old.live_ranges, i as usize),
        split_insn(a, old.insns[i], i as usize, old.live_ranges, ix).insns.len() <= usize::MAX,
    ensures
        widthwise(
            old,
            split_insn(a, old.insns[i], i as usize, old.live_ranges, ix),
            ix.push((split_insn(a, old.insns[i], i as usize, old.live_ranges, ix).insns.len() - 1) as usize),
            i + 1,
        ),
{
    let insn = old.insns[i];
    let op = insn.op;
    let opnds = insn.opnds;
    let lr = old.live_ranges;
    let n = opnds.len() as int;
    lemma_split_insn_len(a, insn, i as usize, lr, ix);
    lemma_map_opnds_len(a, op, opnds, ix, n);
    let (a1, m1) = map_opnds(a, op, opnds, ix, n);
    if op == Op::CCall {
        lemma_load_args_len(a1, m1, n);
    }
    let ats = lemma_map_opnds_structured(old, a, ix, i, n);
    lemma_map_opnds_widthwise(old, a, ix, i, n);
    if op == Op::CCall {
        assert forall|k: int| 0 <= k < m1.len() implies ((#[trigger] m1[k]).spec_num_bits() matches Some(w) ==> w
            == 64) by {
            assert(m1[k] == settled(op, opnds[k], ix, ats[k]));
            assert(opnds[k].spec_num_bits() matches Some(w) ==> w == 64);
        }
        lemma_load_args_structured(old, a1, ix, i, m1, n);
        lemma_load_args_widthwise(old, a1, ix, i, m1, n);
        let a2 = load_args(a1, m1, n);
        let last = InsnView { opnds: Seq::empty(), ..insn };
        lemma_call_out_width(opnds);
        assert(widths_agree(last.opnds));
        lemma_close_widthwise(old, a2, ix, i, last);
    } else {
        let first = loads_first(op, opnds, lr, i as usize);
        let second = loads_second(op, opnds);
        let first_out = a1.next_out(seq![m1[0]]);
        let (a2, m2) = if first {
            (a1.load(m1[0]), m1.update(0, first_out))
        } else {
            (a1, m1)
        };
        let second_out = a2.next_out(seq![m2[1]]);
        let (a3, m3) = if second {
            (a2.load(m2[1]), m2.update(1, second_out))
        } else {
            (a2, m2)
        };
        let last = InsnView { opnds: m3, ..insn };
        assert(m3 == last_opnds(op, opnds, lr, i as usize, m1, first_out, second_out));
        if first {
            assert(n >= 1);
            lemma_load_mapped(old, a1, ix, i, m1[0]);
            lemma_load_widthwise(old, a1, ix, i, m1[0]);
        }
        assert forall|k: int| 0 <= k < n implies wide_ok(a2, #[trigger] m2[k]) by {
            if first && k == 0 {
            } else {
                assert(m2[k] == m1[k]);
                assert(wide_ok(a1, m1[k]));
            }
        }
        assert forall|k: int| 0 <= k < n implies ((#[trigger] m2[k]).insn_ref() matches Some(r) ==> r
            < a2.insns.len() && ref_ok(old, ix, i, r as int)) by {
            if first && k == 0 {
            } else {
                assert(m2[k] == m1[k]);
            }
        }
        if second {
            assert(n >= 2);
            assert(m2[1] == m1[1]);
            lemma_load_mapped(old, a2, ix, i, m2[1]);
            lemma_load_widthwise(old, a2, ix, i, m2[1]);
        }
        assert forall|k: int| 0 <= k < n implies wide_ok(a3, #[trigger] m3[k]) by {
            if second && k == 1 {
            } else {
                assert(m3[k] == m2[k]);
                assert(wide_ok(a2, m2[k]));
            }
        }
        lemma_last_widths(insn, lr, i as usize, ix, m1, ats, first_out, second_out);
        lemma_last_out_width(insn, lr, i as usize, m3);
        lemma_close_widthwise(old, a3, ix, i, last);
    }
}

/// Legalizing the old instructions from `i` on keeps structure and widths.
/// Returns the table of the whole list.
proof fn lemma_split_from_widthwise(old: AssemblerView, i: int, a: AssemblerView, ix: Seq<usize>) -> (table: Seq<
    usize,
>)
    requires
        structured(old, a, ix, i),
        widthwise(old, a, ix, i),
        a.insns.len() == start(ix, i),
        0 <= i <= old.insns.len(),
        old.wf(),
        old.covered(),
        faithful(old),
        splittable(old),
        split_from(old, i, a, ix).insns.len() <= usize::MAX,
    ensures
        structured(old, split_from(old, i, a, ix), table, old.insns.len() as int),
        widthwise(old, split_from(old, i, a, ix), table, old.insns.len() as int),
    decreases old.insns.len() - i,
{
    if i < old.insns.len() {
        let insn = old.insns[i];
        let a1 = split_insn(a, insn, i as usize, old.live_ranges, ix);
        let ix1 = ix.push((a1.insns.len() - 1) as usize);
        lemma_split_insn_len(a, insn, i as usize, old.live_ranges, ix);
        lemma_split_from_len(old, i + 1, a1, ix1);
        if insn.op == Op::CCall {
            lemma_split_call_structured(old, a, ix, i);
        } else {
            lemma_split_plain_structured(old, a, ix, i);
        }
        lemma_split_insn_widthwise(old, a, ix, i);
        lemma_split_from_widthwise(old, i + 1, a1, ix1)
    } else {
        ix
    }
}

/// What legalization puts out is a list as `push` builds it: its live
/// ranges are exact, the operands of each instruction agree in width, and
/// every reference to an output carries the width of that output. So it is
/// for the registers alone to decide whether it can be allocated.
pub proof fn lemma_split_keeps_widths(old: AssemblerView)
    requires
        old.wf(),
        old.covered(),
        faithful(old),
        splittable(old),
        x86_split(old).insns.len() <= usize::MAX,
    ensures
        x86_split(old).exact(),
        all_widths_agree(x86_split(old)),
        faithful(x86_split(old)),
{
    let empty = AssemblerView::empty(old.label_names);
    lemma_empty_exact(old.label_names);
    assert(structured(old, empty, Seq::empty(), 0));
    assert(widthwise(old, empty, Seq::empty(), 0));
    let ix = lemma_split_from_widthwise(old, 0, empty, Seq::empty());
}

} // verus!
