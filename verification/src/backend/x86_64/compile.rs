//! The whole way from an instruction list to machine code.

use vstd::prelude::*;
use crate::backend::ir::{Assembler, AssemblerView};
use crate::backend::regalloc::{alloc_regs, allocatable, MAX_POOL_REGS};
use crate::backend::x86_64::emit::{emit_from, emittable};
use crate::backend::x86_64::split::{splittable, x86_split};
use crate::backend::x86_64::{Reg, spec_alloc_regs};
use crate::encoder::x86_64::JMP_PTR_LEN;
use crate::encoder::{CodeBlock, CodeBlockView};

verus! {

/// The block with one more label for each of the first `n` names.
pub open spec fn add_labels(cb: CodeBlockView, names: Seq<Seq<char>>, n: int) -> CodeBlockView
    decreases n,
{
    if n <= 0 {
        cb
    } else {
        add_labels(cb, names, n - 1).new_label(names[n - 1])
    }
}

/// The instruction list as it is emitted: legalized, then with registers
/// allocated from `regs`.
pub open spec fn lowered(a: AssemblerView, regs: Seq<Reg>) -> AssemblerView {
    alloc_regs(x86_split(a), regs)
}

/// Whether an instruction list can be compiled into a block with the given
/// registers: it can be legalized, registers can be allocated, and what
/// comes out can be emitted.
pub open spec fn compilable(a: AssemblerView, regs: Seq<Reg>) -> bool {
    &&& a.wf()
    &&& splittable(a)
    &&& regs.len() <= MAX_POOL_REGS
    &&& allocatable(x86_split(a), regs)
    &&& emittable(lowered(a, regs).insns, lowered(a, regs).label_names.len())
}

/// The block, and the positions of the references to heap objects in it,
/// after the instruction list was compiled into it: the labels of the list
/// are made known to the block, the lowered instructions are emitted, and
/// the references to labels are resolved, unless bytes were dropped.
pub open spec fn compiled(a: AssemblerView, cb: CodeBlockView, regs: Seq<Reg>) -> (CodeBlockView, Seq<u32>) {
    let low = lowered(a, regs);
    let labeled = add_labels(cb, low.label_names, low.label_names.len() as int);
    let (emitted, gc_offsets) = emit_from(low.insns, 0, labeled, Seq::empty(), labeled.write_pos);
    (
        if emitted.dropped_bytes {
            emitted.clear_labels()
        } else {
            emitted.link_labels()
        },
        gc_offsets,
    )
}

impl Assembler {
    /// Compiles the instructions into `cb` with the registers `regs` to
    /// allocate from. Returns the positions in the block of the references
    /// to heap objects that the code holds.
    pub fn compile_with_regs(self, cb: &mut CodeBlock, regs: Vec<Reg>) -> (gc_offsets: Vec<u32>)
        requires
            compilable(self@, regs@),
            old(cb)@.wf(),
            old(cb)@.page_end_reserve >= JMP_PTR_LEN,
            old(cb)@.label_addrs.len() == 0,
        ensures
            (final(cb)@, gc_offsets@) == compiled(self@, old(cb)@, regs@),
            final(cb)@.wf(),
    {
        self.x86_split().alloc_regs(regs).link(cb)
    }

    /// Compiles the instructions into `cb` with the registers `regs` to
    /// allocate from, if they can be compiled; else returns nothing and
    /// leaves the block as it is.
    pub fn try_compile_with_regs(self, cb: &mut CodeBlock, regs: Vec<Reg>) -> (r: Option<Vec<u32>>)
        requires
            old(cb)@.wf(),
        ensures
            r is Some == (compilable(self@, regs@) && old(cb)@.page_end_reserve >= JMP_PTR_LEN && old(
                cb,
            )@.label_addrs.len() == 0),
            r matches Some(gc_offsets) ==> (final(cb)@, gc_offsets@) == compiled(self@, old(cb)@, regs@),
            r is None ==> final(cb)@ == old(cb)@,
            final(cb)@.wf(),
    {
        if cb.page_end_reserve() < 5 || cb.num_labels() != 0 {
            return None;
        }
        if !self.is_wf() {
            return None;
        }
        if !self.is_splittable() {
            return None;
        }
        let split = self.x86_split();
        match split.try_alloc_regs(regs) {
            None => None,
            Some(lowered) => {
                if !lowered.is_emittable(lowered.label_names.len()) {
                    return None;
                }
                Some(lowered.link(cb))
            },
        }
    }

    /// Makes the labels known to the block, emits the instructions and
    /// resolves the references to labels, unless bytes were dropped.
    fn link(self, cb: &mut CodeBlock) -> (gc_offsets: Vec<u32>)
        requires
            emittable(self@.insns, self@.label_names.len()),
            old(cb)@.wf(),
            old(cb)@.page_end_reserve >= JMP_PTR_LEN,
            old(cb)@.label_addrs.len() == 0,
        ensures
            ({
                let labeled = add_labels(old(cb)@, self@.label_names, self@.label_names.len() as int);
                let (emitted, gc) = emit_from(self@.insns, 0, labeled, Seq::empty(), labeled.write_pos);
                &&& gc_offsets@ == gc
                &&& final(cb)@ == if emitted.dropped_bytes {
                    emitted.clear_labels()
                } else {
                    emitted.link_labels()
                }
            }),
            final(cb)@.wf(),
    {
        let mut lowered = self;

        // Make the labels known to the code block.
        let ghost names = lowered@.label_names;
        let mut idx: usize = 0;
        while idx < lowered.label_names.len()
            invariant
                idx <= lowered.label_names@.len(),
                names == lowered@.label_names,
                names.len() == lowered.label_names@.len(),
                cb@.wf(),
                cb@.page_end_reserve == old(cb)@.page_end_reserve,
                cb@.label_addrs.len() == idx,
                cb@ == add_labels(old(cb)@, names, idx as int),
            decreases lowered.label_names@.len() - idx,
        {
            let name = lowered.label_names[idx].as_str().to_owned();
            assert(name@ == names[idx as int]);
            let label_idx = cb.new_label(name);
            idx += 1;
        }

        let gc_offsets = lowered.x86_emit(cb);

        if cb.has_dropped_bytes() {
            cb.clear_labels();
        } else {
            cb.link_labels();
        }
        gc_offsets
    }

    /// Compiles the instructions into `cb` with the registers of the
    /// platform.
    pub fn compile(self, cb: &mut CodeBlock) -> (gc_offsets: Vec<u32>)
        requires
            compilable(self@, spec_alloc_regs()),
            old(cb)@.wf(),
            old(cb)@.page_end_reserve >= JMP_PTR_LEN,
            old(cb)@.label_addrs.len() == 0,
        ensures
            (final(cb)@, gc_offsets@) == compiled(self@, old(cb)@, spec_alloc_regs()),
            final(cb)@.wf(),
    {
        let alloc_regs = Self::get_alloc_regs();
        self.compile_with_regs(cb, alloc_regs)
    }

    /// Compiles the instructions into `cb` with only the first `num_regs`
    /// registers of the platform.
    pub fn compile_with_num_regs(self, cb: &mut CodeBlock, num_regs: usize) -> (gc_offsets: Vec<u32>)
        requires
            num_regs <= spec_alloc_regs().len(),
            compilable(self@, spec_alloc_regs().subrange(0, num_regs as int)),
            old(cb)@.wf(),
            old(cb)@.page_end_reserve >= JMP_PTR_LEN,
            old(cb)@.label_addrs.len() == 0,
        ensures
            (final(cb)@, gc_offsets@) == compiled(
                self@,
                old(cb)@,
                spec_alloc_regs().subrange(0, num_regs as int),
            ),
            final(cb)@.wf(),
    {
        let mut alloc_regs = Self::get_alloc_regs();
        alloc_regs.truncate(num_regs);
        self.compile_with_regs(cb, alloc_regs)
    }
}

} // verus!
