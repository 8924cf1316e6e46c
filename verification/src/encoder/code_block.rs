//! The code block: a paged, append-only buffer of machine code that keeps
//! track of labels and of the references to them.

use vstd::prelude::*;
use crate::encoder::{bytes1, bytes2, bytes3, concat, int_bytes, lemma_le_bytes_len, rel32_bytes, CodePtr};

verus! {

/// Largest size of a code block: positions and distances inside it fit in 31
/// bits.
pub const MAX_CODE_SIZE: usize = 0x7fff_ffff;

/// Opcode bytes of an instruction that ends in a 32-bit displacement.
#[derive(Clone, Copy, PartialEq, Eq, Debug, Structural)]
pub struct RelOpcode {
    /// Number of opcode bytes, 1 to 3.
    pub len: u8,
    pub b0: u8,
    pub b1: u8,
    pub b2: u8,
}

impl RelOpcode {
    /// The opcode bytes in order.
    pub open spec fn bytes(self) -> Seq<u8> {
        if self.len == 1 {
            seq![self.b0]
        } else if self.len == 2 {
            seq![self.b0, self.b1]
        } else {
            seq![self.b0, self.b1, self.b2]
        }
    }

    /// Length of the whole instruction: opcode and displacement.
    pub open spec fn insn_len(self) -> int {
        self.len + 4
    }
}

/// A place in the code that refers to a label and is filled in once all
/// labels are bound.
#[derive(Clone, Copy, PartialEq, Eq, Debug, Structural)]
pub struct LabelRef {
    /// Position of the referring instruction.
    pub pos: usize,
    /// The label referred to.
    pub label_idx: usize,
    /// Opcode of the referring instruction.
    pub opcode: RelOpcode,
}

/// The label bookkeeping of a code block at one moment.
#[derive(Debug)]
pub struct LabelState {
    pub label_addrs: Vec<usize>,
    pub label_refs: Vec<LabelRef>,
}

/// `mem` with `bytes` written from position `pos` on.
pub open spec fn patch(mem: Seq<u8>, pos: int, bytes: Seq<u8>) -> Seq<u8> {
    Seq::new(
        mem.len(),
        |i: int|
            if pos <= i < pos + bytes.len() {
                bytes[i - pos]
            } else {
                mem[i]
            },
    )
}

/// The bytes that resolve one reference: its opcode and the distance from
/// the end of the instruction to the label.
pub open spec fn label_ref_bytes(r: LabelRef, label_addrs: Seq<usize>) -> Seq<u8> {
    r.opcode.bytes() + rel32_bytes(label_addrs[r.label_idx as int] - (r.pos + r.opcode.insn_len()))
}

/// `mem` with the first `n` references resolved, in order.
pub open spec fn link_refs(mem: Seq<u8>, refs: Seq<LabelRef>, label_addrs: Seq<usize>, n: int) -> Seq<u8>
    decreases n,
{
    if n <= 0 {
        mem
    } else {
        patch(
            link_refs(mem, refs, label_addrs, n - 1),
            refs[n - 1].pos as int,
            label_ref_bytes(refs[n - 1], label_addrs),
        )
    }
}

/// The mathematical content of a code block.
pub struct CodeBlockView {
    /// The whole memory of the block.
    pub mem: Seq<u8>,
    /// Address of the first byte.
    pub base_addr: u64,
    /// Where the next byte goes.
    pub write_pos: usize,
    /// Where the current page starts.
    pub page_start: usize,
    /// Size of a page.
    pub page_size: usize,
    /// Bytes at the end of each page kept free for the jump to the next.
    pub page_end_reserve: usize,
    /// Whether a write did not fit.
    pub dropped_bytes: bool,
    /// Position of each label.
    pub label_addrs: Seq<usize>,
    /// Name of each label.
    pub label_names: Seq<Seq<char>>,
    /// References still to be resolved.
    pub label_refs: Seq<LabelRef>,
    /// Positions reported for marked instructions, with their keys.
    pub marks: Seq<(usize, CodePtr)>,
}

impl CodeBlockView {
    /// The invariant of a code block.
    pub open spec fn wf(self) -> bool {
        &&& self.mem.len() <= MAX_CODE_SIZE
        &&& self.base_addr + self.mem.len() <= 0x7fff_ffff_ffff_ffff
        &&& self.page_end_reserve < self.page_size
        &&& self.page_start <= self.write_pos <= self.page_limit()
        &&& self.label_addrs.len() == self.label_names.len()
        &&& forall|i: int| 0 <= i < self.label_addrs.len() ==> (#[trigger] self.label_addrs[i]) <= self.mem.len()
        &&& forall|i: int|
            0 <= i < self.label_refs.len() ==> {
                &&& (#[trigger] self.label_refs[i]).label_idx < self.label_addrs.len()
                &&& 1 <= self.label_refs[i].opcode.len <= 3
                &&& self.label_refs[i].pos + self.label_refs[i].opcode.insn_len() <= self.mem.len()
            }
    }

    /// The position that writes on the current page cannot pass.
    pub open spec fn page_limit(self) -> int {
        if self.page_start + self.page_size - self.page_end_reserve <= self.mem.len() {
            self.page_start + self.page_size - self.page_end_reserve
        } else {
            self.mem.len() as int
        }
    }

    /// Number of bytes that still fit on the current page.
    pub open spec fn capacity(self) -> int {
        self.page_limit() - self.write_pos
    }

    /// Address of the byte at `pos`.
    pub open spec fn ptr_at(self, pos: int) -> CodePtr {
        CodePtr((self.base_addr + pos) as u64)
    }

    /// Address at which the next byte goes.
    pub open spec fn write_ptr(self) -> CodePtr {
        self.ptr_at(self.write_pos as int)
    }

    /// The bytes written so far, from the start of the block.
    pub open spec fn code(self) -> Seq<u8> {
        self.mem.take(self.write_pos as int)
    }

    /// The block after `bytes` were written: those that fit are stored,
    /// and if some did not the block remembers that bytes were dropped.
    pub open spec fn write(self, bytes: Seq<u8>) -> CodeBlockView {
        let n = if bytes.len() <= self.capacity() {
            bytes.len() as int
        } else {
            self.capacity()
        };
        CodeBlockView {
            mem: patch(self.mem, self.write_pos as int, bytes.take(n)),
            write_pos: (self.write_pos + n) as usize,
            dropped_bytes: self.dropped_bytes || bytes.len() > self.capacity(),
            ..self
        }
    }

    /// The block after label `idx` was bound to the current position.
    pub open spec fn write_label(self, idx: usize) -> CodeBlockView {
        CodeBlockView { label_addrs: self.label_addrs.update(idx as int, self.write_pos), ..self }
    }

    /// The block after an instruction that refers to label `idx` was begun:
    /// if it fits, its place is kept free and the reference noted; if not,
    /// bytes count as dropped.
    pub open spec fn label_ref(self, idx: usize, opcode: RelOpcode) -> CodeBlockView {
        if opcode.insn_len() <= self.capacity() {
            CodeBlockView {
                write_pos: (self.write_pos + opcode.insn_len()) as usize,
                label_refs: self.label_refs.push(LabelRef { pos: self.write_pos, label_idx: idx, opcode }),
                ..self
            }
        } else {
            CodeBlockView { dropped_bytes: true, ..self }
        }
    }

    /// The block with the label positions and references of an earlier
    /// moment.
    pub open spec fn with_labels(self, label_addrs: Seq<usize>, label_refs: Seq<LabelRef>) -> CodeBlockView {
        CodeBlockView { label_addrs, label_refs, ..self }
    }

    /// The block after all references were resolved and the labels
    /// forgotten.
    pub open spec fn link_labels(self) -> CodeBlockView {
        CodeBlockView {
            mem: link_refs(self.mem, self.label_refs, self.label_addrs, self.label_refs.len() as int),
            label_addrs: Seq::empty(),
            label_names: Seq::empty(),
            label_refs: Seq::empty(),
            ..self
        }
    }

    /// The block after the labels were forgotten.
    pub open spec fn clear_labels(self) -> CodeBlockView {
        CodeBlockView {
            label_addrs: Seq::empty(),
            label_names: Seq::empty(),
            label_refs: Seq::empty(),
            ..self
        }
    }

    /// The block with one more label, not yet bound.
    pub open spec fn new_label(self, name: Seq<char>) -> CodeBlockView {
        CodeBlockView {
            label_addrs: self.label_addrs.push(0),
            label_names: self.label_names.push(name),
            ..self
        }
    }

    /// The block after the current position was reported under `key`.
    pub open spec fn mark(self, key: usize) -> CodeBlockView {
        CodeBlockView { marks: self.marks.push((key, self.write_ptr())), ..self }
    }

    /// Whether the memory holds a page after the current one.
    pub open spec fn has_next_page(self) -> bool {
        self.page_start + self.page_size < self.mem.len()
    }

    /// The block after it moved to the next page: `jmp` is written at
    /// `src_pos`, writing goes on at the start of the next page, and no
    /// bytes count as dropped.
    pub open spec fn next_page(self, src_pos: usize, jmp: Seq<u8>) -> CodeBlockView {
        CodeBlockView {
            mem: patch(self.mem, src_pos as int, jmp),
            write_pos: (self.page_start + self.page_size) as usize,
            page_start: (self.page_start + self.page_size) as usize,
            dropped_bytes: false,
            ..self
        }
    }
}

/// Writing two runs of bytes one after the other is writing their
/// concatenation.
pub proof fn lemma_write_concat(cb: CodeBlockView, a: Seq<u8>, b: Seq<u8>)
    requires
        cb.wf(),
    ensures
        cb.write(a).write(b) == cb.write(a + b),
        cb.write(a).wf(),
{
    let c1 = cb.write(a);
    let c2 = c1.write(b);
    let c = cb.write(a + b);
    assert(c2.mem =~= c.mem);
}

/// Writing keeps the invariant, and writing nothing changes nothing.
pub proof fn lemma_write_wf(cb: CodeBlockView, a: Seq<u8>)
    requires
        cb.wf(),
    ensures
        cb.write(a).wf(),
        cb.write(Seq::empty()) == cb,
{
    assert(cb.write(Seq::empty()).mem =~= cb.mem);
}

/// A paged, append-only buffer of machine code with labels.
#[derive(Debug)]
pub struct CodeBlock {
    mem: Vec<u8>,
    base_addr: u64,
    write_pos: usize,
    page_start: usize,
    page_size: usize,
    page_end_reserve: usize,
    dropped_bytes: bool,
    label_addrs: Vec<usize>,
    label_names: Vec<String>,
    label_refs: Vec<LabelRef>,
    marks: Vec<(usize, CodePtr)>,
}

impl View for CodeBlock {
    type V = CodeBlockView;

    closed spec fn view(&self) -> CodeBlockView {
        CodeBlockView {
            mem: self.mem@,
            base_addr: self.base_addr,
            write_pos: self.write_pos,
            page_start: self.page_start,
            page_size: self.page_size,
            page_end_reserve: self.page_end_reserve,
            dropped_bytes: self.dropped_bytes,
            label_addrs: self.label_addrs@,
            label_names: Seq::new(self.label_names@.len(), |i: int| self.label_names@[i]@),
            label_refs: self.label_refs@,
            marks: self.marks@,
        }
    }
}

impl CodeBlockView {
    /// A block of `mem_size` zero bytes at `base_addr`, with nothing written
    /// and no labels.
    pub open spec fn blank(base_addr: u64, mem_size: usize, page_size: usize, page_end_reserve: usize) -> CodeBlockView {
        CodeBlockView {
            mem: Seq::new(mem_size as nat, |i: int| 0u8),
            base_addr,
            write_pos: 0,
            page_start: 0,
            page_size,
            page_end_reserve,
            dropped_bytes: false,
            label_addrs: Seq::empty(),
            label_names: Seq::empty(),
            label_refs: Seq::empty(),
            marks: Seq::empty(),
        }
    }
}

/// Page size of the blocks that `new_dummy` makes.
pub const DUMMY_PAGE_SIZE: usize = 0x4000;

/// Bytes kept free at the end of each page of such a block.
pub const DUMMY_PAGE_END_RESERVE: usize = 6;

impl CodeBlock {
    /// A block of `mem_size` bytes that stands at address `base_addr` and is
    /// divided into pages of `page_size` bytes, the last `page_end_reserve`
    /// of which only hold the jump to the next page.
    pub fn new(base_addr: u64, mem_size: usize, page_size: usize, page_end_reserve: usize) -> (cb: CodeBlock)
        requires
            mem_size <= MAX_CODE_SIZE,
            base_addr + mem_size <= 0x7fff_ffff_ffff_ffff,
            page_end_reserve < page_size,
        ensures
            cb@ == CodeBlockView::blank(base_addr, mem_size, page_size, page_end_reserve),
            cb@.wf(),
    {
        let mut mem: Vec<u8> = Vec::new();
        let mut i: usize = 0;
        while i < mem_size
            invariant
                i <= mem_size,
                mem@ == Seq::new(i as nat, |j: int| 0u8),
            decreases mem_size - i,
        {
            mem.push(0);
            i += 1;
        }
        let cb = CodeBlock {
            mem,
            base_addr,
            write_pos: 0,
            page_start: 0,
            page_size,
            page_end_reserve,
            dropped_bytes: false,
            label_addrs: Vec::new(),
            label_names: Vec::new(),
            label_refs: Vec::new(),
            marks: Vec::new(),
        };
        assert(cb@.label_names =~= Seq::empty());
        cb
    }

    /// A block for trying things out: `mem_size` bytes at address 0.
    pub fn new_dummy(mem_size: usize) -> (cb: CodeBlock)
        requires
            mem_size <= MAX_CODE_SIZE,
        ensures
            cb@ == CodeBlockView::blank(0, mem_size, DUMMY_PAGE_SIZE, DUMMY_PAGE_END_RESERVE),
            cb@.wf(),
    {
        CodeBlock::new(0, mem_size, DUMMY_PAGE_SIZE, DUMMY_PAGE_END_RESERVE)
    }

    /// The position at which the next byte goes.
    pub fn get_write_pos(&self) -> (pos: usize)
        ensures
            pos == self@.write_pos,
    {
        self.write_pos
    }

    /// The address at which the next byte goes.
    pub fn get_write_ptr(&self) -> (ptr: CodePtr)
        requires
            self@.wf(),
        ensures
            ptr == self@.write_ptr(),
    {
        CodePtr(self.base_addr + self.write_pos as u64)
    }

    /// The address of the byte at `pos`.
    pub fn get_ptr(&self, pos: usize) -> (ptr: CodePtr)
        requires
            self@.wf(),
            pos <= self@.mem.len(),
        ensures
            ptr == self@.ptr_at(pos as int),
    {
        CodePtr(self.base_addr + pos as u64)
    }

    /// Whether some write did not fit since the block last changed page.
    pub fn has_dropped_bytes(&self) -> (b: bool)
        ensures
            b == self@.dropped_bytes,
    {
        self.dropped_bytes
    }

    /// Where the current page starts.
    pub fn page_start_pos(&self) -> (pos: usize)
        ensures
            pos == self@.page_start,
    {
        self.page_start
    }

    /// The position up to which the current page takes bytes.
    fn page_limit(&self) -> (limit: usize)
        requires
            self@.wf(),
        ensures
            limit == self@.page_limit(),
    {
        let room = self.page_size - self.page_end_reserve;
        if room <= self.mem.len() - self.page_start {
            self.page_start + room
        } else {
            self.mem.len()
        }
    }

    /// Whether `num_bytes` more bytes fit on the current page.
    pub fn has_capacity(&self, num_bytes: usize) -> (b: bool)
        requires
            self@.wf(),
        ensures
            b == (num_bytes <= self@.capacity()),
    {
        num_bytes <= self.page_limit() - self.write_pos
    }

    /// Writes one byte, or notes that it was dropped.
    pub fn write_byte(&mut self, byte: u8)
        requires
            old(self)@.wf(),
        ensures
            final(self)@ == old(self)@.write(seq![byte]),
            final(self)@.wf(),
    {
        if self.write_pos < self.page_limit() {
            self.mem.set(self.write_pos, byte);
            self.write_pos += 1;
        } else {
            self.dropped_bytes = true;
        }
        proof {
            assert(self@.mem =~= old(self)@.write(seq![byte]).mem);
        }
    }

    /// Writes the bytes in order; those that do not fit are dropped.
    pub fn write_bytes(&mut self, bytes: &Vec<u8>)
        requires
            old(self)@.wf(),
        ensures
            final(self)@ == old(self)@.write(bytes@),
            final(self)@.wf(),
    {
        let n = bytes.len();
        let mut i: usize = 0;
        proof {
            lemma_write_wf(old(self)@, Seq::empty());
            assert(bytes@.take(0) =~= Seq::empty());
        }
        while i < n
            invariant
                i <= n,
                n == bytes@.len(),
                old(self)@.wf(),
                self@.wf(),
                self@ == old(self)@.write(bytes@.take(i as int)),
            decreases n - i,
        {
            self.write_byte(bytes[i]);
            proof {
                lemma_write_concat(old(self)@, bytes@.take(i as int), seq![bytes@[i as int]]);
                assert(bytes@.take(i as int) + seq![bytes@[i as int]] =~= bytes@.take(i as int + 1));
            }
            i += 1;
        }
        assert(bytes@.take(n as int) =~= bytes@);
    }

    /// Adds a label, not yet bound, and returns its index.
    pub fn new_label(&mut self, name: String) -> (idx: usize)
        requires
            old(self)@.wf(),
        ensures
            final(self)@ == old(self)@.new_label(name@),
            final(self)@.wf(),
            idx == old(self)@.label_addrs.len(),
    {
        let idx = self.label_addrs.len();
        self.label_addrs.push(0);
        self.label_names.push(name);
        proof {
            assert(self@.label_names =~= old(self)@.label_names.push(name@));
            assert forall|i: int| 0 <= i < self@.label_addrs.len() implies (#[trigger] self@.label_addrs[i])
                <= self@.mem.len() by {
                if i < old(self)@.label_addrs.len() {
                    assert(self@.label_addrs[i] == old(self)@.label_addrs[i]);
                }
            }
            assert forall|i: int| 0 <= i < self@.label_refs.len() implies (#[trigger] self@.label_refs[i]).label_idx
                < self@.label_addrs.len() by {
                assert(old(self)@.label_refs[i].label_idx < old(self)@.label_addrs.len());
            }
        }
        idx
    }

    /// Binds label `label_idx` to the current position.
    pub fn write_label(&mut self, label_idx: usize)
        requires
            old(self)@.wf(),
            label_idx < old(self)@.label_addrs.len(),
        ensures
            final(self)@ == old(self)@.write_label(label_idx),
            final(self)@.wf(),
    {
        self.label_addrs.set(label_idx, self.write_pos);
        proof {
            assert forall|i: int| 0 <= i < self@.label_addrs.len() implies (#[trigger] self@.label_addrs[i])
                <= self@.mem.len() by {
                if i != label_idx {
                    assert(self@.label_addrs[i] == old(self)@.label_addrs[i]);
                }
            }
            assert forall|i: int| 0 <= i < self@.label_refs.len() implies (#[trigger] self@.label_refs[i]).label_idx
                < self@.label_addrs.len() by {
                assert(old(self)@.label_refs[i].label_idx < old(self)@.label_addrs.len());
            }
        }
    }

    /// Begins an instruction that refers to label `label_idx`: keeps its
    /// place free and notes the reference, or, where it does not fit, notes
    /// that bytes were dropped.
    pub fn label_ref(&mut self, label_idx: usize, opcode: RelOpcode)
        requires
            old(self)@.wf(),
            label_idx < old(self)@.label_addrs.len(),
            1 <= opcode.len <= 3,
        ensures
            final(self)@ == old(self)@.label_ref(label_idx, opcode),
            final(self)@.wf(),
    {
        let num_bytes: usize = opcode.len as usize + 4;
        if self.has_capacity(num_bytes) {
            self.label_refs.push(LabelRef { pos: self.write_pos, label_idx, opcode });
            self.write_pos += num_bytes;
        } else {
            self.dropped_bytes = true;
        }
    }

    /// A copy of the label positions and references.
    pub fn get_label_state(&self) -> (state: LabelState)
        ensures
            state.label_addrs@ == self@.label_addrs,
            state.label_refs@ == self@.label_refs,
    {
        let state = LabelState { label_addrs: self.label_addrs.clone(), label_refs: self.label_refs.clone() };
        assert(state.label_addrs@ =~= self.label_addrs@);
        assert(state.label_refs@ =~= self.label_refs@);
        state
    }

    /// Puts the label positions and references back to an earlier state.
    pub fn set_label_state(&mut self, state: LabelState)
        requires
            old(self)@.with_labels(state.label_addrs@, state.label_refs@).wf(),
        ensures
            final(self)@ == old(self)@.with_labels(state.label_addrs@, state.label_refs@),
    {
        self.label_addrs = state.label_addrs;
        self.label_refs = state.label_refs;
    }

    /// Forgets all labels and references.
    pub fn clear_labels(&mut self)
        requires
            old(self)@.wf(),
        ensures
            final(self)@ == old(self)@.clear_labels(),
            final(self)@.wf(),
    {
        self.label_addrs.clear();
        self.label_names.clear();
        self.label_refs.clear();
        proof {
            assert(self@.label_names =~= Seq::empty());
        }
    }

    /// Reports the current position under `key`.
    pub fn mark_position(&mut self, key: usize)
        requires
            old(self)@.wf(),
        ensures
            final(self)@ == old(self)@.mark(key),
            final(self)@.wf(),
    {
        let ptr = self.get_write_ptr();
        self.marks.push((key, ptr));
    }

    /// The start of the page after the current one, if the memory holds one.
    pub fn next_page_pos(&self) -> (pos: Option<usize>)
        requires
            self@.wf(),
        ensures
            pos is Some == self@.has_next_page(),
            pos matches Some(p) ==> p == self@.page_start + self@.page_size,
    {
        if self.page_size < self.mem.len() - self.page_start {
            Some(self.page_start + self.page_size)
        } else {
            None
        }
    }

    /// Moves on to the next page, if there is one: the jump `jmp` is
    /// written at `src_pos`, where the instruction that did not fit began,
    /// and writing goes on at the start of the next page. Returns whether
    /// the block moved.
    pub fn next_page(&mut self, src_pos: usize, jmp: &Vec<u8>) -> (moved: bool)
        requires
            old(self)@.wf(),
            old(self)@.page_start <= src_pos <= old(self)@.write_pos,
            jmp@.len() <= old(self)@.page_end_reserve,
        ensures
            moved == old(self)@.has_next_page(),
            moved ==> final(self)@ == old(self)@.next_page(src_pos, jmp@),
            !moved ==> final(self)@ == old(self)@,
            final(self)@.wf(),
    {
        match self.next_page_pos() {
            None => false,
            Some(dst_pos) => {
                let n = jmp.len();
                let mut i: usize = 0;
                assert(src_pos + n <= self.mem@.len());
                assert(jmp@.take(0) =~= Seq::empty());
                assert(self.mem@ =~= patch(old(self).mem@, src_pos as int, jmp@.take(0)));
                while i < n
                    invariant
                        i <= n,
                        n == jmp@.len(),
                        src_pos + n <= self.mem@.len() <= MAX_CODE_SIZE,
                        self.mem@ == patch(old(self).mem@, src_pos as int, jmp@.take(i as int)),
                        self@ == (CodeBlockView { mem: self.mem@, ..old(self)@ }),
                    decreases n - i,
                {
                    self.mem.set(src_pos + i, jmp[i]);
                    proof {
                        assert(self.mem@ =~= patch(old(self).mem@, src_pos as int, jmp@.take(i as int + 1)));
                    }
                    i += 1;
                }
                assert(jmp@.take(n as int) =~= jmp@);
                self.write_pos = dst_pos;
                self.page_start = dst_pos;
                self.dropped_bytes = false;
                true
            },
        }
    }
}

/// The two lower-case hexadecimal digits of each byte, in order.
pub open spec fn hex_digits(bytes: Seq<u8>) -> Seq<char> {
    Seq::new(
        2 * bytes.len(),
        |i: int|
            hex_digit(
                if i % 2 == 0 {
                    (bytes[i / 2] / 16) as u8
                } else {
                    (bytes[i / 2] % 16) as u8
                },
            ) as char,
    )
}

/// The ASCII code of the lower-case hexadecimal digit for a value below 16.
pub open spec fn hex_digit(nibble: u8) -> u8 {
    if nibble < 10 {
        (0x30 + nibble) as u8
    } else {
        (0x61 + (nibble - 10)) as u8
    }
}

fn hex_digit_of(nibble: u8) -> (d: u8)
    requires
        nibble < 16,
    ensures
        d == hex_digit(nibble),
        d < 0x80,
{
    if nibble < 10 {
        0x30 + nibble
    } else {
        0x61 + (nibble - 10)
    }
}

/// `String::from_utf8` of the standard library, on bytes that are all
/// ASCII: such bytes are valid UTF-8, so the call succeeds, and the string
/// has one character per byte, with the byte's code.
#[verifier::external_body]
fn string_from_ascii(bytes: Vec<u8>) -> (s: String)
    requires
        forall|i: int| 0 <= i < bytes@.len() ==> bytes@[i] < 0x80,
    ensures
        s@ == Seq::new(bytes@.len(), |i: int| bytes@[i] as char),
{
    match String::from_utf8(bytes) {
        Ok(s) => s,
        Err(_) => String::new(),
    }
}

impl CodeBlock {
    /// Marks or unmarks the block as having dropped bytes.
    pub fn set_dropped_bytes(&mut self, dropped_bytes: bool)
        ensures
            final(self)@ == (CodeBlockView { dropped_bytes, ..old(self)@ }),
            old(self)@.wf() ==> final(self)@.wf(),
    {
        self.dropped_bytes = dropped_bytes;
    }

    /// Number of bytes kept free at the end of each page.
    pub fn page_end_reserve(&self) -> (n: usize)
        ensures
            n == self@.page_end_reserve,
    {
        self.page_end_reserve
    }

    /// Number of labels.
    pub fn num_labels(&self) -> (n: usize)
        ensures
            n == self@.label_addrs.len(),
    {
        self.label_addrs.len()
    }

    /// The positions reported for marked instructions, with their keys.
    pub fn marked_positions(&self) -> (marks: Vec<(usize, CodePtr)>)
        ensures
            marks@ == self@.marks,
    {
        let mut marks: Vec<(usize, CodePtr)> = Vec::new();
        let mut i: usize = 0;
        while i < self.marks.len()
            invariant
                i <= self.marks@.len(),
                marks@ == self.marks@.take(i as int),
            decreases self.marks@.len() - i,
        {
            marks.push(self.marks[i]);
            assert(marks@ =~= self.marks@.take(i as int + 1));
            i += 1;
        }
        assert(self.marks@.take(self.marks@.len() as int) =~= self.marks@);
        marks
    }

    /// Resolves every reference to a label: writes its opcode and the
    /// distance from the end of the referring instruction to the label.
    /// Then forgets the labels.
    pub fn link_labels(&mut self)
        requires
            old(self)@.wf(),
        ensures
            final(self)@ == old(self)@.link_labels(),
            final(self)@.wf(),
    {
        let n = self.label_refs.len();
        let mut i: usize = 0;
        while i < n
            invariant
                i <= n,
                n == self.label_refs@.len(),
                old(self)@.wf(),
                self@ == (CodeBlockView { mem: self.mem@, ..old(self)@ }),
                self.mem@.len() == old(self).mem@.len(),
                self.mem@ == link_refs(old(self).mem@, old(self).label_refs@, old(self).label_addrs@, i as int),
            decreases n - i,
        {
            let r = self.label_refs[i];
            assert(r == old(self)@.label_refs[i as int]);
            let label_addr = self.label_addrs[r.label_idx];
            assert(label_addr == old(self)@.label_addrs[r.label_idx as int]);
            let len: usize = r.opcode.len as usize;
            let end: usize = r.pos + len + 4;
            let rel: i64 = label_addr as i64 - end as i64;
            let opcode = if r.opcode.len == 1 {
                bytes1(r.opcode.b0)
            } else if r.opcode.len == 2 {
                bytes2(r.opcode.b0, r.opcode.b1)
            } else {
                bytes3(r.opcode.b0, r.opcode.b1, r.opcode.b2)
            };
            let bytes = concat(opcode, int_bytes(rel as u64, 4));
            proof {
                lemma_le_bytes_len(rel as u64, 4);
                assert(bytes@ == label_ref_bytes(r, old(self)@.label_addrs));
                assert(bytes@.len() == len + 4);
            }
            let ghost before = self.mem@;
            let m = bytes.len();
            let mut k: usize = 0;
            assert(bytes@.take(0) =~= Seq::empty());
            assert(self.mem@ =~= patch(before, r.pos as int, bytes@.take(0)));
            while k < m
                invariant
                    k <= m,
                    m == bytes@.len(),
                    r.pos + m <= self.mem@.len() <= MAX_CODE_SIZE,
                    self.mem@.len() == before.len(),
                    self.mem@ == patch(before, r.pos as int, bytes@.take(k as int)),
                    self@ == (CodeBlockView { mem: self.mem@, ..old(self)@ }),
                    n == self.label_refs@.len(),
                decreases m - k,
            {
                self.mem.set(r.pos + k, bytes[k]);
                proof {
                    assert(self.mem@ =~= patch(before, r.pos as int, bytes@.take(k as int + 1)));
                }
                k += 1;
            }
            assert(bytes@.take(m as int) =~= bytes@);
            i += 1;
        }
        self.label_addrs.clear();
        self.label_names.clear();
        self.label_refs.clear();
        proof {
            assert(self@.label_names =~= Seq::empty());
        }
    }

    /// The bytes written so far, from the start of the block.
    pub fn code(&self) -> (bytes: Vec<u8>)
        requires
            self@.wf(),
        ensures
            bytes@ == self@.code(),
    {
        let mut bytes: Vec<u8> = Vec::new();
        let mut i: usize = 0;
        while i < self.write_pos
            invariant
                i <= self.write_pos <= self.mem@.len(),
                bytes@ == self.mem@.take(i as int),
            decreases self.write_pos - i,
        {
            bytes.push(self.mem[i]);
            assert(bytes@ =~= self.mem@.take(i as int + 1));
            i += 1;
        }
        bytes
    }

    /// The bytes written so far in lower-case hexadecimal, two digits each.
    pub fn to_hex(&self) -> (s: String)
        requires
            self@.wf(),
        ensures
            s@ == hex_digits(self@.code()),
    {
        let mut digits: Vec<u8> = Vec::new();
        let mut i: usize = 0;
        while i < self.write_pos
            invariant
                i <= self.write_pos <= self.mem@.len(),
                digits@.len() == 2 * i,
                forall|j: int| 0 <= j < digits@.len() ==> digits@[j] < 0x80,
                forall|j: int|
                    0 <= j < digits@.len() ==> (#[trigger] digits@[j]) as char == hex_digits(self@.code())[j],
            decreases self.write_pos - i,
        {
            let b = self.mem[i];
            assert(self@.code()[i as int] == b);
            digits.push(hex_digit_of(b / 16));
            digits.push(hex_digit_of(b % 16));
            i += 1;
        }
        let s = string_from_ascii(digits);
        assert(s@ =~= hex_digits(self@.code()));
        s
    }
}

} // verus!
