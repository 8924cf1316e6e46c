//! Operands, instructions and the assembler that collects them.

use vstd::prelude::*;
use crate::backend::x86_64::Reg;
use crate::encoder::CodePtr;
use crate::value::Value;

verus! {

/// Instruction opcodes.
#[derive(Copy, Clone, PartialEq, Eq, Debug, Structural)]
pub enum Op {
    /// A comment; no machine effect.
    Comment,
    /// Binds a label to the current position.
    Label,
    /// Reports the current position in the generated code.
    PosMarker,
    /// Bakes a string, followed by a NUL byte, into the instruction stream.
    BakeString,
    /// Adds two operands and yields the sum.
    Add,
    /// Subtracts the second operand from the first.
    Sub,
    /// Bitwise AND.
    And,
    /// Bitwise OR.
    Or,
    /// Bitwise XOR.
    Xor,
    /// Bitwise NOT of one operand.
    Not,
    /// Arithmetic shift right.
    RShift,
    /// Logical shift right.
    URShift,
    /// Shift left.
    LShift,
    /// Loads a value into a fresh register.
    Load,
    /// Loads a value into a given destination.
    LoadInto,
    /// Loads a value and sign-extends it to 64 bits.
    LoadSExt,
    /// Stores a value to memory.
    Store,
    /// Load effective address.
    Lea,
    /// Load the address of a label.
    LeaLabel,
    /// Moves the second operand into the first.
    Mov,
    /// Bitwise AND that only sets flags.
    Test,
    /// Compares two operands and sets flags.
    Cmp,
    /// Unconditional jump to a target.
    Jmp,
    /// Unconditional jump to an address held in a register or in memory.
    JmpOpnd,
    /// Jump if less.
    Jl,
    /// Jump if below or equal.
    Jbe,
    /// Jump if equal.
    Je,
    /// Jump if not equal.
    Jne,
    /// Jump if zero.
    Jz,
    /// Jump if not zero.
    Jnz,
    /// Jump on overflow.
    Jo,
    /// Select on zero.
    CSelZ,
    /// Select on not zero.
    CSelNZ,
    /// Select on equal.
    CSelE,
    /// Select on not equal.
    CSelNE,
    /// Select on less.
    CSelL,
    /// Select on less or equal.
    CSelLE,
    /// Select on greater.
    CSelG,
    /// Select on greater or equal.
    CSelGE,
    /// Pushes a register on the C stack.
    CPush,
    /// Pops the C stack into a fresh register.
    CPop,
    /// Pops the C stack into a given destination.
    CPopInto,
    /// Pushes all caller-save registers and the flags.
    CPushAll,
    /// Pops what `CPushAll` pushed.
    CPopAll,
    /// Calls a C function.
    CCall,
    /// Returns from the generated function.
    CRet,
    /// Atomically increments a counter in memory.
    IncrCounter,
    /// Debugger breakpoint.
    Breakpoint,
    /// Sets up the stack frame.
    FrameSetup,
    /// Tears down the stack frame.
    FrameTeardown,
    /// Claims a specific register.
    LiveReg,
    /// Pads with no-ops until a jump fits over the code emitted so far.
    PadInvalPatch,
}

/// Base of a memory operand.
#[derive(Clone, Copy, PartialEq, Eq, Debug, Structural)]
pub enum MemBase {
    /// A physical register, by number.
    Reg(u8),
    /// The output of an earlier instruction, by index.
    InsnOut(usize),
}

/// A memory location: base plus displacement.
#[derive(Copy, Clone, PartialEq, Eq, Debug, Structural)]
pub struct Mem {
    /// Base register number or instruction index.
    pub base: MemBase,
    /// Offset relative to the base.
    pub disp: i32,
    /// Size in bits.
    pub num_bits: u8,
}

/// Operand of an instruction.
#[derive(Clone, Copy, PartialEq, Eq, Debug, Structural)]
pub enum Opnd {
    /// Placeholder of instructions without output.
    Absent,
    /// A value of the dynamic language; may live on the heap and move.
    Value(Value),
    /// Output of an earlier instruction of the same assembler.
    InsnOut { idx: usize, num_bits: u8 },
    /// Raw signed immediate.
    Imm(i64),
    /// Raw unsigned immediate.
    UImm(u64),
    /// Memory location.
    Mem(Mem),
    /// Machine register.
    Reg(Reg),
}

impl Opnd {
    /// The earlier instruction whose output this operand reads, directly or
    /// as the base of a memory location.
    pub open spec fn insn_ref(self) -> Option<usize> {
        match self {
            Opnd::InsnOut { idx, .. } => Some(idx),
            Opnd::Mem(Mem { base: MemBase::InsnOut(idx), .. }) => Some(idx),
            _ => None,
        }
    }

    /// The width of a register, memory or instruction-output operand.
    pub open spec fn spec_num_bits(self) -> Option<u8> {
        match self {
            Opnd::Reg(reg) => Some(reg.num_bits),
            Opnd::Mem(mem) => Some(mem.num_bits),
            Opnd::InsnOut { num_bits, .. } => Some(num_bits),
            _ => None,
        }
    }

    /// What `mem` builds from a base that it accepts.
    pub open spec fn spec_mem(num_bits: u8, base: Opnd, disp: i32) -> Opnd {
        match base {
            Opnd::Reg(base_reg) => Opnd::Mem(Mem { base: MemBase::Reg(base_reg.reg_no), disp, num_bits }),
            Opnd::InsnOut { idx, .. } => Opnd::Mem(Mem { base: MemBase::InsnOut(idx), disp, num_bits }),
            _ => Opnd::Absent,
        }
    }

    /// This operand with its instruction index looked up in `indices`.
    pub open spec fn spec_map_index(self, indices: Seq<usize>) -> Opnd {
        match self {
            Opnd::InsnOut { idx, num_bits } => Opnd::InsnOut { idx: indices[idx as int], num_bits },
            Opnd::Mem(Mem { base: MemBase::InsnOut(idx), disp, num_bits }) => Opnd::Mem(
                Mem { base: MemBase::InsnOut(indices[idx as int]), disp, num_bits },
            ),
            _ => self,
        }
    }

    /// A memory operand of `num_bits` bits at `disp` from a 64-bit base,
    /// which is a register or the output of an instruction.
    pub fn mem(num_bits: u8, base: Opnd, disp: i32) -> (r: Opnd)
        requires
            base is Reg || base is InsnOut,
            base.spec_num_bits() == Some(64u8),
        ensures
            r == Opnd::spec_mem(num_bits, base, disp),
            r is Mem,
            r.spec_num_bits() == Some(num_bits),
            r.insn_ref() == base.insn_ref(),
    {
        match base {
            Opnd::Reg(base_reg) => Opnd::Mem(Mem { base: MemBase::Reg(base_reg.reg_no), disp, num_bits }),
            Opnd::InsnOut { idx, num_bits: _ } => Opnd::Mem(Mem { base: MemBase::InsnOut(idx), disp, num_bits }),
            _ => Opnd::Absent,
        }
    }

    /// A constant address as an unsigned immediate.
    pub fn const_ptr(ptr: u64) -> (r: Opnd)
        ensures
            r == Opnd::UImm(ptr),
    {
        Opnd::UImm(ptr)
    }

    /// Whether the operand is anything but the placeholder.
    pub fn is_some(&self) -> (b: bool)
        ensures
            b == !(*self is Absent),
    {
        match *self {
            Opnd::Absent => false,
            _ => true,
        }
    }

    /// The register of a register operand.
    pub fn unwrap_reg(&self) -> (r: Reg)
        requires
            *self is Reg,
        ensures
            *self == Opnd::Reg(r),
    {
        match *self {
            Opnd::Reg(reg) => reg,
            _ => Reg { num_bits: 0, reg_type: crate::encoder::x86_64::RegType::GP, reg_no: 0 },
        }
    }

    /// The width in bits of a register, memory or instruction-output operand.
    pub fn rm_num_bits(&self) -> (n: u8)
        requires
            *self is Reg || *self is Mem || *self is InsnOut,
        ensures
            self.spec_num_bits() == Some(n),
    {
        match *self {
            Opnd::Reg(reg) => reg.num_bits,
            Opnd::Mem(mem) => mem.num_bits,
            Opnd::InsnOut { num_bits, .. } => num_bits,
            _ => 0,
        }
    }

    /// The width in bits, where the operand has one.
    pub fn num_bits(&self) -> (n: Option<u8>)
        ensures
            n == self.spec_num_bits(),
    {
        match *self {
            Opnd::Reg(reg) => Some(reg.num_bits),
            Opnd::Mem(mem) => Some(mem.num_bits),
            Opnd::InsnOut { num_bits, .. } => Some(num_bits),
            _ => None,
        }
    }

    /// Rewrites a reference to instruction `i` into one to instruction
    /// `indices[i]`; other operands stay as they are.
    pub fn map_index(self, indices: &Vec<usize>) -> (r: Opnd)
        requires
            self.insn_ref() matches Some(i) ==> i < indices@.len(),
        ensures
            r == self.spec_map_index(indices@),
    {
        match self {
            Opnd::InsnOut { idx, num_bits } => Opnd::InsnOut { idx: indices[idx], num_bits },
            Opnd::Mem(Mem { base: MemBase::InsnOut(idx), disp, num_bits }) => Opnd::Mem(
                Mem { base: MemBase::InsnOut(indices[idx]), disp, num_bits },
            ),
            _ => self,
        }
    }
}

/// The width of a register, memory or instruction-output operand reads
/// back as it was supplied when the operand was made.
pub proof fn lemma_width_reads_back(reg: Reg, mem: Mem, idx: usize, num_bits: u8, base: Opnd, disp: i32)
    requires
        base is Reg || base is InsnOut,
    ensures
        Opnd::Reg(reg).spec_num_bits() == Some(reg.num_bits),
        Opnd::Mem(mem).spec_num_bits() == Some(mem.num_bits),
        (Opnd::InsnOut { idx, num_bits }).spec_num_bits() == Some(num_bits),
        Opnd::spec_mem(num_bits, base, disp).spec_num_bits() == Some(num_bits),
{
}

/// Something a branch or call can go to.
#[derive(Clone, Copy, PartialEq, Eq, Debug, Structural)]
pub enum Target {
    /// Address of generated code, such as a side exit.
    CodePtr(CodePtr),
    /// Address of a C function.
    FunPtr(u64),
    /// A label of the assembler, by index.
    Label(usize),
}

impl Target {
    /// The address of a function target.
    pub fn unwrap_fun_ptr(&self) -> (ptr: u64)
        requires
            *self is FunPtr,
        ensures
            *self == Target::FunPtr(ptr),
    {
        match *self {
            Target::FunPtr(ptr) => ptr,
            _ => 0,
        }
    }

    /// The index of a label target.
    pub fn unwrap_label_idx(&self) -> (idx: usize)
        requires
            *self is Label,
        ensures
            *self == Target::Label(idx),
    {
        match *self {
            Target::Label(idx) => idx,
            _ => 0,
        }
    }

    /// The address of a code target.
    pub fn unwrap_code_ptr(&self) -> (ptr: CodePtr)
        requires
            *self is CodePtr,
        ensures
            *self == Target::CodePtr(ptr),
    {
        match *self {
            Target::CodePtr(ptr) => ptr,
            _ => CodePtr(0),
        }
    }
}

/// The operand for a `usize`: its value as an unsigned immediate.
impl From<usize> for Opnd {
    fn from(value: usize) -> (r: Opnd) {
        Opnd::UImm(value as u64)
    }
}

impl vstd::std_specs::convert::FromSpecImpl<usize> for Opnd {
    open spec fn obeys_from_spec() -> bool {
        true
    }

    open spec fn from_spec(value: usize) -> Opnd {
        Opnd::UImm(value as u64)
    }
}

/// The operand for a `u64`: its value as an unsigned immediate.
impl From<u64> for Opnd {
    fn from(value: u64) -> (r: Opnd) {
        Opnd::UImm(value)
    }
}

impl vstd::std_specs::convert::FromSpecImpl<u64> for Opnd {
    open spec fn obeys_from_spec() -> bool {
        true
    }

    open spec fn from_spec(value: u64) -> Opnd {
        Opnd::UImm(value)
    }
}

/// The operand for a `i64`: its value as a signed immediate.
impl From<i64> for Opnd {
    fn from(value: i64) -> (r: Opnd) {
        Opnd::Imm(value)
    }
}

impl vstd::std_specs::convert::FromSpecImpl<i64> for Opnd {
    open spec fn obeys_from_spec() -> bool {
        true
    }

    open spec fn from_spec(value: i64) -> Opnd {
        Opnd::Imm(value)
    }
}

/// The operand for a `i32`: its value as a signed immediate.
impl From<i32> for Opnd {
    fn from(value: i32) -> (r: Opnd) {
        Opnd::Imm(value as i64)
    }
}

impl vstd::std_specs::convert::FromSpecImpl<i32> for Opnd {
    open spec fn obeys_from_spec() -> bool {
        true
    }

    open spec fn from_spec(value: i32) -> Opnd {
        Opnd::Imm(value as i64)
    }
}

/// The operand for a `u32`: its value as an unsigned immediate.
impl From<u32> for Opnd {
    fn from(value: u32) -> (r: Opnd) {
        Opnd::UImm(value as u64)
    }
}

impl vstd::std_specs::convert::FromSpecImpl<u32> for Opnd {
    open spec fn obeys_from_spec() -> bool {
        true
    }

    open spec fn from_spec(value: u32) -> Opnd {
        Opnd::UImm(value as u64)
    }
}

/// The operand for a `Value`: the value itself.
impl From<Value> for Opnd {
    fn from(value: Value) -> (r: Opnd) {
        Opnd::Value(value)
    }
}

impl vstd::std_specs::convert::FromSpecImpl<Value> for Opnd {
    open spec fn obeys_from_spec() -> bool {
        true
    }

    open spec fn from_spec(value: Value) -> Opnd {
        Opnd::Value(value)
    }
}

/// The target that stands for an address of generated code.
impl From<CodePtr> for Target {
    fn from(code_ptr: CodePtr) -> (r: Target) {
        Target::CodePtr(code_ptr)
    }
}

impl vstd::std_specs::convert::FromSpecImpl<CodePtr> for Target {
    open spec fn obeys_from_spec() -> bool {
        true
    }

    open spec fn from_spec(code_ptr: CodePtr) -> Target {
        Target::CodePtr(code_ptr)
    }
}

/// An instruction: opcode, inputs, output and what else the opcode needs.
#[derive(Debug)]
pub struct Insn {
    /// Opcode.
    pub op: Op,
    /// Text of comments and baked strings.
    pub text: Option<String>,
    /// Input operands, in order.
    pub opnds: Vec<Opnd>,
    /// Output operand.
    pub out: Opnd,
    /// Target of branches, calls and labels.
    pub target: Option<Target>,
    /// Key under which the emitter reports the position of this instruction.
    pub pos_marker: Option<usize>,
}

/// The mathematical content of an instruction.
pub struct InsnView {
    pub op: Op,
    pub text: Option<Seq<char>>,
    pub opnds: Seq<Opnd>,
    pub out: Opnd,
    pub target: Option<Target>,
    pub pos_marker: Option<usize>,
}

impl View for Insn {
    type V = InsnView;

    open spec fn view(&self) -> InsnView {
        InsnView {
            op: self.op,
            text: match self.text {
                Some(t) => Some(t@),
                None => None,
            },
            opnds: self.opnds@,
            out: self.out,
            target: self.target,
            pos_marker: self.pos_marker,
        }
    }
}

/// Whether some operand of the list reads the output of instruction `j`.
pub open spec fn operand_uses(opnds: Seq<Opnd>, j: usize) -> bool {
    exists|k: int| 0 <= k < opnds.len() && (#[trigger] opnds[k]).insn_ref() == Some(j)
}

/// Every instruction that the operands read has an index below `len`.
pub open spec fn refs_below(opnds: Seq<Opnd>, len: nat) -> bool {
    forall|k: int|
        0 <= k < opnds.len() ==> ((#[trigger] opnds[k]).insn_ref() matches Some(j) ==> j < len)
}

/// All operands that carry a width carry the same one.
pub open spec fn widths_agree(opnds: Seq<Opnd>) -> bool {
    forall|a: int, b: int|
        0 <= a < opnds.len() && 0 <= b < opnds.len() ==> ((#[trigger] opnds[a]).spec_num_bits() is Some
            && (#[trigger] opnds[b]).spec_num_bits() is Some ==> opnds[a].spec_num_bits()
            == opnds[b].spec_num_bits())
}

/// The width of the first operand from position `from` on that carries one.
pub open spec fn first_num_bits(opnds: Seq<Opnd>, from: int) -> Option<u8>
    decreases opnds.len() - from,
{
    if from < 0 || from >= opnds.len() {
        None
    } else if opnds[from].spec_num_bits() is Some {
        opnds[from].spec_num_bits()
    } else {
        first_num_bits(opnds, from + 1)
    }
}

/// The width of an instruction's output: that of its sized operands, or 64
/// where it has none.
pub open spec fn out_num_bits(opnds: Seq<Opnd>) -> u8 {
    match first_num_bits(opnds, 0) {
        Some(n) => n,
        None => 64,
    }
}

/// The live ranges after an instruction with the given operands went in at
/// index `idx`: every instruction that it reads now lives up to `idx`.
pub open spec fn extend_live_ranges(live_ranges: Seq<usize>, opnds: Seq<Opnd>, idx: usize) -> Seq<usize> {
    Seq::new(
        live_ranges.len(),
        |j: int|
            if operand_uses(opnds, j as usize) {
                idx
            } else {
                live_ranges[j]
            },
    )
}

/// The mathematical content of an assembler.
pub struct AssemblerView {
    pub insns: Seq<InsnView>,
    pub live_ranges: Seq<usize>,
    pub label_names: Seq<Seq<char>>,
}

impl AssemblerView {
    /// An assembler without instructions.
    pub open spec fn empty(label_names: Seq<Seq<char>>) -> AssemblerView {
        AssemblerView { insns: Seq::empty(), live_ranges: Seq::empty(), label_names }
    }

    /// One live range per instruction, each from its instruction to an
    /// instruction of the list.
    pub open spec fn wf(self) -> bool {
        &&& self.insns.len() == self.live_ranges.len()
        &&& forall|i: int|
            0 <= i < self.live_ranges.len() ==> i <= (#[trigger] self.live_ranges[i])
                < self.insns.len()
    }

    /// Whether an instruction with these operands can be appended: it reads
    /// only instructions that are there, and its operands agree in width.
    pub open spec fn accepts(self, opnds: Seq<Opnd>) -> bool {
        &&& refs_below(opnds, self.insns.len())
        &&& widths_agree(opnds)
    }

    /// The operand that stands for the output of the next instruction.
    pub open spec fn next_out(self, opnds: Seq<Opnd>) -> Opnd {
        Opnd::InsnOut { idx: self.insns.len() as usize, num_bits: out_num_bits(opnds) }
    }

    /// The assembler after `insn` was appended.
    pub open spec fn push(self, insn: InsnView) -> AssemblerView {
        AssemblerView {
            insns: self.insns.push(
                InsnView {
                    op: insn.op,
                    text: insn.text,
                    opnds: insn.opnds,
                    out: self.next_out(insn.opnds),
                    target: insn.target,
                    pos_marker: insn.pos_marker,
                },
            ),
            live_ranges: extend_live_ranges(
                self.live_ranges,
                insn.opnds,
                self.insns.len() as usize,
            ).push(self.insns.len() as usize),
            label_names: self.label_names,
        }
    }

    /// The assembler after an instruction without target, text and marker
    /// was appended.
    pub open spec fn push_op(self, op: Op, opnds: Seq<Opnd>) -> AssemblerView {
        self.push(InsnView { op, text: None, opnds, out: Opnd::Absent, target: None, pos_marker: None })
    }

    /// The assembler after a load of `opnd` was appended.
    pub open spec fn load(self, opnd: Opnd) -> AssemblerView {
        self.push_op(Op::Load, seq![opnd])
    }

    /// The assembler after an instruction that only has a target was
    /// appended.
    pub open spec fn push_jump(self, op: Op, target: Target) -> AssemblerView {
        self.push(
            InsnView {
                op,
                text: None,
                opnds: Seq::empty(),
                out: Opnd::Absent,
                target: Some(target),
                pos_marker: None,
            },
        )
    }

    /// The assembler after an instruction that only has a text was appended.
    pub open spec fn push_text(self, op: Op, text: Seq<char>) -> AssemblerView {
        self.push(
            InsnView {
                op,
                text: Some(text),
                opnds: Seq::empty(),
                out: Opnd::Absent,
                target: None,
                pos_marker: None,
            },
        )
    }
}

/// Appending keeps the bounds on the live ranges.
pub proof fn lemma_push_wf(a: AssemblerView, insn: InsnView)
    requires
        a.wf(),
        a.insns.len() < usize::MAX,
    ensures
        a.push(insn).wf(),
        a.push(insn).insns.len() == a.insns.len() + 1,
{
    let b = a.push(insn);
    assert forall|i: int| 0 <= i < b.live_ranges.len() implies i <= (#[trigger] b.live_ranges[i])
        < b.insns.len() by {
        if i < a.live_ranges.len() {
            assert(i <= a.live_ranges[i] < a.insns.len());
        }
    }
}

impl AssemblerView {
    /// Every instruction reads only outputs of earlier instructions, and
    /// only within their live ranges.
    pub open spec fn covered(self) -> bool {
        forall|p: int, k: int|
            0 <= p < self.insns.len() && 0 <= k < self.insns[p].opnds.len() ==> ((
            #[trigger] self.insns[p].opnds[k]).insn_ref() matches Some(j) ==> j < p && self.live_ranges[j as int]
                >= p)
    }

    /// Every live range ends at an instruction that reads the output, or at
    /// the instruction itself.
    pub open spec fn tight(self) -> bool {
        forall|j: int|
            0 <= j < self.live_ranges.len() ==> (#[trigger] self.live_ranges[j]) == j || operand_uses(
                self.insns[self.live_ranges[j] as int].opnds,
                j as usize,
            )
    }

    /// The live range of each output ends exactly at the last instruction
    /// that reads it, or at its own instruction if none does.
    pub open spec fn exact(self) -> bool {
        &&& self.wf()
        &&& self.covered()
        &&& self.tight()
    }
}

/// Whether every reference to an output carries the width of that output.
pub open spec fn faithful(a: AssemblerView) -> bool {
    forall|p: int, k: int|
        0 <= p < a.insns.len() && 0 <= k < a.insns[p].opnds.len() ==> ((
        #[trigger] a.insns[p].opnds[k]) matches Opnd::InsnOut { idx, num_bits } ==> num_bits == out_num_bits(
            a.insns[idx as int].opnds,
        ))
}

/// Whether the operands of each instruction agree in width.
pub open spec fn all_widths_agree(a: AssemblerView) -> bool {
    forall|p: int| 0 <= p < a.insns.len() ==> widths_agree((#[trigger] a.insns[p]).opnds)
}

/// An assembler without instructions has exact live ranges.
pub proof fn lemma_empty_exact(label_names: Seq<Seq<char>>)
    ensures
        AssemblerView::empty(label_names).exact(),
{
}

/// Appending an instruction that reads only what is there keeps the live
/// ranges exact.
pub proof fn lemma_push_exact(a: AssemblerView, insn: InsnView)
    requires
        a.exact(),
        refs_below(insn.opnds, a.insns.len()),
        a.insns.len() < usize::MAX,
    ensures
        a.push(insn).exact(),
{
    let b = a.push(insn);
    let n = a.insns.len() as int;
    lemma_push_wf(a, insn);
    assert forall|p: int, k: int| 0 <= p < b.insns.len() && 0 <= k < b.insns[p].opnds.len() implies ((
    #[trigger] b.insns[p].opnds[k]).insn_ref() matches Some(j) ==> j < p && b.live_ranges[j as int] >= p) by {
        if p < n {
            assert(b.insns[p] == a.insns[p]);
            if let Some(j) = a.insns[p].opnds[k].insn_ref() {
                assert(j < p && a.live_ranges[j as int] >= p);
            }
        } else {
            if let Some(j) = insn.opnds[k].insn_ref() {
                assert(operand_uses(insn.opnds, j));
            }
        }
    }
    assert forall|j: int| 0 <= j < b.live_ranges.len() implies (#[trigger] b.live_ranges[j]) == j || operand_uses(
        b.insns[b.live_ranges[j] as int].opnds,
        j as usize,
    ) by {
        if j < n {
            if operand_uses(insn.opnds, j as usize) {
                assert(b.live_ranges[j] == n);
                assert(b.insns[n].opnds == insn.opnds);
            } else {
                assert(b.live_ranges[j] == a.live_ranges[j]);
                assert(a.live_ranges[j] < n);
                assert(b.insns[a.live_ranges[j] as int] == a.insns[a.live_ranges[j] as int]);
            }
        }
    }
}

/// Appending an instruction whose references carry the widths of the
/// outputs that they name keeps all references so, and the operand that
/// `push` returns is such a reference.
pub proof fn lemma_push_faithful(a: AssemblerView, insn: InsnView)
    requires
        faithful(a),
        a.covered(),
        a.insns.len() < usize::MAX,
        forall|k: int|
            0 <= k < insn.opnds.len() ==> ((#[trigger] insn.opnds[k]) matches Opnd::InsnOut { idx, num_bits } ==> idx
                < a.insns.len() && num_bits == out_num_bits(a.insns[idx as int].opnds)),
    ensures
        faithful(a.push(insn)),
        a.next_out(insn.opnds) matches Opnd::InsnOut { idx, num_bits } && idx < a.push(insn).insns.len()
            && num_bits == out_num_bits(a.push(insn).insns[idx as int].opnds),
{
    let b = a.push(insn);
    let n = a.insns.len() as int;
    assert forall|p: int, k: int| 0 <= p < b.insns.len() && 0 <= k < b.insns[p].opnds.len() implies ((
    #[trigger] b.insns[p].opnds[k]) matches Opnd::InsnOut { idx, num_bits } ==> num_bits == out_num_bits(
        b.insns[idx as int].opnds,
    )) by {
        if p < n {
            assert(b.insns[p] == a.insns[p]);
            assert(a.insns[p].opnds[k] == b.insns[p].opnds[k]);
            if let Opnd::InsnOut { idx, num_bits } = a.insns[p].opnds[k] {
                assert(a.insns[p].opnds[k].insn_ref() == Some(idx));
                assert(idx < p);
                assert(b.insns[idx as int] == a.insns[idx as int]);
            }
        } else {
            assert(b.insns[p].opnds[k] == insn.opnds[k]);
            if let Opnd::InsnOut { idx, num_bits } = insn.opnds[k] {
                assert(b.insns[idx as int] == a.insns[idx as int]);
            }
        }
    }
}

/// Reading one more operand adds at most the instruction that it reads.
proof fn lemma_operand_uses_step(opnds: Seq<Opnd>, k: int, j: usize)
    requires
        0 <= k < opnds.len(),
    ensures
        operand_uses(opnds.take(k + 1), j) <==> (operand_uses(opnds.take(k), j) || opnds[k].insn_ref()
            == Some(j)),
{
    let a = opnds.take(k);
    let b = opnds.take(k + 1);
    if operand_uses(b, j) {
        let w = choose|w: int| 0 <= w < b.len() && (#[trigger] b[w]).insn_ref() == Some(j);
        if w < k {
            assert(a[w] == b[w]);
        } else {
            assert(b[w] == opnds[k]);
        }
    }
    if operand_uses(a, j) {
        let w = choose|w: int| 0 <= w < a.len() && (#[trigger] a[w]).insn_ref() == Some(j);
        assert(b[w] == a[w]);
    }
    if opnds[k].insn_ref() == Some(j) {
        assert(b[k] == opnds[k]);
    }
}

/// The list of instructions under construction, with the live range of each
/// output and the names of the labels.
#[derive(Debug)]
pub struct Assembler {
    /// The instructions, in program order.
    pub insns: Vec<Insn>,
    /// For each instruction the index of the last instruction that reads its
    /// output, or its own index.
    pub live_ranges: Vec<usize>,
    /// Names of the labels; a label is known by its index.
    pub label_names: Vec<String>,
}

impl View for Assembler {
    type V = AssemblerView;

    open spec fn view(&self) -> AssemblerView {
        AssemblerView {
            insns: Seq::new(self.insns@.len(), |i: int| self.insns@[i]@),
            live_ranges: self.live_ranges@,
            label_names: Seq::new(self.label_names@.len(), |i: int| self.label_names@[i]@),
        }
    }
}

impl Assembler {
    /// An empty assembler without labels.
    pub fn new() -> (r: Assembler)
        ensures
            r@ == AssemblerView::empty(Seq::empty()),
            r@.wf(),
    {
        let r = Self::new_with_label_names(Vec::new());
        assert(r@.label_names =~= Seq::empty());
        r
    }

    /// An empty assembler that knows the given labels.
    pub fn new_with_label_names(label_names: Vec<String>) -> (r: Assembler)
        ensures
            r@ == AssemblerView::empty(Seq::new(label_names@.len(), |i: int| label_names@[i]@)),
            r@.wf(),
    {
        let r = Assembler { insns: Vec::new(), live_ranges: Vec::new(), label_names };
        assert(r@.insns =~= Seq::empty());
        r
    }

    /// Appends an instruction and returns the operand that stands for its
    /// output. The live range of every instruction that it reads is extended
    /// to the new instruction.
    pub fn push_insn(&mut self, insn: Insn) -> (out: Opnd)
        requires
            old(self)@.wf(),
            old(self)@.accepts(insn@.opnds),
        ensures
            final(self)@ == old(self)@.push(insn@),
            final(self)@.wf(),
            old(self)@.exact() ==> final(self)@.exact(),
            out == old(self)@.next_out(insn@.opnds),
    {
        let mut insn = insn;
        let insn_idx = self.insns.len();
        let ghost before = self@;
        let ghost opnds = insn@.opnds;
        let ghost iv = insn@;
        let n = insn.opnds.len();

        let mut k: usize = 0;
        while k < n
            invariant
                k <= n,
                n == insn.opnds@.len(),
                insn@ == iv,
                opnds == iv.opnds,
                insn_idx == before.insns.len(),
                refs_below(opnds, before.insns.len()),
                before.insns.len() == before.live_ranges.len(),
                self@.insns == before.insns,
                self@.label_names == before.label_names,
                self.live_ranges@ == extend_live_ranges(
                    before.live_ranges,
                    opnds.take(k as int),
                    insn_idx,
                ),
            decreases n - k,
        {
            let ghost lr = self.live_ranges@;
            let opnd = insn.opnds[k];
            assert(opnd == opnds[k as int]);
            match opnd {
                Opnd::InsnOut { idx, .. } => {
                    self.live_ranges.set(idx, insn_idx);
                },
                Opnd::Mem(Mem { base: MemBase::InsnOut(idx), .. }) => {
                    self.live_ranges.set(idx, insn_idx);
                },
                _ => {},
            }
            proof {
                let next = extend_live_ranges(before.live_ranges, opnds.take(k as int + 1), insn_idx);
                assert forall|j: int| 0 <= j < next.len() implies self.live_ranges@[j] == next[j] by {
                    lemma_operand_uses_step(opnds, k as int, j as usize);
                }
                assert(self.live_ranges@ =~= next);
            }
            k += 1;
        }
        assert(opnds.take(n as int) =~= opnds);

        let mut width: Option<u8> = None;
        let mut i: usize = 0;
        while i < n && width.is_none()
            invariant
                i <= n,
                n == insn.opnds@.len(),
                insn@ == iv,
                opnds == iv.opnds,
                width is None ==> first_num_bits(opnds, 0) == first_num_bits(opnds, i as int),
                width is Some ==> first_num_bits(opnds, 0) == width,
            decreases n - i + (if width is None { 1int } else { 0int }),
        {
            let opnd = insn.opnds[i];
            assert(opnd == opnds[i as int]);
            width = opnd.num_bits();
            i += 1;
        }
        let num_bits: u8 = match width {
            Some(w) => w,
            None => 64,
        };

        let out_opnd = Opnd::InsnOut { idx: insn_idx, num_bits };
        insn.out = out_opnd;
        self.insns.push(insn);
        self.live_ranges.push(insn_idx);
        let new_len = self.insns.len();
        proof {
            assert(before.insns.len() + 1 == new_len);
            lemma_push_wf(before, iv);
            if before.exact() {
                lemma_push_exact(before, iv);
            }
            assert(self@.insns =~= before.push(iv).insns);
            assert(self@.label_names =~= before.label_names);
        }
        out_opnd
    }

    /// Appends an instruction made of the given parts.
    pub fn push_insn_parts(
        &mut self,
        op: Op,
        opnds: Vec<Opnd>,
        target: Option<Target>,
        text: Option<String>,
        pos_marker: Option<usize>,
    ) -> (out: Opnd)
        requires
            old(self)@.wf(),
            old(self)@.accepts(opnds@),
        ensures
            final(self)@ == old(self)@.push(
                InsnView {
                    op,
                    text: match text {
                        Some(t) => Some(t@),
                        None => None,
                    },
                    opnds: opnds@,
                    out: Opnd::Absent,
                    target,
                    pos_marker,
                },
            ),
            final(self)@.wf(),
            out == old(self)@.next_out(opnds@),
    {
        self.push_insn(Insn { op, text, opnds, out: Opnd::Absent, target, pos_marker })
    }
}

/// A list of one operand.
fn opnds1(a: Opnd) -> (v: Vec<Opnd>)
    ensures
        v@ == seq![a],
{
    let mut v: Vec<Opnd> = Vec::new();
    v.push(a);
    assert(v@ =~= seq![a]);
    v
}

/// A list of two operands.
fn opnds2(a: Opnd, b: Opnd) -> (v: Vec<Opnd>)
    ensures
        v@ == seq![a, b],
{
    let mut v: Vec<Opnd> = Vec::new();
    v.push(a);
    v.push(b);
    assert(v@ =~= seq![a, b]);
    v
}

/// The instruction that calls the C function at `fptr` with the given
/// arguments.
pub open spec fn ccall_insn(fptr: u64, opnds: Seq<Opnd>) -> InsnView {
    InsnView {
        op: Op::CCall,
        text: None,
        opnds,
        out: Opnd::Absent,
        target: Some(Target::FunPtr(fptr)),
        pos_marker: None,
    }
}

/// The instruction that reports its position under `marker`.
pub open spec fn pos_marker_insn(marker: usize) -> InsnView {
    InsnView {
        op: Op::PosMarker,
        text: None,
        opnds: Seq::empty(),
        out: Opnd::Absent,
        target: None,
        pos_marker: Some(marker),
    }
}

impl Assembler {
    /// Adds a label with the given name, which holds no space, and returns
    /// the target that stands for it.
    pub fn new_label(&mut self, name: &str) -> (label: Target)
        requires
            !name@.contains(' '),
        ensures
            final(self)@ == (AssemblerView { label_names: old(self)@.label_names.push(name@), ..old(self)@ }),
            label == Target::Label(old(self)@.label_names.len() as usize),
    {
        let label_idx = self.label_names.len();
        self.label_names.push(name.to_owned());
        proof {
            assert(self@.label_names =~= old(self)@.label_names.push(name@));
            assert(self@.insns =~= old(self)@.insns);
        }
        Target::Label(label_idx)
    }

    /// Binds a label of this assembler to the current position.
    pub fn write_label(&mut self, label: Target)
        requires
            old(self)@.wf(),
            label matches Target::Label(idx) && idx < old(self)@.label_names.len(),
        ensures
            final(self)@ == old(self)@.push_jump(Op::Label, label),
            final(self)@.wf(),
    {
        self.push_insn(Insn { op: Op::Label, opnds: Vec::new(), out: Opnd::Absent, text: None, target: Some(label), pos_marker: None });
    }

    /// Calls the C function at `fptr` with the given arguments; the output
    /// is its result.
    pub fn ccall(&mut self, fptr: u64, opnds: Vec<Opnd>) -> (out: Opnd)
        requires
            old(self)@.wf(),
            old(self)@.accepts(opnds@),
        ensures
            final(self)@ == old(self)@.push(ccall_insn(fptr, opnds@)),
            final(self)@.wf(),
            out == old(self)@.next_out(opnds@),
    {
        self.push_insn(Insn { op: Op::CCall, opnds, out: Opnd::Absent, text: None, target: Some(Target::FunPtr(fptr)), pos_marker: None })
    }

    /// Has the emitter report the position of this point in the code under
    /// the key `marker`.
    pub fn pos_marker(&mut self, marker: usize)
        requires
            old(self)@.wf(),
        ensures
            final(self)@ == old(self)@.push(pos_marker_insn(marker)),
            final(self)@.wf(),
    {
        self.push_insn(Insn { op: Op::PosMarker, opnds: Vec::new(), out: Opnd::Absent, text: None, target: None, pos_marker: Some(marker) });
    }

    /// Loads the address of a label.
    pub fn lea_label(&mut self, target: Target) -> (out: Opnd)
        requires
            old(self)@.wf(),
        ensures
            final(self)@ == old(self)@.push_jump(Op::LeaLabel, target),
            final(self)@.wf(),
            out == old(self)@.next_out(Seq::empty()),
    {
        self.push_insn(Insn { op: Op::LeaLabel, opnds: Vec::new(), out: Opnd::Absent, text: None, target: Some(target), pos_marker: None })
    }

    /// Adds two operands; the sum is the output.
    pub fn add(&mut self, left: Opnd, right: Opnd) -> (out: Opnd)
        requires
            old(self)@.wf(),
            old(self)@.accepts(seq![left, right]),
        ensures
            final(self)@ == old(self)@.push_op(Op::Add, seq![left, right]),
            final(self)@.wf(),
            out == old(self)@.next_out(seq![left, right]),
    {
        self.push_insn(Insn { op: Op::Add, opnds: opnds2(left, right), out: Opnd::Absent, text: None, target: None, pos_marker: None })
    }

    /// Bitwise AND of two operands.
    pub fn and(&mut self, left: Opnd, right: Opnd) -> (out: Opnd)
        requires
            old(self)@.wf(),
            old(self)@.accepts(seq![left, right]),
        ensures
            final(self)@ == old(self)@.push_op(Op::And, seq![left, right]),
            final(self)@.wf(),
            out == old(self)@.next_out(seq![left, right]),
    {
        self.push_insn(Insn { op: Op::And, opnds: opnds2(left, right), out: Opnd::Absent, text: None, target: None, pos_marker: None })
    }

    /// Selects `truthy` if the flags say equal, else `falsy`.
    pub fn csel_e(&mut self, truthy: Opnd, falsy: Opnd) -> (out: Opnd)
        requires
            old(self)@.wf(),
            old(self)@.accepts(seq![truthy, falsy]),
        ensures
            final(self)@ == old(self)@.push_op(Op::CSelE, seq![truthy, falsy]),
            final(self)@.wf(),
            out == old(self)@.next_out(seq![truthy, falsy]),
    {
        self.push_insn(Insn { op: Op::CSelE, opnds: opnds2(truthy, falsy), out: Opnd::Absent, text: None, target: None, pos_marker: None })
    }

    /// Selects `truthy` if the flags say greater, else `falsy`.
    pub fn csel_g(&mut self, truthy: Opnd, falsy: Opnd) -> (out: Opnd)
        requires
            old(self)@.wf(),
            old(self)@.accepts(seq![truthy, falsy]),
        ensures
            final(self)@ == old(self)@.push_op(Op::CSelG, seq![truthy, falsy]),
            final(self)@.wf(),
            out == old(self)@.next_out(seq![truthy, falsy]),
    {
        self.push_insn(Insn { op: Op::CSelG, opnds: opnds2(truthy, falsy), out: Opnd::Absent, text: None, target: None, pos_marker: None })
    }

    /// Selects `truthy` if the flags say greater or equal, else `falsy`.
    pub fn csel_ge(&mut self, truthy: Opnd, falsy: Opnd) -> (out: Opnd)
        requires
            old(self)@.wf(),
            old(self)@.accepts(seq![truthy, falsy]),
        ensures
            final(self)@ == old(self)@.push_op(Op::CSelGE, seq![truthy, falsy]),
            final(self)@.wf(),
            out == old(self)@.next_out(seq![truthy, falsy]),
    {
        self.push_insn(Insn { op: Op::CSelGE, opnds: opnds2(truthy, falsy), out: Opnd::Absent, text: None, target: None, pos_marker: None })
    }

    /// Selects `truthy` if the flags say less, else `falsy`.
    pub fn csel_l(&mut self, truthy: Opnd, falsy: Opnd) -> (out: Opnd)
        requires
            old(self)@.wf(),
            old(self)@.accepts(seq![truthy, falsy]),
        ensures
            final(self)@ == old(self)@.push_op(Op::CSelL, seq![truthy, falsy]),
            final(self)@.wf(),
            out == old(self)@.next_out(seq![truthy, falsy]),
    {
        self.push_insn(Insn { op: Op::CSelL, opnds: opnds2(truthy, falsy), out: Opnd::Absent, text: None, target: None, pos_marker: None })
    }

    /// Selects `truthy` if the flags say less or equal, else `falsy`.
    pub fn csel_le(&mut self, truthy: Opnd, falsy: Opnd) -> (out: Opnd)
        requires
            old(self)@.wf(),
            old(self)@.accepts(seq![truthy, falsy]),
        ensures
            final(self)@ == old(self)@.push_op(Op::CSelLE, seq![truthy, falsy]),
            final(self)@.wf(),
            out == old(self)@.next_out(seq![truthy, falsy]),
    {
        self.push_insn(Insn { op: Op::CSelLE, opnds: opnds2(truthy, falsy), out: Opnd::Absent, text: None, target: None, pos_marker: None })
    }

    /// Selects `truthy` if the flags say not equal, else `falsy`.
    pub fn csel_ne(&mut self, truthy: Opnd, falsy: Opnd) -> (out: Opnd)
        requires
            old(self)@.wf(),
            old(self)@.accepts(seq![truthy, falsy]),
        ensures
            final(self)@ == old(self)@.push_op(Op::CSelNE, seq![truthy, falsy]),
            final(self)@.wf(),
            out == old(self)@.next_out(seq![truthy, falsy]),
    {
        self.push_insn(Insn { op: Op::CSelNE, opnds: opnds2(truthy, falsy), out: Opnd::Absent, text: None, target: None, pos_marker: None })
    }

    /// Selects `truthy` if the flags say not zero, else `falsy`.
    pub fn csel_nz(&mut self, truthy: Opnd, falsy: Opnd) -> (out: Opnd)
        requires
            old(self)@.wf(),
            old(self)@.accepts(seq![truthy, falsy]),
        ensures
            final(self)@ == old(self)@.push_op(Op::CSelNZ, seq![truthy, falsy]),
            final(self)@.wf(),
            out == old(self)@.next_out(seq![truthy, falsy]),
    {
        self.push_insn(Insn { op: Op::CSelNZ, opnds: opnds2(truthy, falsy), out: Opnd::Absent, text: None, target: None, pos_marker: None })
    }

    /// Selects `truthy` if the flags say zero, else `falsy`.
    pub fn csel_z(&mut self, truthy: Opnd, falsy: Opnd) -> (out: Opnd)
        requires
            old(self)@.wf(),
            old(self)@.accepts(seq![truthy, falsy]),
        ensures
            final(self)@ == old(self)@.push_op(Op::CSelZ, seq![truthy, falsy]),
            final(self)@.wf(),
            out == old(self)@.next_out(seq![truthy, falsy]),
    {
        self.push_insn(Insn { op: Op::CSelZ, opnds: opnds2(truthy, falsy), out: Opnd::Absent, text: None, target: None, pos_marker: None })
    }

    /// Shifts `opnd` left by `shift`.
    pub fn lshift(&mut self, opnd: Opnd, shift: Opnd) -> (out: Opnd)
        requires
            old(self)@.wf(),
            old(self)@.accepts(seq![opnd, shift]),
        ensures
            final(self)@ == old(self)@.push_op(Op::LShift, seq![opnd, shift]),
            final(self)@.wf(),
            out == old(self)@.next_out(seq![opnd, shift]),
    {
        self.push_insn(Insn { op: Op::LShift, opnds: opnds2(opnd, shift), out: Opnd::Absent, text: None, target: None, pos_marker: None })
    }

    /// Bitwise OR of two operands.
    pub fn or(&mut self, left: Opnd, right: Opnd) -> (out: Opnd)
        requires
            old(self)@.wf(),
            old(self)@.accepts(seq![left, right]),
        ensures
            final(self)@ == old(self)@.push_op(Op::Or, seq![left, right]),
            final(self)@.wf(),
            out == old(self)@.next_out(seq![left, right]),
    {
        self.push_insn(Insn { op: Op::Or, opnds: opnds2(left, right), out: Opnd::Absent, text: None, target: None, pos_marker: None })
    }

    /// Shifts `opnd` right by `shift`, keeping the sign.
    pub fn rshift(&mut self, opnd: Opnd, shift: Opnd) -> (out: Opnd)
        requires
            old(self)@.wf(),
            old(self)@.accepts(seq![opnd, shift]),
        ensures
            final(self)@ == old(self)@.push_op(Op::RShift, seq![opnd, shift]),
            final(self)@.wf(),
            out == old(self)@.next_out(seq![opnd, shift]),
    {
        self.push_insn(Insn { op: Op::RShift, opnds: opnds2(opnd, shift), out: Opnd::Absent, text: None, target: None, pos_marker: None })
    }

    /// Subtracts `right` from `left`.
    pub fn sub(&mut self, left: Opnd, right: Opnd) -> (out: Opnd)
        requires
            old(self)@.wf(),
            old(self)@.accepts(seq![left, right]),
        ensures
            final(self)@ == old(self)@.push_op(Op::Sub, seq![left, right]),
            final(self)@.wf(),
            out == old(self)@.next_out(seq![left, right]),
    {
        self.push_insn(Insn { op: Op::Sub, opnds: opnds2(left, right), out: Opnd::Absent, text: None, target: None, pos_marker: None })
    }

    /// Shifts `opnd` right by `shift`, filling with zeros.
    pub fn urshift(&mut self, opnd: Opnd, shift: Opnd) -> (out: Opnd)
        requires
            old(self)@.wf(),
            old(self)@.accepts(seq![opnd, shift]),
        ensures
            final(self)@ == old(self)@.push_op(Op::URShift, seq![opnd, shift]),
            final(self)@.wf(),
            out == old(self)@.next_out(seq![opnd, shift]),
    {
        self.push_insn(Insn { op: Op::URShift, opnds: opnds2(opnd, shift), out: Opnd::Absent, text: None, target: None, pos_marker: None })
    }

    /// Bitwise XOR of two operands.
    pub fn xor(&mut self, left: Opnd, right: Opnd) -> (out: Opnd)
        requires
            old(self)@.wf(),
            old(self)@.accepts(seq![left, right]),
        ensures
            final(self)@ == old(self)@.push_op(Op::Xor, seq![left, right]),
            final(self)@.wf(),
            out == old(self)@.next_out(seq![left, right]),
    {
        self.push_insn(Insn { op: Op::Xor, opnds: opnds2(left, right), out: Opnd::Absent, text: None, target: None, pos_marker: None })
    }

    /// Compares two operands and sets the flags.
    pub fn cmp(&mut self, left: Opnd, right: Opnd)
        requires
            old(self)@.wf(),
            old(self)@.accepts(seq![left, right]),
        ensures
            final(self)@ == old(self)@.push_op(Op::Cmp, seq![left, right]),
            final(self)@.wf(),
    {
        self.push_insn(Insn { op: Op::Cmp, opnds: opnds2(left, right), out: Opnd::Absent, text: None, target: None, pos_marker: None });
    }

    /// Atomically adds `value` to the counter at `mem`.
    pub fn incr_counter(&mut self, mem: Opnd, value: Opnd)
        requires
            old(self)@.wf(),
            old(self)@.accepts(seq![mem, value]),
        ensures
            final(self)@ == old(self)@.push_op(Op::IncrCounter, seq![mem, value]),
            final(self)@.wf(),
    {
        self.push_insn(Insn { op: Op::IncrCounter, opnds: opnds2(mem, value), out: Opnd::Absent, text: None, target: None, pos_marker: None });
    }

    /// Loads `opnd` into `dest`.
    pub fn load_into(&mut self, dest: Opnd, opnd: Opnd)
        requires
            old(self)@.wf(),
            old(self)@.accepts(seq![dest, opnd]),
        ensures
            final(self)@ == old(self)@.push_op(Op::LoadInto, seq![dest, opnd]),
            final(self)@.wf(),
    {
        self.push_insn(Insn { op: Op::LoadInto, opnds: opnds2(dest, opnd), out: Opnd::Absent, text: None, target: None, pos_marker: None });
    }

    /// Moves `src` into `dest`.
    pub fn mov(&mut self, dest: Opnd, src: Opnd)
        requires
            old(self)@.wf(),
            old(self)@.accepts(seq![dest, src]),
        ensures
            final(self)@ == old(self)@.push_op(Op::Mov, seq![dest, src]),
            final(self)@.wf(),
    {
        self.push_insn(Insn { op: Op::Mov, opnds: opnds2(dest, src), out: Opnd::Absent, text: None, target: None, pos_marker: None });
    }

    /// Stores `src` at `dest`.
    pub fn store(&mut self, dest: Opnd, src: Opnd)
        requires
            old(self)@.wf(),
            old(self)@.accepts(seq![dest, src]),
        ensures
            final(self)@ == old(self)@.push_op(Op::Store, seq![dest, src]),
            final(self)@.wf(),
    {
        self.push_insn(Insn { op: Op::Store, opnds: opnds2(dest, src), out: Opnd::Absent, text: None, target: None, pos_marker: None });
    }

    /// ANDs two operands and sets the flags.
    pub fn test(&mut self, left: Opnd, right: Opnd)
        requires
            old(self)@.wf(),
            old(self)@.accepts(seq![left, right]),
        ensures
            final(self)@ == old(self)@.push_op(Op::Test, seq![left, right]),
            final(self)@.wf(),
    {
        self.push_insn(Insn { op: Op::Test, opnds: opnds2(left, right), out: Opnd::Absent, text: None, target: None, pos_marker: None });
    }

    /// Loads the address of a memory operand.
    pub fn lea(&mut self, opnd: Opnd) -> (out: Opnd)
        requires
            old(self)@.wf(),
            old(self)@.accepts(seq![opnd]),
        ensures
            final(self)@ == old(self)@.push_op(Op::Lea, seq![opnd]),
            final(self)@.wf(),
            out == old(self)@.next_out(seq![opnd]),
    {
        self.push_insn(Insn { op: Op::Lea, opnds: opnds1(opnd), out: Opnd::Absent, text: None, target: None, pos_marker: None })
    }

    /// Claims the register `opnd`; the output stands for it.
    pub fn live_reg_opnd(&mut self, opnd: Opnd) -> (out: Opnd)
        requires
            old(self)@.wf(),
            old(self)@.accepts(seq![opnd]),
        ensures
            final(self)@ == old(self)@.push_op(Op::LiveReg, seq![opnd]),
            final(self)@.wf(),
            out == old(self)@.next_out(seq![opnd]),
    {
        self.push_insn(Insn { op: Op::LiveReg, opnds: opnds1(opnd), out: Opnd::Absent, text: None, target: None, pos_marker: None })
    }

    /// Loads an operand into a register.
    pub fn load(&mut self, opnd: Opnd) -> (out: Opnd)
        requires
            old(self)@.wf(),
            old(self)@.accepts(seq![opnd]),
        ensures
            final(self)@ == old(self)@.push_op(Op::Load, seq![opnd]),
            final(self)@.wf(),
            out == old(self)@.next_out(seq![opnd]),
    {
        self.push_insn(Insn { op: Op::Load, opnds: opnds1(opnd), out: Opnd::Absent, text: None, target: None, pos_marker: None })
    }

    /// Loads an operand into a register, sign-extended to 64 bits.
    pub fn load_sext(&mut self, opnd: Opnd) -> (out: Opnd)
        requires
            old(self)@.wf(),
            old(self)@.accepts(seq![opnd]),
        ensures
            final(self)@ == old(self)@.push_op(Op::LoadSExt, seq![opnd]),
            final(self)@.wf(),
            out == old(self)@.next_out(seq![opnd]),
    {
        self.push_insn(Insn { op: Op::LoadSExt, opnds: opnds1(opnd), out: Opnd::Absent, text: None, target: None, pos_marker: None })
    }

    /// Bitwise NOT of an operand.
    pub fn not(&mut self, opnd: Opnd) -> (out: Opnd)
        requires
            old(self)@.wf(),
            old(self)@.accepts(seq![opnd]),
        ensures
            final(self)@ == old(self)@.push_op(Op::Not, seq![opnd]),
            final(self)@.wf(),
            out == old(self)@.next_out(seq![opnd]),
    {
        self.push_insn(Insn { op: Op::Not, opnds: opnds1(opnd), out: Opnd::Absent, text: None, target: None, pos_marker: None })
    }

    /// Pops the C stack into `opnd`.
    pub fn cpop_into(&mut self, opnd: Opnd)
        requires
            old(self)@.wf(),
            old(self)@.accepts(seq![opnd]),
        ensures
            final(self)@ == old(self)@.push_op(Op::CPopInto, seq![opnd]),
            final(self)@.wf(),
    {
        self.push_insn(Insn { op: Op::CPopInto, opnds: opnds1(opnd), out: Opnd::Absent, text: None, target: None, pos_marker: None });
    }

    /// Pushes `opnd` on the C stack.
    pub fn cpush(&mut self, opnd: Opnd)
        requires
            old(self)@.wf(),
            old(self)@.accepts(seq![opnd]),
        ensures
            final(self)@ == old(self)@.push_op(Op::CPush, seq![opnd]),
            final(self)@.wf(),
    {
        self.push_insn(Insn { op: Op::CPush, opnds: opnds1(opnd), out: Opnd::Absent, text: None, target: None, pos_marker: None });
    }

    /// Returns `opnd` from the generated function.
    pub fn cret(&mut self, opnd: Opnd)
        requires
            old(self)@.wf(),
            old(self)@.accepts(seq![opnd]),
        ensures
            final(self)@ == old(self)@.push_op(Op::CRet, seq![opnd]),
            final(self)@.wf(),
    {
        self.push_insn(Insn { op: Op::CRet, opnds: opnds1(opnd), out: Opnd::Absent, text: None, target: None, pos_marker: None });
    }

    /// Jumps to the address that `opnd` holds.
    pub fn jmp_opnd(&mut self, opnd: Opnd)
        requires
            old(self)@.wf(),
            old(self)@.accepts(seq![opnd]),
        ensures
            final(self)@ == old(self)@.push_op(Op::JmpOpnd, seq![opnd]),
            final(self)@.wf(),
    {
        self.push_insn(Insn { op: Op::JmpOpnd, opnds: opnds1(opnd), out: Opnd::Absent, text: None, target: None, pos_marker: None });
    }

    /// Stops in the debugger.
    pub fn breakpoint(&mut self)
        requires
            old(self)@.wf(),
        ensures
            final(self)@ == old(self)@.push_op(Op::Breakpoint, Seq::empty()),
            final(self)@.wf(),
    {
        self.push_insn(Insn { op: Op::Breakpoint, opnds: Vec::new(), out: Opnd::Absent, text: None, target: None, pos_marker: None });
    }

    /// Pops the caller-save registers and the flags from the C stack.
    pub fn cpop_all(&mut self)
        requires
            old(self)@.wf(),
        ensures
            final(self)@ == old(self)@.push_op(Op::CPopAll, Seq::empty()),
            final(self)@.wf(),
    {
        self.push_insn(Insn { op: Op::CPopAll, opnds: Vec::new(), out: Opnd::Absent, text: None, target: None, pos_marker: None });
    }

    /// Pushes the caller-save registers and the flags on the C stack.
    pub fn cpush_all(&mut self)
        requires
            old(self)@.wf(),
        ensures
            final(self)@ == old(self)@.push_op(Op::CPushAll, Seq::empty()),
            final(self)@.wf(),
    {
        self.push_insn(Insn { op: Op::CPushAll, opnds: Vec::new(), out: Opnd::Absent, text: None, target: None, pos_marker: None });
    }

    /// Sets up the stack frame.
    pub fn frame_setup(&mut self)
        requires
            old(self)@.wf(),
        ensures
            final(self)@ == old(self)@.push_op(Op::FrameSetup, Seq::empty()),
            final(self)@.wf(),
    {
        self.push_insn(Insn { op: Op::FrameSetup, opnds: Vec::new(), out: Opnd::Absent, text: None, target: None, pos_marker: None });
    }

    /// Tears down the stack frame.
    pub fn frame_teardown(&mut self)
        requires
            old(self)@.wf(),
        ensures
            final(self)@ == old(self)@.push_op(Op::FrameTeardown, Seq::empty()),
            final(self)@.wf(),
    {
        self.push_insn(Insn { op: Op::FrameTeardown, opnds: Vec::new(), out: Opnd::Absent, text: None, target: None, pos_marker: None });
    }

    /// Pads the code so that a jump to an address fits over it.
    pub fn pad_inval_patch(&mut self)
        requires
            old(self)@.wf(),
        ensures
            final(self)@ == old(self)@.push_op(Op::PadInvalPatch, Seq::empty()),
            final(self)@.wf(),
    {
        self.push_insn(Insn { op: Op::PadInvalPatch, opnds: Vec::new(), out: Opnd::Absent, text: None, target: None, pos_marker: None });
    }

    /// Pops the C stack into a register.
    pub fn cpop(&mut self) -> (out: Opnd)
        requires
            old(self)@.wf(),
        ensures
            final(self)@ == old(self)@.push_op(Op::CPop, Seq::empty()),
            final(self)@.wf(),
            out == old(self)@.next_out(Seq::empty()),
    {
        self.push_insn(Insn { op: Op::CPop, opnds: Vec::new(), out: Opnd::Absent, text: None, target: None, pos_marker: None })
    }

    /// Jumps to `target` if below or equal.
    pub fn jbe(&mut self, target: Target)
        requires
            old(self)@.wf(),
        ensures
            final(self)@ == old(self)@.push_jump(Op::Jbe, target),
            final(self)@.wf(),
    {
        self.push_insn(Insn { op: Op::Jbe, opnds: Vec::new(), out: Opnd::Absent, text: None, target: Some(target), pos_marker: None });
    }

    /// Jumps to `target` if equal.
    pub fn je(&mut self, target: Target)
        requires
            old(self)@.wf(),
        ensures
            final(self)@ == old(self)@.push_jump(Op::Je, target),
            final(self)@.wf(),
    {
        self.push_insn(Insn { op: Op::Je, opnds: Vec::new(), out: Opnd::Absent, text: None, target: Some(target), pos_marker: None });
    }

    /// Jumps to `target` if less.
    pub fn jl(&mut self, target: Target)
        requires
            old(self)@.wf(),
        ensures
            final(self)@ == old(self)@.push_jump(Op::Jl, target),
            final(self)@.wf(),
    {
        self.push_insn(Insn { op: Op::Jl, opnds: Vec::new(), out: Opnd::Absent, text: None, target: Some(target), pos_marker: None });
    }

    /// Jumps to `target`.
    pub fn jmp(&mut self, target: Target)
        requires
            old(self)@.wf(),
        ensures
            final(self)@ == old(self)@.push_jump(Op::Jmp, target),
            final(self)@.wf(),
    {
        self.push_insn(Insn { op: Op::Jmp, opnds: Vec::new(), out: Opnd::Absent, text: None, target: Some(target), pos_marker: None });
    }

    /// Jumps to `target` if not equal.
    pub fn jne(&mut self, target: Target)
        requires
            old(self)@.wf(),
        ensures
            final(self)@ == old(self)@.push_jump(Op::Jne, target),
            final(self)@.wf(),
    {
        self.push_insn(Insn { op: Op::Jne, opnds: Vec::new(), out: Opnd::Absent, text: None, target: Some(target), pos_marker: None });
    }

    /// Jumps to `target` if not zero.
    pub fn jnz(&mut self, target: Target)
        requires
            old(self)@.wf(),
        ensures
            final(self)@ == old(self)@.push_jump(Op::Jnz, target),
            final(self)@.wf(),
    {
        self.push_insn(Insn { op: Op::Jnz, opnds: Vec::new(), out: Opnd::Absent, text: None, target: Some(target), pos_marker: None });
    }

    /// Jumps to `target` on overflow.
    pub fn jo(&mut self, target: Target)
        requires
            old(self)@.wf(),
        ensures
            final(self)@ == old(self)@.push_jump(Op::Jo, target),
            final(self)@.wf(),
    {
        self.push_insn(Insn { op: Op::Jo, opnds: Vec::new(), out: Opnd::Absent, text: None, target: Some(target), pos_marker: None });
    }

    /// Jumps to `target` if zero.
    pub fn jz(&mut self, target: Target)
        requires
            old(self)@.wf(),
        ensures
            final(self)@ == old(self)@.push_jump(Op::Jz, target),
            final(self)@.wf(),
    {
        self.push_insn(Insn { op: Op::Jz, opnds: Vec::new(), out: Opnd::Absent, text: None, target: Some(target), pos_marker: None });
    }

    /// Bakes `text`, followed by a NUL byte, into the code.
    pub fn bake_string(&mut self, text: &str)
        requires
            old(self)@.wf(),
        ensures
            final(self)@ == old(self)@.push_text(Op::BakeString, text@),
            final(self)@.wf(),
    {
        self.push_insn(Insn { op: Op::BakeString, opnds: Vec::new(), out: Opnd::Absent, text: Some(text.to_owned()), target: None, pos_marker: None });
    }

    /// Adds a comment.
    pub fn comment(&mut self, text: &str)
        requires
            old(self)@.wf(),
        ensures
            final(self)@ == old(self)@.push_text(Op::Comment, text@),
            final(self)@.wf(),
    {
        self.push_insn(Insn { op: Op::Comment, opnds: Vec::new(), out: Opnd::Absent, text: Some(text.to_owned()), target: None, pos_marker: None });
    }
}

/// The mathematical content of a draining iterator.
pub struct DrainingView {
    /// The instructions not yet handed out, in order.
    pub remaining: Seq<InsnView>,
    /// The index, in the drained assembler, of the next instruction.
    pub index: usize,
    /// For each instruction already dealt with, the index of the instruction
    /// that stands for it in the assembler being built.
    pub indices: Seq<usize>,
}

/// Walks through the instructions of an assembler and consumes them, while
/// the caller builds a new assembler; keeps the table from old to new
/// indices.
pub struct AssemblerDrainingIterator {
    // The remaining instructions, last one first.
    insns: Vec<Insn>,
    index: usize,
    indices: Vec<usize>,
}

impl View for AssemblerDrainingIterator {
    type V = DrainingView;

    closed spec fn view(&self) -> DrainingView {
        DrainingView {
            remaining: Seq::new(self.insns@.len(), |k: int| self.insns@[self.insns@.len() - 1 - k]@),
            index: self.index,
            indices: self.indices@,
        }
    }
}

impl AssemblerDrainingIterator {
    /// The index never runs past what a `usize` holds.
    pub closed spec fn wf(&self) -> bool {
        self.index + self.insns@.len() <= usize::MAX
    }

    fn new(assembler: Assembler) -> (it: AssemblerDrainingIterator)
        ensures
            it@.remaining == assembler@.insns,
            it@.index == 0,
            it@.indices == Seq::<usize>::empty(),
            it.wf(),
    {
        let ghost orig = assembler.insns@;
        let mut src = assembler.insns;
        let n = src.len();
        let mut rev: Vec<Insn> = Vec::new();
        while src.len() > 0
            invariant
                n == orig.len(),
                src@ == orig.take(src@.len() as int),
                rev@.len() + src@.len() == n,
                forall|k: int| 0 <= k < rev@.len() ==> rev@[k] == orig[n - 1 - k],
            decreases src@.len(),
        {
            let ghost m = src@.len();
            let insn = src.pop();
            match insn {
                Some(insn) => {
                    assert(insn == orig[m - 1]);
                    rev.push(insn);
                },
                None => {},
            }
            assert(src@ =~= orig.take(src@.len() as int));
        }
        let it = AssemblerDrainingIterator { insns: rev, index: 0, indices: Vec::new() };
        assert(it@.remaining =~= assembler@.insns);
        it
    }

    /// Notes that the instruction last handed out is now represented by the
    /// last instruction of `assembler`.
    pub fn map_insn_index(&mut self, assembler: &mut Assembler)
        requires
            old(assembler)@.insns.len() > 0,
        ensures
            final(self)@ == (DrainingView {
                indices: old(self)@.indices.push((old(assembler)@.insns.len() - 1) as usize),
                ..old(self)@
            }),
            final(self).wf() == old(self).wf(),
            final(assembler)@ == old(assembler)@,
    {
        self.indices.push(assembler.insns.len() - 1);
    }

    /// An operand with its reference to an old instruction replaced by one
    /// to the new instruction that stands for it.
    pub fn map_opnd(&self, opnd: Opnd) -> (r: Opnd)
        requires
            opnd.insn_ref() matches Some(i) ==> i < self@.indices.len(),
        ensures
            r == opnd.spec_map_index(self@.indices),
    {
        opnd.map_index(&self.indices)
    }

    /// The next instruction with its index in the drained assembler, its
    /// operands as they stood there.
    pub fn next_unmapped(&mut self) -> (r: Option<(usize, Insn)>)
        requires
            old(self).wf(),
        ensures
            final(self).wf(),
            final(self)@.indices == old(self)@.indices,
            old(self)@.remaining.len() == 0 ==> r is None && final(self)@ == old(self)@,
            old(self)@.remaining.len() > 0 ==> {
                &&& r matches Some((index, insn))
                &&& index == old(self)@.index
                &&& insn@ == old(self)@.remaining[0]
                &&& final(self)@.remaining == old(self)@.remaining.drop_first()
                &&& final(self)@.index == old(self)@.index + 1
            },
    {
        let index = self.index;
        match self.insns.pop() {
            Some(insn) => {
                self.index += 1;
                proof {
                    assert(self@.remaining =~= old(self)@.remaining.drop_first());
                }
                Some((index, insn))
            },
            None => {
                proof {
                    assert(self@.remaining =~= old(self)@.remaining);
                }
                None
            },
        }
    }

    /// The next instruction with its index in the drained assembler, its
    /// operands already referring to the assembler being built.
    pub fn next_mapped(&mut self) -> (r: Option<(usize, Insn)>)
        requires
            old(self).wf(),
            old(self)@.remaining.len() > 0 ==> refs_below(old(self)@.remaining[0].opnds, old(self)@.indices.len()),
        ensures
            final(self).wf(),
            final(self)@.indices == old(self)@.indices,
            old(self)@.remaining.len() == 0 ==> r is None && final(self)@ == old(self)@,
            old(self)@.remaining.len() > 0 ==> {
                &&& r matches Some((index, insn))
                &&& index == old(self)@.index
                &&& insn@ == (InsnView {
                    opnds: Seq::new(
                        old(self)@.remaining[0].opnds.len(),
                        |k: int| old(self)@.remaining[0].opnds[k].spec_map_index(old(self)@.indices),
                    ),
                    ..old(self)@.remaining[0]
                })
                &&& final(self)@.remaining == old(self)@.remaining.drop_first()
                &&& final(self)@.index == old(self)@.index + 1
            },
    {
        match self.next_unmapped() {
            Some((index, insn)) => {
                let Insn { op, text, opnds, out, target, pos_marker } = insn;
                let mut mapped: Vec<Opnd> = Vec::new();
                let mut k: usize = 0;
                while k < opnds.len()
                    invariant
                        k <= opnds@.len(),
                        refs_below(opnds@, self.indices@.len()),
                        mapped@ == Seq::new(k as nat, |j: int| opnds@[j].spec_map_index(self.indices@)),
                    decreases opnds@.len() - k,
                {
                    let opnd = opnds[k];
                    assert(opnd == opnds@[k as int]);
                    mapped.push(opnd.map_index(&self.indices));
                    assert(mapped@ =~= Seq::new(
                        (k + 1) as nat,
                        |j: int| opnds@[j].spec_map_index(self.indices@),
                    ));
                    k += 1;
                }
                Some((index, Insn { op, text, opnds: mapped, out, target, pos_marker }))
            },
            None => None,
        }
    }
}

/// Walks through the instructions of an assembler that it holds, without
/// consuming them, and lets the caller look around the current position.
pub struct AssemblerLookbackIterator {
    assembler: Assembler,
    index: usize,
}

impl AssemblerLookbackIterator {
    /// The assembler that the iterator holds.
    pub closed spec fn assembler(&self) -> AssemblerView {
        self.assembler@
    }

    /// The index of the instruction that `next_unmapped` looks at next.
    pub closed spec fn index(&self) -> usize {
        self.index
    }

    fn new(assembler: Assembler) -> (it: AssemblerLookbackIterator)
        ensures
            it.assembler() == assembler@,
            it.index() == 0,
    {
        AssemblerLookbackIterator { assembler, index: 0 }
    }

    /// The instruction at `index`, if there is one.
    pub fn get(&self, index: usize) -> (r: Option<&Insn>)
        ensures
            r is Some == (index < self.assembler().insns.len()),
            r matches Some(insn) ==> insn@ == self.assembler().insns[index as int],
    {
        if index < self.assembler.insns.len() {
            Some(&self.assembler.insns[index])
        } else {
            None
        }
    }

    /// The instruction `difference` places from the current one, if the
    /// current index fits 31 bits and there is an instruction at that place.
    pub fn get_relative(&self, difference: i32) -> (r: Option<&Insn>)
        ensures
            r is Some == (self.index() <= i32::MAX && 0 <= self.index() + difference
                < self.assembler().insns.len()),
            r matches Some(insn) ==> insn@ == self.assembler().insns[self.index() + difference],
    {
        if self.index > 0x7fff_ffff {
            return None;
        }
        let relative: i64 = self.index as i64 + difference as i64;
        if relative < 0 {
            return None;
        }
        self.get(relative as usize)
    }

    /// The instruction before the current one.
    pub fn get_previous(&self) -> (r: Option<&Insn>)
        ensures
            r is Some == (self.index() <= i32::MAX && 0 <= self.index() - 1 < self.assembler().insns.len()),
            r matches Some(insn) ==> insn@ == self.assembler().insns[self.index() - 1],
    {
        self.get_relative(-1)
    }

    /// The instruction after the current one.
    pub fn get_next(&self) -> (r: Option<&Insn>)
        ensures
            r is Some == (self.index() <= i32::MAX && self.index() + 1 < self.assembler().insns.len()),
            r matches Some(insn) ==> insn@ == self.assembler().insns[self.index() + 1],
    {
        self.get_relative(1)
    }

    /// The current instruction with its index; moves on to the next.
    pub fn next_unmapped(&mut self) -> (r: Option<(usize, &Insn)>)
        requires
            old(self).index() < usize::MAX,
        ensures
            final(self).assembler() == old(self).assembler(),
            final(self).index() == old(self).index() + 1,
            r is Some == (old(self).index() < old(self).assembler().insns.len()),
            r matches Some((index, insn)) ==> index == old(self).index() && insn@ == old(
                self,
            ).assembler().insns[index as int],
    {
        let index = self.index;
        self.index = index + 1;
        if index < self.assembler.insns.len() {
            Some((index, &self.assembler.insns[index]))
        } else {
            None
        }
    }
}

impl Assembler {
    /// Hands the instructions over to an iterator that consumes them.
    pub fn into_draining_iter(self) -> (it: AssemblerDrainingIterator)
        ensures
            it@.remaining == self@.insns,
            it@.index == 0,
            it@.indices == Seq::<usize>::empty(),
            it.wf(),
    {
        AssemblerDrainingIterator::new(self)
    }

    /// Hands the assembler over to an iterator that looks at its
    /// instructions.
    pub fn into_lookback_iter(self) -> (it: AssemblerLookbackIterator)
        ensures
            it.assembler() == self@,
            it.index() == 0,
    {
        AssemblerLookbackIterator::new(self)
    }
}

/// Whether all operands that carry a width carry the same one.
pub fn operands_agree(opnds: &Vec<Opnd>) -> (b: bool)
    ensures
        b == widths_agree(opnds@),
{
    let mut seen: Option<u8> = None;
    let mut k: usize = 0;
    while k < opnds.len()
        invariant
            k <= opnds@.len(),
            forall|j: int|
                0 <= j < k ==> ((#[trigger] opnds@[j]).spec_num_bits() is Some ==> opnds@[j].spec_num_bits()
                    == seen),
            seen is Some ==> exists|j: int| 0 <= j < k && (#[trigger] opnds@[j]).spec_num_bits() == seen,
        decreases opnds@.len() - k,
    {
        match opnds[k].num_bits() {
            Some(w) => {
                match seen {
                    Some(s) => {
                        if s != w {
                            proof {
                                let j = choose|j: int| 0 <= j < k && (#[trigger] opnds@[j]).spec_num_bits() == seen;
                                assert(opnds@[j].spec_num_bits() is Some);
                                assert(opnds@[k as int].spec_num_bits() is Some);
                            }
                            return false;
                        }
                    },
                    None => {
                        seen = Some(w);
                    },
                }
            },
            None => {},
        }
        k += 1;
    }
    true
}

/// Whether every instruction that the operands read has an index below
/// `len`.
pub fn operands_below(opnds: &Vec<Opnd>, len: usize) -> (b: bool)
    ensures
        b == refs_below(opnds@, len as nat),
{
    let mut k: usize = 0;
    while k < opnds.len()
        invariant
            k <= opnds@.len(),
            forall|j: int| 0 <= j < k ==> ((#[trigger] opnds@[j]).insn_ref() matches Some(r) ==> r < len),
        decreases opnds@.len() - k,
    {
        let below = match opnds[k] {
            Opnd::InsnOut { idx, .. } => idx < len,
            Opnd::Mem(Mem { base: MemBase::InsnOut(idx), .. }) => idx < len,
            _ => true,
        };
        if !below {
            assert(opnds@[k as int].insn_ref() is Some);
            return false;
        }
        k += 1;
    }
    true
}

impl Assembler {
    /// Whether the live ranges are as many as the instructions and each
    /// runs from its instruction to an instruction of the list.
    pub fn is_wf(&self) -> (b: bool)
        ensures
            b == self@.wf(),
    {
        if self.insns.len() != self.live_ranges.len() {
            return false;
        }
        let n = self.live_ranges.len();
        let mut i: usize = 0;
        while i < n
            invariant
                i <= n,
                n == self.live_ranges@.len(),
                n == self@.insns.len(),
                forall|j: int| 0 <= j < i ==> j <= (#[trigger] self@.live_ranges[j]) < n,
            decreases n - i,
        {
            let end = self.live_ranges[i];
            if end < i || end >= n {
                return false;
            }
            i += 1;
        }
        true
    }

    /// Whether an instruction with these operands can be appended.
    pub fn accepts(&self, opnds: &Vec<Opnd>) -> (b: bool)
        ensures
            b == self@.accepts(opnds@),
    {
        operands_below(opnds, self.insns.len()) && operands_agree(opnds)
    }
}

} // verus!
