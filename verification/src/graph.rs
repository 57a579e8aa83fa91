//! The control-flow graph: constants, operands, instructions and blocks.

use vstd::prelude::*;

verus! {

/// Bit pattern of the real number `+0.0`.
pub const REAL_ZERO: u64 = 0;

/// Bit pattern of the real number `-0.0`.
pub const REAL_NEG_ZERO: u64 = 0x8000_0000_0000_0000;

/// Bit pattern of the real number `1.0`.
pub const REAL_ONE: u64 = 0x3FF0_0000_0000_0000;

/// A literal. Reals are held by their IEEE-754 binary64 bit pattern, strings
/// by the index of the interned literal.
#[derive(Clone, Copy, Debug, PartialEq, Eq, Structural)]
pub enum Const {
    Real(u64),
    Int(i32),
    Bool(bool),
    Str(u32),
}

impl Const {
    /// The real number behind the bit pattern is `+0.0` or `-0.0`.
    pub open spec fn spec_is_real_zero(self) -> bool {
        self == Const::Real(REAL_ZERO) || self == Const::Real(REAL_NEG_ZERO)
    }

    /// The constant is the real number `1.0`.
    pub open spec fn spec_is_real_one(self) -> bool {
        self == Const::Real(REAL_ONE)
    }

    /// Truth value of a constant used as a branch condition: a boolean is
    /// itself, a number is true when it is not zero, a string is false.
    pub open spec fn spec_as_bool(self) -> bool {
        match self {
            Const::Bool(b) => b,
            Const::Int(i) => i != 0,
            Const::Real(bits) => bits != REAL_ZERO && bits != REAL_NEG_ZERO,
            Const::Str(_) => false,
        }
    }

    #[verifier::when_used_as_spec(spec_is_real_zero)]
    pub fn is_real_zero(self) -> (res: bool)
        ensures
            res == self.spec_is_real_zero(),
    {
        match self {
            Const::Real(bits) => bits == REAL_ZERO || bits == REAL_NEG_ZERO,
            _ => false,
        }
    }

    #[verifier::when_used_as_spec(spec_is_real_one)]
    pub fn is_real_one(self) -> (res: bool)
        ensures
            res == self.spec_is_real_one(),
    {
        match self {
            Const::Real(bits) => bits == REAL_ONE,
            _ => false,
        }
    }

    #[verifier::when_used_as_spec(spec_as_bool)]
    pub fn as_bool(self) -> (res: bool)
        ensures
            res == self.spec_as_bool(),
    {
        match self {
            Const::Bool(b) => b,
            Const::Int(i) => i != 0,
            Const::Real(bits) => bits != REAL_ZERO && bits != REAL_NEG_ZERO,
            Const::Str(_) => false,
        }
    }
}

/// An operator of an instruction.
#[derive(Clone, Copy, Debug, PartialEq, Eq, Structural)]
pub enum Op {
    Copy,
    IntAdd,
    IntSub,
    IntMul,
    IntDiv,
    IntRem,
    IntArithNeg,
    RealAdd,
    RealSub,
    RealMul,
    RealDiv,
    RealArithNeg,
    Sqrt,
    Exp,
    Ln,
    Sin,
    Cos,
    Pow,
    IntLt,
    IntLe,
    IntGt,
    IntGe,
    IntEq,
    IntNe,
    RealLt,
    RealLe,
    RealGt,
    RealGe,
    RealEq,
    RealNe,
    BoolEq,
    BoolNe,
    BoolNot,
    IntToReal,
    RealToInt,
    BoolToInt,
    IntToBool,
    BoolToReal,
    RealToBool,
}

impl Op {
    /// Number of operands the operator takes.
    pub open spec fn spec_arity(self) -> usize {
        match self {
            Op::Copy | Op::IntArithNeg | Op::RealArithNeg | Op::Sqrt | Op::Exp | Op::Ln | Op::Sin
            | Op::Cos | Op::BoolNot | Op::IntToReal | Op::RealToInt | Op::BoolToInt | Op::IntToBool
            | Op::BoolToReal | Op::RealToBool => 1,
            _ => 2,
        }
    }

    /// The operator computes with real numbers in a way that only
    /// floating-point hardware can reproduce: its constant folding is left
    /// to a [`crate::eval::RealArith`].
    pub open spec fn spec_needs_real_arith(self) -> bool {
        match self {
            Op::RealAdd | Op::RealSub | Op::RealMul | Op::RealDiv | Op::Sqrt | Op::Exp | Op::Ln
            | Op::Sin | Op::Cos | Op::Pow | Op::IntToReal | Op::RealToInt => true,
            _ => false,
        }
    }

    #[verifier::when_used_as_spec(spec_arity)]
    pub fn arity(self) -> (n: usize)
        ensures
            n == self.spec_arity(),
    {
        match self {
            Op::Copy | Op::IntArithNeg | Op::RealArithNeg | Op::Sqrt | Op::Exp | Op::Ln | Op::Sin
            | Op::Cos | Op::BoolNot | Op::IntToReal | Op::RealToInt | Op::BoolToInt | Op::IntToBool
            | Op::BoolToReal | Op::RealToBool => 1,
            _ => 2,
        }
    }

    #[verifier::when_used_as_spec(spec_needs_real_arith)]
    pub fn needs_real_arith(self) -> (res: bool)
        ensures
            res == self.spec_needs_real_arith(),
    {
        match self {
            Op::RealAdd | Op::RealSub | Op::RealMul | Op::RealDiv | Op::Sqrt | Op::Exp | Op::Ln
            | Op::Sin | Op::Cos | Op::Pow | Op::IntToReal | Op::RealToInt => true,
            _ => false,
        }
    }
}

/// What an instruction reads.
#[derive(Clone, Copy, Debug, PartialEq, Eq, Structural)]
pub enum Operand {
    /// A literal.
    Const(Const),
    /// An SSA temporary.
    Local(u32),
    /// A mutable location.
    Place(u32),
    /// An input that the simulator supplies.
    Param(u32),
    /// A call of a compiler intrinsic or a derivative query, by its index in
    /// the table of call-backs.
    CallBack(u32),
}

/// Where an instruction writes.
#[derive(Clone, Copy, Debug, PartialEq, Eq, Structural)]
pub enum InstrDst {
    Local(u32),
    Place(u32),
    Ignore,
}

/// One instruction. A negative `src` marks an instruction that the compiler
/// generated itself.
#[derive(Debug)]
pub struct Instruction {
    pub op: Op,
    pub args: Vec<Operand>,
    pub dst: InstrDst,
    pub src: i32,
}

/// An instruction as a mathematical value.
pub struct InstructionView {
    pub op: Op,
    pub args: Seq<Operand>,
    pub dst: InstrDst,
    pub src: i32,
}

impl View for Instruction {
    type V = InstructionView;

    open spec fn view(&self) -> InstructionView {
        InstructionView { op: self.op, args: self.args@, dst: self.dst, src: self.src }
    }
}

/// A phi node: one `(predecessor block, local)` pair per predecessor.
#[derive(Debug)]
pub struct Phi {
    pub dst: u32,
    pub sources: Vec<(u32, u32)>,
}

/// A phi node as a mathematical value.
pub struct PhiView {
    pub dst: u32,
    pub sources: Seq<(u32, u32)>,
}

impl View for Phi {
    type V = PhiView;

    open spec fn view(&self) -> PhiView {
        PhiView { dst: self.dst, sources: self.sources@ }
    }
}

/// How a block ends.
#[derive(Clone, Copy, Debug, PartialEq, Eq, Structural)]
pub enum Terminator {
    Goto { target: u32 },
    Split { condition: Operand, then_block: u32, else_block: u32, loop_head: bool },
    Return,
}

impl Terminator {
    /// The blocks that control may pass to.
    pub open spec fn successors(self) -> Seq<u32> {
        match self {
            Terminator::Goto { target } => seq![target],
            Terminator::Split { then_block, else_block, .. } => seq![then_block, else_block],
            Terminator::Return => seq![],
        }
    }

    /// Control may pass to `block`.
    pub open spec fn spec_has_successor(self, block: u32) -> bool {
        match self {
            Terminator::Goto { target } => target == block,
            Terminator::Split { then_block, else_block, .. } => then_block == block || else_block
                == block,
            Terminator::Return => false,
        }
    }

    #[verifier::when_used_as_spec(spec_has_successor)]
    pub fn has_successor(self, block: u32) -> (res: bool)
        ensures
            res == self.spec_has_successor(block),
    {
        match self {
            Terminator::Goto { target } => target == block,
            Terminator::Split { then_block, else_block, .. } => then_block == block || else_block
                == block,
            Terminator::Return => false,
        }
    }
}

/// A basic block.
#[derive(Debug)]
pub struct BasicBlockData {
    pub phis: Vec<Phi>,
    pub instructions: Vec<Instruction>,
    pub terminator: Terminator,
}

/// A basic block as a mathematical value.
pub struct BasicBlockView {
    pub phis: Seq<PhiView>,
    pub instructions: Seq<InstructionView>,
    pub terminator: Terminator,
}

impl View for BasicBlockData {
    type V = BasicBlockView;

    open spec fn view(&self) -> BasicBlockView {
        BasicBlockView {
            phis: Seq::new(self.phis@.len(), |i: int| self.phis@[i]@),
            instructions: Seq::new(self.instructions@.len(), |i: int| self.instructions@[i]@),
            terminator: self.terminator,
        }
    }
}

/// A control-flow graph. Block 0 is the entry.
#[derive(Debug)]
pub struct ControlFlowGraph {
    pub blocks: Vec<BasicBlockData>,
    /// Every local of the graph is below this number.
    pub next_local: u32,
    /// Every place of the graph is below this number.
    pub next_place: u32,
}

/// A control-flow graph as a mathematical value.
pub struct CfgView {
    pub blocks: Seq<BasicBlockView>,
    pub next_local: u32,
    pub next_place: u32,
}

impl View for ControlFlowGraph {
    type V = CfgView;

    open spec fn view(&self) -> CfgView {
        CfgView {
            blocks: Seq::new(self.blocks@.len(), |i: int| self.blocks@[i]@),
            next_local: self.next_local,
            next_place: self.next_place,
        }
    }
}

impl ControlFlowGraph {
    /// Every block that control may pass to exists.
    pub open spec fn spec_targets_exist(&self) -> bool {
        forall|b: int, t: u32|
            0 <= b < self.blocks@.len() && #[trigger] self.blocks@[b].terminator.has_successor(t)
                ==> t < self.blocks@.len()
    }

    /// Checks that every block that control may pass to exists.
    #[verifier::when_used_as_spec(spec_targets_exist)]
    pub fn targets_exist(&self) -> (res: bool)
        ensures
            res == self.spec_targets_exist(),
    {
        let n = self.blocks.len();
        let mut b: usize = 0;
        while b < n
            invariant
                b <= n,
                n == self.blocks@.len(),
                forall|c: int, t: u32|
                    0 <= c < b && #[trigger] self.blocks@[c].terminator.has_successor(t) ==> t < n,
            decreases n - b,
        {
            let ok = match self.blocks[b].terminator {
                Terminator::Goto { target } => (target as usize) < n,
                Terminator::Split { then_block, else_block, .. } => (then_block as usize) < n && (
                else_block as usize) < n,
                Terminator::Return => true,
            };
            if !ok {
                proof {
                    let term = self.blocks@[b as int].terminator;
                    let bad = match term {
                        Terminator::Goto { target } => target,
                        Terminator::Split { then_block, else_block, .. } => if then_block >= n {
                            then_block
                        } else {
                            else_block
                        },
                        Terminator::Return => 0u32,
                    };
                    assert(self.blocks@[b as int].terminator.has_successor(bad));
                }
                return false;
            }
            b += 1;
        }
        true
    }
}

/// Every operand of `after` is a literal or an operand of `before`.
pub open spec fn spec_operands_from(before: Seq<Operand>, after: Seq<Operand>) -> bool {
    forall|i: int|
        0 <= i < after.len() ==> (#[trigger] after[i]) is Const || before.contains(after[i])
}

impl InstructionView {
    /// `after` writes where `self` writes, comes from the same source, and
    /// reads nothing that `self` does not read.
    pub open spec fn rewritten_to(self, after: InstructionView) -> bool {
        &&& after.dst == self.dst
        &&& after.src == self.src
        &&& spec_operands_from(self.args, after.args)
    }
}

impl Terminator {
    /// `after` leads where `self` leads, and its condition is that of
    /// `self` or a literal.
    pub open spec fn rewritten_to(self, after: Terminator) -> bool {
        match (self, after) {
            (
                Terminator::Split { condition, then_block, else_block, loop_head },
                Terminator::Split {
                    condition: condition2,
                    then_block: then2,
                    else_block: else2,
                    loop_head: head2,
                },
            ) => then2 == then_block && else2 == else_block && head2 == loop_head && (condition2
                == condition || condition2 is Const),
            _ => after == self,
        }
    }
}

impl BasicBlockView {
    /// `after` has the phis of `self`, an instruction for each of its
    /// instructions, and its terminator, each rewritten at most.
    pub open spec fn rewritten_to(self, after: BasicBlockView) -> bool {
        &&& after.phis == self.phis
        &&& after.instructions.len() == self.instructions.len()
        &&& forall|i: int|
            0 <= i < self.instructions.len() ==> (#[trigger] self.instructions[i]).rewritten_to(
                after.instructions[i],
            )
        &&& self.terminator.rewritten_to(after.terminator)
    }
}

impl CfgView {
    /// `after` is `self` with its blocks rewritten at most.
    pub open spec fn rewritten_to(self, after: CfgView) -> bool {
        &&& after.next_local == self.next_local
        &&& after.next_place == self.next_place
        &&& after.blocks.len() == self.blocks.len()
        &&& forall|b: int|
            0 <= b < self.blocks.len() ==> (#[trigger] self.blocks[b]).rewritten_to(after.blocks[b])
    }
}

impl PhiView {
    /// The blocks that the sources of the phi come from, in the order of
    /// the sources.
    pub open spec fn source_blocks(self) -> Seq<u32> {
        Seq::new(self.sources.len(), |j: int| self.sources[j].0)
    }
}

impl CfgView {
    /// Control may pass from the end of `from` to the start of `to`.
    pub open spec fn has_edge(self, from: int, to: int) -> bool {
        &&& 0 <= from < self.blocks.len()
        &&& 0 <= to < self.blocks.len()
        &&& to <= u32::MAX
        &&& self.blocks[from].terminator.has_successor(to as u32)
    }

    /// `path` leads from the entry block along edges.
    pub open spec fn is_path(self, path: Seq<int>) -> bool {
        &&& path.len() > 0
        &&& path[0] == 0
        &&& 0 < self.blocks.len()
        &&& forall|i: int| 0 <= i < path.len() - 1 ==> self.has_edge(#[trigger] path[i], path[i + 1])
    }

    /// Every path from the entry to `b` passes through `a`.
    pub open spec fn dominates(self, a: int, b: int) -> bool {
        forall|path: Seq<int>| #[trigger]
            self.is_path(path) && path.last() == b ==> path.contains(a)
    }

    /// The phi or instruction at position `pos` of block `b` defines
    /// `local`. The phis of a block have the positions before those of its
    /// instructions.
    pub open spec fn defines(self, b: int, pos: int, local: u32) -> bool {
        &&& 0 <= b < self.blocks.len()
        &&& {
            let block = self.blocks[b];
            if 0 <= pos < block.phis.len() {
                block.phis[pos].dst == local
            } else if block.phis.len() <= pos < block.phis.len() + block.instructions.len() {
                block.instructions[pos - block.phis.len()].dst == InstrDst::Local(local)
            } else {
                false
            }
        }
    }

    /// The instruction at position `pos` of block `b` reads `local`, or the
    /// terminator of `b` does, whose position is after the instructions.
    pub open spec fn reads(self, b: int, pos: int, local: u32) -> bool {
        &&& 0 <= b < self.blocks.len()
        &&& {
            let block = self.blocks[b];
            let first = block.phis.len();
            let end = first + block.instructions.len();
            if first <= pos < end {
                block.instructions[pos - first].args.contains(Operand::Local(local))
            } else if pos == end {
                block.terminator matches Terminator::Split { condition, .. } && condition
                    == Operand::Local(local)
            } else {
                false
            }
        }
    }

    /// Some phi reads `local` on the edge that comes from `pred`.
    pub open spec fn phi_reads(self, pred: int, local: u32) -> bool {
        exists|b: int, k: int, j: int|
            0 <= b < self.blocks.len() && 0 <= k < self.blocks[b].phis.len() && 0 <= j
                < self.blocks[b].phis[k].sources.len() && (
            #[trigger] self.blocks[b].phis[k].sources[j]) == (pred as u32, local) && 0 <= pred
                <= u32::MAX
    }

    /// SSA dominance: every local has at most one definition, every read
    /// of a local comes after its definition in the same block or in a
    /// block that the definition's block dominates, and what a phi reads on
    /// an edge is defined in a block that dominates the block the edge
    /// comes from.
    pub open spec fn ssa_dominance(self) -> bool {
        &&& forall|b1: int, p1: int, b2: int, p2: int, local: u32|
            #![trigger self.defines(b1, p1, local), self.defines(b2, p2, local)]
            self.defines(b1, p1, local) && self.defines(b2, p2, local) ==> b1 == b2 && p1 == p2
        &&& forall|b: int, pos: int, local: u32| #[trigger]
            self.reads(b, pos, local) ==> exists|d: int, dp: int| #[trigger]
                self.defines(d, dp, local) && if d == b {
                    dp < pos
                } else {
                    self.dominates(d, b)
                }
        &&& forall|pred: int, local: u32| #[trigger]
            self.phi_reads(pred, local) ==> exists|d: int, dp: int| #[trigger]
                self.defines(d, dp, local) && self.dominates(d, pred)
    }

    /// The blocks below `n` that have an edge to `b`, in ascending order.
    pub open spec fn predecessors_below(self, b: int, n: int) -> Seq<u32>
        decreases n,
    {
        if n <= 0 {
            Seq::empty()
        } else {
            let rest = self.predecessors_below(b, n - 1);
            if self.has_edge(n - 1, b) {
                rest.push((n - 1) as u32)
            } else {
                rest
            }
        }
    }

    /// The predecessors of `b`, in ascending order.
    pub open spec fn predecessors(self, b: int) -> Seq<u32> {
        self.predecessors_below(b, self.blocks.len() as int)
    }

    /// Every phi has exactly one source for each predecessor of its block,
    /// in the order of the predecessors.
    pub open spec fn phis_well_formed(self) -> bool {
        forall|b: int, k: int|
            0 <= b < self.blocks.len() && 0 <= k < self.blocks[b].phis.len() ==> (
            #[trigger] self.blocks[b].phis[k]).source_blocks() == self.predecessors(b)
    }

    /// A rewritten graph has the edges of the graph it comes from.
    pub proof fn lemma_rewritten_edges(self, after: CfgView)
        requires
            self.rewritten_to(after),
        ensures
            forall|from: int, to: int| self.has_edge(from, to) == after.has_edge(from, to),
            forall|path: Seq<int>| self.is_path(path) == after.is_path(path),
            forall|a: int, b: int| self.dominates(a, b) == after.dominates(a, b),
    {
        assert forall|from: int, to: int| self.has_edge(from, to) == after.has_edge(from, to) by {
            if 0 <= from < self.blocks.len() {
                assert(self.blocks[from].rewritten_to(after.blocks[from]));
            }
        }
        assert forall|path: Seq<int>| self.is_path(path) == after.is_path(path) by {
            if self.is_path(path) {
                assert forall|i: int| 0 <= i < path.len() - 1 implies after.has_edge(
                    #[trigger] path[i],
                    path[i + 1],
                ) by {
                    assert(self.has_edge(path[i], path[i + 1]));
                }
            }
            if after.is_path(path) {
                assert forall|i: int| 0 <= i < path.len() - 1 implies self.has_edge(
                    #[trigger] path[i],
                    path[i + 1],
                ) by {
                    assert(after.has_edge(path[i], path[i + 1]));
                }
            }
        }
        assert forall|a: int, b: int| self.dominates(a, b) == after.dominates(a, b) by {
            if self.dominates(a, b) {
                assert forall|path: Seq<int>| #[trigger]
                    after.is_path(path) && path.last() == b implies path.contains(a) by {
                    assert(self.is_path(path));
                }
            }
            if after.dominates(a, b) {
                assert forall|path: Seq<int>| #[trigger]
                    self.is_path(path) && path.last() == b implies path.contains(a) by {
                    assert(after.is_path(path));
                }
            }
        }
    }

    /// Rewriting keeps SSA dominance: a graph that comes from a graph with
    /// SSA dominance by rewriting has it too.
    pub proof fn lemma_rewritten_keeps_ssa_dominance(self, after: CfgView)
        requires
            self.rewritten_to(after),
            self.ssa_dominance(),
        ensures
            after.ssa_dominance(),
    {
        self.lemma_rewritten_edges(after);
        assert forall|b: int, pos: int, local: u32|
            self.defines(b, pos, local) == after.defines(b, pos, local) by {
            if 0 <= b < self.blocks.len() {
                let old_block = self.blocks[b];
                let new_block = after.blocks[b];
                assert(old_block.rewritten_to(new_block));
                if old_block.phis.len() <= pos < old_block.phis.len() + old_block.instructions.len() {
                    assert(old_block.instructions[pos - old_block.phis.len()].rewritten_to(
                        new_block.instructions[pos - old_block.phis.len()],
                    ));
                }
            }
        }
        assert forall|b: int, pos: int, local: u32| after.reads(b, pos, local) implies self.reads(
            b,
            pos,
            local,
        ) by {
            let old_block = self.blocks[b];
            let new_block = after.blocks[b];
            assert(old_block.rewritten_to(new_block));
            let first = old_block.phis.len();
            if first <= pos < first + old_block.instructions.len() {
                let old_instr = old_block.instructions[pos - first];
                let new_instr = new_block.instructions[pos - first];
                assert(old_instr.rewritten_to(new_instr));
                let j = choose|j: int|
                    0 <= j < new_instr.args.len() && new_instr.args[j] == Operand::Local(local);
                assert(!(new_instr.args[j] is Const));
            }
        }
        assert forall|pred: int, local: u32| after.phi_reads(pred, local) implies self.phi_reads(
            pred,
            local,
        ) by {
            let (b, k, j) = choose|b: int, k: int, j: int|
                0 <= b < after.blocks.len() && 0 <= k < after.blocks[b].phis.len() && 0 <= j
                    < after.blocks[b].phis[k].sources.len() && (
                #[trigger] after.blocks[b].phis[k].sources[j]) == (pred as u32, local) && 0 <= pred
                    <= u32::MAX;
            assert(self.blocks[b].rewritten_to(after.blocks[b]));
            assert(self.blocks[b].phis[k].sources[j] == (pred as u32, local));
        }
        assert forall|b1: int, p1: int, b2: int, p2: int, local: u32|
            #![trigger after.defines(b1, p1, local), after.defines(b2, p2, local)]
            after.defines(b1, p1, local) && after.defines(b2, p2, local) implies b1 == b2 && p1
            == p2 by {
            assert(self.defines(b1, p1, local) && self.defines(b2, p2, local));
        }
        assert forall|b: int, pos: int, local: u32| #[trigger]
            after.reads(b, pos, local) implies exists|d: int, dp: int| #[trigger]
            after.defines(d, dp, local) && if d == b {
                dp < pos
            } else {
                after.dominates(d, b)
            } by {
            assert(self.reads(b, pos, local));
            let (d, dp) = choose|d: int, dp: int| #[trigger]
                self.defines(d, dp, local) && if d == b {
                    dp < pos
                } else {
                    self.dominates(d, b)
                };
            assert(after.defines(d, dp, local));
        }
        assert forall|pred: int, local: u32| #[trigger]
            after.phi_reads(pred, local) implies exists|d: int, dp: int| #[trigger]
            after.defines(d, dp, local) && after.dominates(d, pred) by {
            assert(self.phi_reads(pred, local));
            let (d, dp) = choose|d: int, dp: int| #[trigger]
                self.defines(d, dp, local) && self.dominates(d, pred);
            assert(after.defines(d, dp, local));
        }
    }

    /// A rewritten graph gives every block the predecessors it had.
    pub proof fn lemma_rewritten_predecessors(self, after: CfgView, b: int, n: int)
        requires
            self.rewritten_to(after),
        ensures
            self.predecessors_below(b, n) == after.predecessors_below(b, n),
        decreases n,
    {
        if n > 0 {
            self.lemma_rewritten_predecessors(after, b, n - 1);
            self.lemma_rewritten_edges(after);
        }
    }

    /// Rewriting keeps the phis well-formed.
    pub proof fn lemma_rewritten_keeps_phis_well_formed(self, after: CfgView)
        requires
            self.rewritten_to(after),
            self.phis_well_formed(),
        ensures
            after.phis_well_formed(),
    {
        assert forall|b: int, k: int|
            0 <= b < after.blocks.len() && 0 <= k < after.blocks[b].phis.len() implies (
        #[trigger] after.blocks[b].phis[k]).source_blocks() == after.predecessors(b) by {
            assert(self.blocks[b].rewritten_to(after.blocks[b]));
            assert(self.blocks[b].phis[k] == after.blocks[b].phis[k]);
            self.lemma_rewritten_predecessors(after, b, self.blocks.len() as int);
        }
    }
}

impl ControlFlowGraph {
    /// The predecessors of `block`, in ascending order.
    pub fn predecessors(&self, block: u32) -> (res: Vec<u32>)
        requires
            self.blocks@.len() <= u32::MAX,
        ensures
            res@ == self@.predecessors(block as int),
    {
        let n = self.blocks.len();
        let mut res: Vec<u32> = Vec::new();
        let mut from: usize = 0;
        while from < n
            invariant
                from <= n,
                n == self.blocks@.len(),
                n <= u32::MAX,
                res@ == self@.predecessors_below(block as int, from as int),
            decreases n - from,
        {
            assert(self@.blocks[from as int].terminator == self.blocks@[from as int].terminator);
            if (block as usize) < n && self.blocks[from].terminator.has_successor(block) {
                res.push(from as u32);
            }
            from += 1;
        }
        res
    }

    /// Checks that every phi has exactly one source for each predecessor
    /// of its block, in the order of the predecessors.
    pub fn phis_well_formed(&self) -> (res: bool)
        requires
            self.blocks@.len() <= u32::MAX,
        ensures
            res == self@.phis_well_formed(),
    {
        let n = self.blocks.len();
        let mut b: usize = 0;
        while b < n
            invariant
                b <= n,
                n == self.blocks@.len(),
                n <= u32::MAX,
                forall|c: int, k: int|
                    0 <= c < b && 0 <= k < self@.blocks[c].phis.len() ==> (
                    #[trigger] self@.blocks[c].phis[k]).source_blocks() == self@.predecessors(c),
            decreases n - b,
        {
            let preds = self.predecessors(b as u32);
            let block = &self.blocks[b];
            let mut k: usize = 0;
            while k < block.phis.len()
                invariant
                    k <= block.phis@.len(),
                    b < n,
                    n == self.blocks@.len(),
                    *block == self.blocks@[b as int],
                    preds@ == self@.predecessors(b as int),
                    forall|j: int|
                        0 <= j < k ==> (#[trigger] self@.blocks[b as int].phis[j]).source_blocks()
                            == preds@,
                decreases block.phis@.len() - k,
            {
                let phi = &block.phis[k];
                assert(self@.blocks[b as int].phis[k as int] == phi@);
                let mut same = phi.sources.len() == preds.len();
                let mut j: usize = 0;
                while same && j < phi.sources.len()
                    invariant
                        j <= phi.sources@.len(),
                        same ==> phi.sources@.len() == preds@.len(),
                        same ==> forall|i: int| 0 <= i < j ==> phi.sources@[i].0 == preds@[i],
                        !same ==> phi@.source_blocks() != preds@,
                    decreases phi.sources@.len() - j,
                {
                    if phi.sources[j].0 != preds[j] {
                        same = false;
                        assert(phi@.source_blocks()[j as int] != preds@[j as int]);
                    }
                    j += 1;
                }
                if !same {
                    return false;
                }
                assert(phi@.source_blocks() =~= preds@);
                k += 1;
            }
            b += 1;
        }
        true
    }
}

impl CfgView {
    /// A path leads from the entry to `b`.
    pub open spec fn reachable(self, b: int) -> bool {
        exists|path: Seq<int>| #[trigger] self.is_path(path) && path.last() == b
    }

    /// A set of blocks that holds the entry, and with a block every block
    /// that an edge leads to from it, holds every reachable block.
    pub proof fn lemma_closed_set_holds_reachable(self, inside: Seq<bool>, path: Seq<int>, i: int)
        requires
            inside.len() == self.blocks.len(),
            self.is_path(path),
            0 <= i < path.len(),
            inside[0],
            forall|a: int, b: int|
                0 <= a < inside.len() && inside[a] && #[trigger] self.has_edge(a, b) ==> inside[b],
        ensures
            0 <= path[i] < inside.len(),
            inside[path[i]],
        decreases i,
    {
        if i > 0 {
            self.lemma_closed_set_holds_reachable(inside, path, i - 1);
            assert(self.has_edge(path[i - 1], path[i]));
        }
    }
}

/// The number of blocks that were not visited.
pub open spec fn spec_unvisited(visited: Seq<bool>) -> nat
    decreases visited.len(),
{
    if visited.len() == 0 {
        0
    } else {
        spec_unvisited(visited.drop_last()) + if visited.last() {
            0nat
        } else {
            1nat
        }
    }
}

proof fn lemma_unvisited_update(visited: Seq<bool>, i: int)
    requires
        0 <= i < visited.len(),
        !visited[i],
    ensures
        spec_unvisited(visited.update(i, true)) == spec_unvisited(visited) - 1,
    decreases visited.len(),
{
    let after = visited.update(i, true);
    if i == visited.len() - 1 {
        assert(after.drop_last() =~= visited.drop_last());
    } else {
        lemma_unvisited_update(visited.drop_last(), i);
        assert(after.drop_last() =~= visited.drop_last().update(i, true));
    }
}

proof fn lemma_unvisited_monotone(before: Seq<bool>, after: Seq<bool>)
    requires
        before.len() == after.len(),
        forall|i: int| 0 <= i < before.len() && before[i] ==> after[i],
    ensures
        spec_unvisited(after) <= spec_unvisited(before),
    decreases before.len(),
{
    if before.len() > 0 {
        lemma_unvisited_monotone(before.drop_last(), after.drop_last());
    }
}

/// What holds of a depth-first search at every moment: the blocks that it
/// has finished are blocks that it has visited, none is finished twice,
/// every block that it has visited can be reached from the entry, and from
/// a finished block every edge leads to a visited block.
pub open spec fn spec_search(cfg: CfgView, visited: Seq<bool>, finished: Seq<u32>) -> bool {
    &&& visited.len() == cfg.blocks.len()
    &&& forall|i: int|
        0 <= i < finished.len() ==> (#[trigger] finished[i]) < visited.len()
            && visited[finished[i] as int]
    &&& forall|i: int, j: int|
        0 <= i < finished.len() && 0 <= j < finished.len() && #[trigger] finished[i]
            == #[trigger] finished[j] ==> i == j
    &&& forall|b: int| 0 <= b < visited.len() && #[trigger] visited[b] ==> cfg.reachable(b)
    &&& forall|i: int, b: int|
        0 <= i < finished.len() && #[trigger] cfg.has_edge(finished[i] as int, b) ==> visited[b]
}

/// A block that an edge leads to from a reachable block is reachable.
proof fn lemma_edge_reaches(cfg: CfgView, from: int, to: int)
    requires
        cfg.reachable(from),
        cfg.has_edge(from, to),
    ensures
        cfg.reachable(to),
{
    let path = choose|path: Seq<int>| #[trigger] cfg.is_path(path) && path.last() == from;
    let longer = path.push(to);
    assert forall|i: int| 0 <= i < longer.len() - 1 implies cfg.has_edge(
        #[trigger] longer[i],
        longer[i + 1],
    ) by {
        if i < path.len() - 1 {
            assert(cfg.has_edge(path[i], path[i + 1]));
        }
    }
    assert(cfg.is_path(longer) && longer.last() == to);
}

/// Finishing a visited block from which every edge leads to a visited
/// block keeps what holds of the search.
proof fn lemma_finish(cfg: CfgView, visited: Seq<bool>, finished: Seq<u32>, block: u32)
    requires
        spec_search(cfg, visited, finished),
        block < visited.len(),
        visited[block as int],
        !finished.contains(block),
        forall|b: int| #[trigger] cfg.has_edge(block as int, b) ==> visited[b],
    ensures
        spec_search(cfg, visited, finished.push(block)),
{
    let after = finished.push(block);
    assert forall|i: int, j: int|
        0 <= i < after.len() && 0 <= j < after.len() && #[trigger] after[i]
            == #[trigger] after[j] implies i == j by {
        if i < finished.len() && j < finished.len() {
            assert(finished[i] == finished[j]);
        } else if i < finished.len() {
            assert(finished[i] == block);
        } else if j < finished.len() {
            assert(finished[j] == block);
        }
    }
    assert forall|i: int, b: int|
        0 <= i < after.len() && #[trigger] cfg.has_edge(after[i] as int, b) implies visited[b] by {
        if i < finished.len() {
            assert(cfg.has_edge(finished[i] as int, b));
        }
    }
    assert forall|i: int| 0 <= i < after.len() implies (#[trigger] after[i]) < visited.len()
        && visited[after[i] as int] by {
        if i < finished.len() {
            assert(finished[i] < visited.len());
        }
    }
}

impl CfgView {
    /// Each block of `walk` has an edge to the next.
    pub open spec fn is_walk(self, walk: Seq<int>) -> bool {
        &&& walk.len() > 0
        &&& forall|i: int| 0 <= i < walk.len() - 1 ==> self.has_edge(#[trigger] walk[i], walk[i + 1])
    }

    /// Control may pass from `from` to `to`, along no edge or more.
    pub open spec fn leads(self, from: int, to: int) -> bool {
        exists|walk: Seq<int>| #[trigger] self.is_walk(walk) && walk[0] == from && walk.last() == to
    }

    /// Every block leads to itself.
    pub proof fn lemma_leads_to_itself(self, block: int)
        ensures
            self.leads(block, block),
    {
        let walk = seq![block];
        assert(self.is_walk(walk) && walk[0] == block && walk.last() == block);
    }

    /// What leads to a block leads to the blocks that its edges lead to.
    pub proof fn lemma_leads_on(self, from: int, by: int, to: int)
        requires
            self.leads(from, by),
            self.has_edge(by, to),
        ensures
            self.leads(from, to),
    {
        let walk = choose|walk: Seq<int>| #[trigger]
            self.is_walk(walk) && walk[0] == from && walk.last() == by;
        let longer = walk.push(to);
        assert forall|i: int| 0 <= i < longer.len() - 1 implies self.has_edge(
            #[trigger] longer[i],
            longer[i + 1],
        ) by {
            if i < walk.len() - 1 {
                assert(self.has_edge(walk[i], walk[i + 1]));
            }
        }
        assert(self.is_walk(longer) && longer[0] == from && longer.last() == to);
    }
}

/// Every block that the search has visited and not finished leads to
/// `block`.
pub open spec fn spec_open_lead(cfg: CfgView, visited: Seq<bool>, finished: Seq<u32>, block: int)
    -> bool {
    forall|g: int|
        0 <= g < visited.len() && #[trigger] visited[g] && !finished.contains(g as u32)
            ==> cfg.leads(g, block)
}

/// Every edge from a finished block leads to a block that was finished
/// before it, or to one that leads back to it.
pub open spec fn spec_edges_ordered(cfg: CfgView, finished: Seq<u32>) -> bool {
    forall|i: int, b: int|
        0 <= i < finished.len() && #[trigger] cfg.has_edge(finished[i] as int, b) ==> (exists|
            j: int,
        |
            0 <= j < i && #[trigger] finished[j] == b) || cfg.leads(b, finished[i] as int)
}

/// A visit leaves open the blocks that were open before it.
proof fn lemma_open_stays(
    cfg: CfgView,
    v0: Seq<bool>,
    f0: Seq<u32>,
    v1: Seq<bool>,
    f1: Seq<u32>,
    block: int,
)
    requires
        spec_open_lead(cfg, v0, f0, block),
        spec_visited_more(v0, f0, v1, f1),
    ensures
        spec_open_lead(cfg, v1, f1, block),
{
    assert forall|g: int|
        0 <= g < v1.len() && #[trigger] v1[g] && !f1.contains(g as u32) implies cfg.leads(
        g,
        block,
    ) by {
        if !v0[g] {
            let i = choose|i: int| f0.len() <= i < f1.len() && #[trigger] f1[i] == g;
            assert(f1.contains(g as u32));
        }
        if f0.contains(g as u32) {
            let i = choose|i: int| 0 <= i < f0.len() && f0[i] == g as u32;
            assert(f1[i] == g as u32);
        }
        assert(v0[g]);
    }
}

/// What a visit adds to a search: what was visited stays visited, what
/// was finished stays finished in its place, every block that it finishes
/// was not visited before, and every block that it visits it finishes.
pub open spec fn spec_visited_more(
    visited: Seq<bool>,
    finished: Seq<u32>,
    visited_after: Seq<bool>,
    finished_after: Seq<u32>,
) -> bool {
    &&& visited_after.len() == visited.len()
    &&& finished.len() <= finished_after.len()
    &&& forall|b: int| 0 <= b < visited.len() && visited[b] ==> visited_after[b]
    &&& forall|i: int| 0 <= i < finished.len() ==> finished_after[i] == finished[i]
    &&& forall|i: int|
        finished.len() <= i < finished_after.len() ==> (#[trigger] finished_after[i])
            < visited.len() && !visited[finished_after[i] as int]
    &&& forall|b: int|
        0 <= b < visited.len() && visited_after[b] && !visited[b] ==> exists|i: int|
            finished.len() <= i < finished_after.len() && #[trigger] finished_after[i] == b
}

/// Two visits one after the other add what one visit adds.
proof fn lemma_visited_more_twice(
    v0: Seq<bool>,
    f0: Seq<u32>,
    v1: Seq<bool>,
    f1: Seq<u32>,
    v2: Seq<bool>,
    f2: Seq<u32>,
)
    requires
        spec_visited_more(v0, f0, v1, f1),
        spec_visited_more(v1, f1, v2, f2),
    ensures
        spec_visited_more(v0, f0, v2, f2),
{
    assert forall|i: int| f0.len() <= i < f2.len() implies (#[trigger] f2[i]) < v0.len()
        && !v0[f2[i] as int] by {
        if i < f1.len() {
            assert(f2[i] == f1[i]);
        }
    }
    assert forall|b: int| 0 <= b < v0.len() && v2[b] && !v0[b] implies exists|i: int|
        f0.len() <= i < f2.len() && #[trigger] f2[i] == b by {
        if v1[b] {
            let i = choose|i: int| f0.len() <= i < f1.len() && #[trigger] f1[i] == b;
            assert(f2[i] == b);
        } else {
            let i = choose|i: int| f1.len() <= i < f2.len() && #[trigger] f2[i] == b;
            assert(f2[i] == b);
        }
    }
}

impl ControlFlowGraph {
    /// Visits the block `next`, which an edge leads to from the visited
    /// block `from`, unless it was visited.
    fn visit_next(&self, from: u32, next: u32, visited: &mut Vec<bool>, finished: &mut Vec<u32>)
        requires
            self.spec_targets_exist(),
            self.blocks@.len() <= u32::MAX,
            spec_search(self@, old(visited)@, old(finished)@),
            from < self.blocks@.len(),
            old(visited)@[from as int],
            self@.has_edge(from as int, next as int),
            spec_open_lead(self@, old(visited)@, old(finished)@, from as int),
            spec_edges_ordered(self@, old(finished)@),
        ensures
            spec_search(self@, final(visited)@, final(finished)@),
            spec_visited_more(old(visited)@, old(finished)@, final(visited)@, final(finished)@),
            final(visited)@[next as int],
            spec_edges_ordered(self@, final(finished)@),
        decreases spec_unvisited(old(visited)@), 1nat,
    {
        if !visited[next as usize] {
            proof {
                lemma_edge_reaches(self@, from as int, next as int);
                assert forall|g: int|
                    0 <= g < visited@.len() && #[trigger] visited@[g] && !finished@.contains(
                        g as u32,
                    ) implies self@.leads(g, next as int) by {
                    self@.lemma_leads_on(g, from as int, next as int);
                }
            }
            self.visit(next, visited, finished);
        }
    }

    /// Visits `block` and from it every block that was not visited, depth
    /// first, and finishes each after the blocks that its edges lead to.
    fn visit(&self, block: u32, visited: &mut Vec<bool>, finished: &mut Vec<u32>)
        requires
            self.spec_targets_exist(),
            self.blocks@.len() <= u32::MAX,
            spec_search(self@, old(visited)@, old(finished)@),
            block < self.blocks@.len(),
            !old(visited)@[block as int],
            self@.reachable(block as int),
            spec_open_lead(self@, old(visited)@, old(finished)@, block as int),
            spec_edges_ordered(self@, old(finished)@),
        ensures
            spec_search(self@, final(visited)@, final(finished)@),
            spec_visited_more(old(visited)@, old(finished)@, final(visited)@, final(finished)@),
            final(visited)@[block as int],
            final(finished)@.len() > old(finished)@.len(),
            final(finished)@.last() == block,
            spec_edges_ordered(self@, final(finished)@),
        decreases spec_unvisited(old(visited)@), 0nat,
    {
        proof {
            lemma_unvisited_update(visited@, block as int);
        }
        visited.set(block as usize, true);
        let ghost marked = visited@;
        assert(spec_search(self@, marked, finished@));
        proof {
            self@.lemma_leads_to_itself(block as int);
            assert forall|g: int|
                0 <= g < marked.len() && #[trigger] marked[g] && !finished@.contains(
                    g as u32,
                ) implies self@.leads(g, block as int) by {
                if g != block {
                    assert(old(visited)@[g]);
                }
            }
        }
        let terminator = self.blocks[block as usize].terminator;
        assert(self@.blocks[block as int].terminator == terminator);
        match terminator {
            Terminator::Goto { target } => {
                assert(terminator.has_successor(target));
                self.visit_next(block, target, visited, finished);
            },
            Terminator::Split { then_block, else_block, .. } => {
                assert(terminator.has_successor(then_block));
                assert(terminator.has_successor(else_block));
                self.visit_next(block, then_block, visited, finished);
                let ghost v1 = visited@;
                let ghost f1 = finished@;
                proof {
                    lemma_unvisited_monotone(marked, v1);
                    lemma_open_stays(self@, marked, old(finished)@, v1, f1, block as int);
                }
                self.visit_next(block, else_block, visited, finished);
                proof {
                    lemma_visited_more_twice(marked, old(finished)@, v1, f1, visited@, finished@);
                }
            },
            Terminator::Return => {},
        }
        proof {
            let before = finished@;
            assert(spec_visited_more(marked, old(finished)@, visited@, before));
            assert(!before.contains(block)) by {
                if before.contains(block) {
                    let i = choose|i: int| 0 <= i < before.len() && before[i] == block;
                    if i < old(finished)@.len() {
                        assert(old(finished)@[i] == block);
                        assert(old(visited)@[old(finished)@[i] as int]);
                    } else {
                        assert(!marked[before[i] as int]);
                    }
                }
            }
            assert forall|b: int| #[trigger] self@.has_edge(block as int, b) implies visited@[b] by {
                assert(terminator.has_successor(b as u32));
            }
            lemma_finish(self@, visited@, before, block);
            lemma_open_stays(self@, marked, old(finished)@, visited@, before, block as int);
            assert forall|i: int, b: int|
                0 <= i < before.push(block).len() && #[trigger] self@.has_edge(
                    before.push(block)[i] as int,
                    b,
                ) implies (exists|j: int| 0 <= j < i && #[trigger] before.push(block)[j] == b)
                || self@.leads(b, before.push(block)[i] as int) by {
                if i < before.len() {
                    assert(self@.has_edge(before[i] as int, b));
                    if !self@.leads(b, before[i] as int) {
                        let j = choose|j: int| 0 <= j < i && #[trigger] before[j] == b;
                        assert(before.push(block)[j] == b);
                    }
                } else {
                    assert(visited@[b]);
                    if before.contains(b as u32) {
                        let j = choose|j: int| 0 <= j < before.len() && before[j] == b as u32;
                        assert(before.push(block)[j] == b);
                    }
                }
            }
            assert forall|i: int|
                old(finished)@.len() <= i < before.push(block).len() implies (
            #[trigger] before.push(block)[i]) < old(visited)@.len() && !old(
                visited,
            )@[before.push(block)[i] as int] by {
                if i < before.len() {
                    assert(!marked[before[i] as int]);
                }
            }
            assert forall|b: int|
                0 <= b < old(visited)@.len() && visited@[b] && !old(visited)@[b] implies exists|
                i: int,
            |
                old(finished)@.len() <= i < before.push(block).len() && #[trigger] before.push(
                    block,
                )[i] == b by {
                if b == block {
                    assert(before.push(block)[before.len() as int] == b);
                } else {
                    let i = choose|i: int|
                        old(finished)@.len() <= i < before.len() && #[trigger] before[i] == b;
                    assert(before.push(block)[i] == b);
                }
            }
        }
        finished.push(block);
    }
}

impl ControlFlowGraph {
    /// The blocks that can be reached from the entry, in reverse
    /// postorder of the depth-first search that follows the edges of each
    /// block in their order: the entry comes first, and every block comes
    /// before the blocks that the search reached through it. So every
    /// edge leads to a block that comes later, or to one that leads back.
    pub fn reverse_postorder(&self) -> (order: Vec<u32>)
        requires
            self.spec_targets_exist(),
            self.blocks@.len() <= u32::MAX,
        ensures
            forall|i: int, j: int|
                0 <= i < order@.len() && 0 <= j < order@.len() && #[trigger] self@.has_edge(
                    order@[i] as int,
                    order@[j] as int,
                ) ==> i < j || self@.leads(order@[j] as int, order@[i] as int),
            forall|i: int| 0 <= i < order@.len() ==> (#[trigger] order@[i]) < self.blocks@.len(),
            forall|i: int, j: int|
                0 <= i < order@.len() && 0 <= j < order@.len() && #[trigger] order@[i]
                    == #[trigger] order@[j] ==> i == j,
            forall|b: int|
                0 <= b < self.blocks@.len() ==> (#[trigger] order@.contains(b as u32)
                    <==> self@.reachable(b)),
            self.blocks@.len() > 0 ==> order@.len() > 0 && order@[0] == 0,
    {
        let n = self.blocks.len();
        let mut visited: Vec<bool> = Vec::new();
        let mut i: usize = 0;
        while i < n
            invariant
                i <= n,
                visited@.len() == i,
                forall|b: int| 0 <= b < i ==> !visited@[b],
            decreases n - i,
        {
            visited.push(false);
            i += 1;
        }
        let mut finished: Vec<u32> = Vec::new();
        let mut order: Vec<u32> = Vec::new();
        if n == 0 {
            assert forall|b: int| 0 <= b < self.blocks@.len() implies (#[trigger] order@.contains(
                b as u32,
            ) <==> self@.reachable(b)) by {}
            return order;
        }
        proof {
            let start = seq![0int];
            assert(self@.is_path(start) && start.last() == 0);
            assert(spec_search(self@, visited@, finished@));
        }
        self.visit(0, &mut visited, &mut finished);
        let m = finished.len();
        let mut k: usize = 0;
        while k < m
            invariant
                k <= m,
                m == finished@.len(),
                order@.len() == k,
                forall|i: int| 0 <= i < k ==> order@[i] == finished@[m - 1 - i],
            decreases m - k,
        {
            order.push(finished[m - 1 - k]);
            k += 1;
        }
        proof {
            assert forall|i: int, j: int|
                0 <= i < order@.len() && 0 <= j < order@.len() && #[trigger] order@[i]
                    == #[trigger] order@[j] implies i == j by {
                assert(finished@[m - 1 - i] == finished@[m - 1 - j]);
            }
            assert forall|i: int, j: int|
                0 <= i < order@.len() && 0 <= j < order@.len() && #[trigger] self@.has_edge(
                    order@[i] as int,
                    order@[j] as int,
                ) implies i < j || self@.leads(order@[j] as int, order@[i] as int) by {
                let at = m - 1 - i;
                assert(self@.has_edge(finished@[at] as int, order@[j] as int));
                if !self@.leads(order@[j] as int, finished@[at] as int) {
                    let before = choose|before: int|
                        0 <= before < at && #[trigger] finished@[before] == order@[j] as int;
                    assert(finished@[m - 1 - j] == finished@[before]);
                }
            }
            assert forall|a: int, b: int|
                0 <= a < visited@.len() && visited@[a] && #[trigger] self@.has_edge(
                    a,
                    b,
                ) implies visited@[b] by {
                let i = choose|i: int| 0 <= i < finished@.len() && #[trigger] finished@[i] == a;
                assert(self@.has_edge(finished@[i] as int, b));
            }
            assert forall|b: int| 0 <= b < self.blocks@.len() implies (#[trigger] order@.contains(
                b as u32,
            ) <==> self@.reachable(b)) by {
                if order@.contains(b as u32) {
                    let i = choose|i: int| 0 <= i < order@.len() && order@[i] == b as u32;
                    assert(finished@[m - 1 - i] == b as u32);
                    assert(visited@[finished@[m - 1 - i] as int]);
                }
                if self@.reachable(b) {
                    let path = choose|path: Seq<int>| #[trigger]
                        self@.is_path(path) && path.last() == b;
                    self@.lemma_closed_set_holds_reachable(visited@, path, path.len() - 1);
                    let i = choose|i: int| 0 <= i < finished@.len() && #[trigger] finished@[i] == b;
                    assert(order@[m - 1 - i] == b as u32);
                }
            }
        }
        order
    }
}

} // verus!
