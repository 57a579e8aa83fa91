//! The analog behaviour of a module, and its lowering to a control-flow
//! graph: expressions become instructions that write temporaries,
//! assignments and contributions become writes to places, and conditions
//! and loops become blocks.

use vstd::prelude::*;
use crate::graph::{
    BasicBlockData, BasicBlockView, CfgView, Const, ControlFlowGraph, InstrDst, Instruction,
    InstructionView, Op, Operand, Terminator, REAL_ZERO,
};
use crate::intern::{ParamKind, PlaceKind};
use crate::netlist::{BranchKind, Netlist};

verus! {

/// How a branch is accessed: by its potential or by its flow.
#[derive(Clone, Copy, Debug, PartialEq, Eq, Structural)]
pub enum Access {
    Potential,
    Flow,
}

/// An expression. The operands of an operator are expressions with
/// smaller numbers.
#[derive(Clone, Copy, Debug, PartialEq, Eq, Structural)]
pub enum Expr {
    Literal(Const),
    /// The value of a variable of the model.
    Variable(u32),
    /// The value of a parameter of the model.
    Parameter(u32),
    Temperature,
    /// The potential of a branch or the flow through it.
    BranchAccess { access: Access, branch: u32 },
    /// The potential from the node `hi` to the node `lo`, or to the ground
    /// where `lo` is `None`, between which no branch is declared.
    NodeAccess { hi: u32, lo: Option<u32> },
    Unary { op: Op, arg: u32 },
    Binary { op: Op, lhs: u32, rhs: u32 },
}

/// A statement. The statements inside a statement have smaller numbers.
#[derive(Clone, Copy, Debug, PartialEq, Eq, Structural)]
pub enum Stmt {
    Empty,
    /// `var = value`.
    Assign { var: u32, value: u32 },
    /// `V(branch) <+ value` or `I(branch) <+ value`.
    Contribute { access: Access, branch: u32, value: u32 },
    /// `V(hi, lo) <+ value` or `I(hi, lo) <+ value`, for nodes between
    /// which no branch is declared; to the ground where `lo` is `None`.
    ContributeNodes { access: Access, hi: u32, lo: Option<u32>, value: u32 },
    If { cond: u32, then_branch: u32, else_branch: u32 },
    While { cond: u32, body: u32 },
    /// `first`, and after it `then`.
    Sequence { first: u32, then: u32 },
}

/// The analog behaviour of a module: its expressions and statements, each
/// found by its number, and the statement that is the whole of it.
#[derive(Debug)]
pub struct Behaviour {
    pub exprs: Vec<Expr>,
    pub stmts: Vec<Stmt>,
    pub root: u32,
}

/// The branch can be accessed in this way: it exists, and its potential
/// is asked for only if it runs between nodes.
pub open spec fn spec_access_fits(branches: Seq<BranchKind>, access: Access, branch: u32) -> bool {
    &&& (branch as int) < branches.len()
    &&& access == Access::Potential ==> !(branches[branch as int] is PortFlow)
}

/// The expression `e` of `exprs` names only expressions before it and
/// branches that exist, and applies each operator to as many operands as it
/// takes.
pub open spec fn spec_expr_fits(exprs: Seq<Expr>, branches: Seq<BranchKind>, e: int) -> bool {
    match exprs[e] {
        Expr::Unary { op, arg } => arg < e && op.arity() == 1,
        Expr::Binary { op, lhs, rhs } => lhs < e && rhs < e && op.arity() == 2,
        Expr::BranchAccess { access, branch } => spec_access_fits(branches, access, branch),
        _ => true,
    }
}

/// The statement `s` of `stmts` names only statements before it,
/// expressions and branches that exist.
pub open spec fn spec_stmt_fits(
    exprs: Seq<Expr>,
    stmts: Seq<Stmt>,
    branches: Seq<BranchKind>,
    s: int,
) -> bool {
    match stmts[s] {
        Stmt::Empty => true,
        Stmt::Assign { var, value } => value < exprs.len(),
        Stmt::Contribute { access, branch, value } => value < exprs.len() && spec_access_fits(
            branches,
            access,
            branch,
        ),
        Stmt::ContributeNodes { access, hi, lo, value } => value < exprs.len(),
        Stmt::If { cond, then_branch, else_branch } => cond < exprs.len() && then_branch < s
            && else_branch < s,
        Stmt::While { cond, body } => cond < exprs.len() && body < s,
        Stmt::Sequence { first, then } => first < s && then < s,
    }
}

fn access_fits(netlist: &Netlist, access: Access, branch: u32) -> (res: bool)
    ensures
        res == spec_access_fits(netlist.branches@, access, branch),
{
    match netlist.branch_kind(branch) {
        None => false,
        Some(BranchKind::PortFlow(_)) => match access {
            Access::Potential => false,
            Access::Flow => true,
        },
        Some(_) => true,
    }
}

impl Behaviour {
    /// Every expression and statement names only what exists and what
    /// comes before it, and the number of each fits the tag of an
    /// instruction.
    pub open spec fn spec_well_formed(&self, netlist: &Netlist) -> bool {
        &&& self.exprs@.len() <= i32::MAX
        &&& self.stmts@.len() <= i32::MAX
        &&& self.root < self.stmts@.len()
        &&& forall|e: int|
            0 <= e < self.exprs@.len() ==> #[trigger] spec_expr_fits(
                self.exprs@,
                netlist.branches@,
                e,
            )
        &&& forall|s: int|
            0 <= s < self.stmts@.len() ==> #[trigger] spec_stmt_fits(
                self.exprs@,
                self.stmts@,
                netlist.branches@,
                s,
            )
    }

    /// Checks [`Self::spec_well_formed`].
    #[verifier::when_used_as_spec(spec_well_formed)]
    pub fn well_formed(&self, netlist: &Netlist) -> (res: bool)
        ensures
            res == self.spec_well_formed(netlist),
    {
        let limit: usize = 0x7fff_ffff;
        if self.exprs.len() > limit || self.stmts.len() > limit || self.root as usize
            >= self.stmts.len() {
            return false;
        }
        let mut e: usize = 0;
        while e < self.exprs.len()
            invariant
                e <= self.exprs@.len(),
                forall|i: int|
                    0 <= i < e ==> #[trigger] spec_expr_fits(self.exprs@, netlist.branches@, i),
            decreases self.exprs@.len() - e,
        {
            let ok = match self.exprs[e] {
                Expr::Unary { op, arg } => (arg as usize) < e && op.arity() == 1,
                Expr::Binary { op, lhs, rhs } => (lhs as usize) < e && (rhs as usize) < e
                    && op.arity() == 2,
                Expr::BranchAccess { access, branch } => access_fits(netlist, access, branch),
                _ => true,
            };
            if !ok {
                assert(!spec_expr_fits(self.exprs@, netlist.branches@, e as int));
                return false;
            }
            e += 1;
        }
        let count = self.exprs.len();
        let mut s: usize = 0;
        while s < self.stmts.len()
            invariant
                s <= self.stmts@.len(),
                count == self.exprs@.len(),
                forall|i: int|
                    0 <= i < s ==> #[trigger] spec_stmt_fits(
                        self.exprs@,
                        self.stmts@,
                        netlist.branches@,
                        i,
                    ),
            decreases self.stmts@.len() - s,
        {
            let ok = match self.stmts[s] {
                Stmt::Empty => true,
                Stmt::Assign { var, value } => (value as usize) < count,
                Stmt::Contribute { access, branch, value } => (value as usize) < count
                    && access_fits(netlist, access, branch),
                Stmt::ContributeNodes { access, hi, lo, value } => (value as usize) < count,
                Stmt::If { cond, then_branch, else_branch } => (cond as usize) < count && (
                then_branch as usize) < s && (else_branch as usize) < s,
                Stmt::While { cond, body } => (cond as usize) < count && (body as usize) < s,
                Stmt::Sequence { first, then } => (first as usize) < s && (then as usize) < s,
            };
            if !ok {
                assert(!spec_stmt_fits(self.exprs@, self.stmts@, netlist.branches@, s as int));
                return false;
            }
            s += 1;
        }
        true
    }
}

/// The first position below `n` at which `places` holds `kind`.
pub open spec fn spec_place_below(places: Seq<PlaceKind>, kind: PlaceKind, n: nat) -> Option<int>
    decreases n,
{
    if n == 0 {
        None
    } else {
        match spec_place_below(places, kind, (n - 1) as nat) {
            Some(i) => Some(i),
            None => if places[n - 1] == kind {
                Some(n - 1)
            } else {
                None
            },
        }
    }
}

/// The first position below `n` at which `params` holds `kind`.
pub open spec fn spec_param_below(params: Seq<ParamKind>, kind: ParamKind, n: nat) -> Option<int>
    decreases n,
{
    if n == 0 {
        None
    } else {
        match spec_param_below(params, kind, (n - 1) as nat) {
            Some(i) => Some(i),
            None => if params[n - 1] == kind {
                Some(n - 1)
            } else {
                None
            },
        }
    }
}

/// The parameter of the lowered function that holds the potential of a
/// branch or the flow through it.
pub open spec fn spec_access_kind(branches: Seq<BranchKind>, access: Access, branch: u32)
    -> ParamKind {
    match access {
        Access::Flow => ParamKind::Current(branch),
        Access::Potential => match branches[branch as int] {
            BranchKind::Nodes(hi, lo) => ParamKind::Voltage { hi, lo: Some(lo) },
            BranchKind::NodeGnd(hi) => ParamKind::Voltage { hi, lo: None },
            BranchKind::PortFlow(_) => ParamKind::Current(branch),
        },
    }
}

/// The place that holds what is contributed to the potential of a branch
/// or to the flow through it.
pub open spec fn spec_contribution(access: Access, branch: u32) -> PlaceKind {
    match access {
        Access::Potential => PlaceKind::BranchVoltage(branch),
        Access::Flow => PlaceKind::BranchCurrent(branch),
    }
}

/// The place that holds what is contributed to the potential or to the
/// flow between two nodes without a declared branch.
pub open spec fn spec_node_contribution(access: Access, hi: u32, lo: Option<u32>) -> PlaceKind {
    match access {
        Access::Potential => PlaceKind::ImplicitBranchVoltage { hi, lo },
        Access::Flow => PlaceKind::ImplicitBranchCurrent { hi, lo },
    }
}

/// A graph under construction, as a mathematical value: the blocks made
/// so far, the block that instructions are added to, the number of the
/// next temporary, and what the places and the parameters stand for.
pub struct BuilderView {
    pub blocks: Seq<BasicBlockView>,
    pub cursor: u32,
    pub next_local: u32,
    pub places: Seq<PlaceKind>,
    pub params: Seq<ParamKind>,
}

impl BuilderView {
    /// The number of the place that stands for `kind`, which is added to
    /// the places if it is new. `None` where the places cannot be
    /// numbered any more.
    pub open spec fn place_of(self, kind: PlaceKind) -> Option<(BuilderView, u32)> {
        match spec_place_below(self.places, kind, self.places.len()) {
            Some(i) => Some((self, i as u32)),
            None => if self.places.len() >= u32::MAX {
                None
            } else {
                Some(
                    (
                        BuilderView { places: self.places.push(kind), ..self },
                        self.places.len() as u32,
                    ),
                )
            },
        }
    }

    /// The number of the parameter that stands for `kind`, which is added
    /// to the parameters if it is new. `None` where the parameters cannot
    /// be numbered any more.
    pub open spec fn param_of(self, kind: ParamKind) -> Option<(BuilderView, u32)> {
        match spec_param_below(self.params, kind, self.params.len()) {
            Some(i) => Some((self, i as u32)),
            None => if self.params.len() >= u32::MAX {
                None
            } else {
                Some(
                    (
                        BuilderView { params: self.params.push(kind), ..self },
                        self.params.len() as u32,
                    ),
                )
            },
        }
    }

    /// With `instr` added at the end of block `b`.
    pub open spec fn emit_in(self, b: int, instr: InstructionView) -> BuilderView {
        BuilderView {
            blocks: self.blocks.update(
                b,
                BasicBlockView {
                    instructions: self.blocks[b].instructions.push(instr),
                    ..self.blocks[b]
                },
            ),
            ..self
        }
    }

    /// With `instr` added at the end of the current block.
    pub open spec fn emit(self, instr: InstructionView) -> BuilderView {
        self.emit_in(self.cursor as int, instr)
    }

    /// With an instruction added at the end of the current block that
    /// writes a new temporary, and the number of the temporary. `None`
    /// where the temporaries cannot be numbered any more.
    pub open spec fn emit_local(self, op: Op, args: Seq<Operand>, src: i32) -> Option<
        (BuilderView, u32),
    > {
        if self.next_local >= u32::MAX {
            None
        } else {
            Some(
                (
                    BuilderView { next_local: (self.next_local + 1) as u32, ..self }.emit(
                        InstructionView {
                            op,
                            args,
                            dst: InstrDst::Local(self.next_local),
                            src,
                        },
                    ),
                    self.next_local,
                ),
            )
        }
    }

    /// With a new block, which leads to itself until it gets its
    /// terminator, and the number of the block. `None` where the blocks
    /// cannot be numbered any more.
    pub open spec fn new_block(self) -> Option<(BuilderView, u32)> {
        if self.blocks.len() >= u32::MAX {
            None
        } else {
            Some(
                (
                    BuilderView {
                        blocks: self.blocks.push(
                            BasicBlockView {
                                phis: Seq::empty(),
                                instructions: Seq::empty(),
                                terminator: Terminator::Goto { target: self.blocks.len() as u32 },
                            },
                        ),
                        ..self
                    },
                    self.blocks.len() as u32,
                ),
            )
        }
    }

    /// With `term` at the end of the current block, and `next` as the
    /// current block.
    pub open spec fn leave(self, term: Terminator, next: u32) -> BuilderView {
        BuilderView {
            blocks: self.blocks.update(
                self.cursor as int,
                BasicBlockView { terminator: term, ..self.blocks[self.cursor as int] },
            ),
            cursor: next,
            ..self
        }
    }
}

/// What reads the value of the expression `e` after the instructions
/// that compute it were added to the current block. A literal is read as
/// it is, a variable from its place, a parameter, the temperature and the
/// access to a branch or to a pair of nodes from a parameter of the
/// lowered function, and the
/// result of an operator from the temporary that its instruction writes.
/// The instruction carries the number of the expression as its tag.
pub open spec fn spec_lower_expr(
    exprs: Seq<Expr>,
    branches: Seq<BranchKind>,
    st: BuilderView,
    e: int,
) -> Option<(BuilderView, Operand)>
    decreases e,
{
    if !(0 <= e < exprs.len()) {
        None
    } else {
        match exprs[e] {
            Expr::Literal(c) => Some((st, Operand::Const(c))),
            Expr::Variable(var) => match st.place_of(PlaceKind::Var(var)) {
                Some((st, place)) => Some((st, Operand::Place(place))),
                None => None,
            },
            Expr::Parameter(param) => match st.param_of(ParamKind::Param(param)) {
                Some((st, id)) => Some((st, Operand::Param(id))),
                None => None,
            },
            Expr::Temperature => match st.param_of(ParamKind::Temperature) {
                Some((st, id)) => Some((st, Operand::Param(id))),
                None => None,
            },
            Expr::BranchAccess { access, branch } => match st.param_of(
                spec_access_kind(branches, access, branch),
            ) {
                Some((st, id)) => Some((st, Operand::Param(id))),
                None => None,
            },
            Expr::NodeAccess { hi, lo } => match st.param_of(ParamKind::Voltage { hi, lo }) {
                Some((st, id)) => Some((st, Operand::Param(id))),
                None => None,
            },
            Expr::Unary { op, arg } => if arg >= e {
                None
            } else {
                match spec_lower_expr(exprs, branches, st, arg as int) {
                    Some((st, a)) => match st.emit_local(op, seq![a], e as i32) {
                        Some((st, local)) => Some((st, Operand::Local(local))),
                        None => None,
                    },
                    None => None,
                }
            },
            Expr::Binary { op, lhs, rhs } => if lhs >= e || rhs >= e {
                None
            } else {
                match spec_lower_expr(exprs, branches, st, lhs as int) {
                    Some((st, a)) => match spec_lower_expr(exprs, branches, st, rhs as int) {
                        Some((st, b)) => match st.emit_local(op, seq![a, b], e as i32) {
                            Some((st, local)) => Some((st, Operand::Local(local))),
                            None => None,
                        },
                        None => None,
                    },
                    None => None,
                }
            },
        }
    }
}

/// The graph under construction after the statement `s` was lowered.
///
/// An assignment copies the value to the place of the variable, and a
/// contribution adds it to the place of the contribution, which is one
/// place for each branch and each pair of nodes that is contributed to. A condition
/// ends the current block with a `Split` on its value, to a new block for
/// each of its branches, which both lead to a third new block, where the
/// lowering goes on. A loop gets a new block for its condition, which the
/// current block and the end of its body lead to, one for its body, and one
/// where the lowering goes on; the `Split` on its condition is marked as
/// the head of a loop.
pub open spec fn spec_lower_stmt(
    exprs: Seq<Expr>,
    stmts: Seq<Stmt>,
    branches: Seq<BranchKind>,
    st: BuilderView,
    s: int,
) -> Option<BuilderView>
    decreases s,
{
    if !(0 <= s < stmts.len()) {
        None
    } else {
        match stmts[s] {
            Stmt::Empty => Some(st),
            Stmt::Assign { var, value } => match spec_lower_expr(exprs, branches, st, value as int) {
                Some((st, v)) => match st.place_of(PlaceKind::Var(var)) {
                    Some((st, place)) => Some(
                        st.emit(
                            InstructionView {
                                op: Op::Copy,
                                args: seq![v],
                                dst: InstrDst::Place(place),
                                src: value as i32,
                            },
                        ),
                    ),
                    None => None,
                },
                None => None,
            },
            Stmt::Contribute { access, branch, value } => match spec_lower_expr(
                exprs,
                branches,
                st,
                value as int,
            ) {
                Some((st, v)) => match st.place_of(spec_contribution(access, branch)) {
                    Some((st, place)) => Some(
                        st.emit(
                            InstructionView {
                                op: Op::RealAdd,
                                args: seq![Operand::Place(place), v],
                                dst: InstrDst::Place(place),
                                src: value as i32,
                            },
                        ),
                    ),
                    None => None,
                },
                None => None,
            },
            Stmt::ContributeNodes { access, hi, lo, value } => match spec_lower_expr(
                exprs,
                branches,
                st,
                value as int,
            ) {
                Some((st, v)) => match st.place_of(spec_node_contribution(access, hi, lo)) {
                    Some((st, place)) => Some(
                        st.emit(
                            InstructionView {
                                op: Op::RealAdd,
                                args: seq![Operand::Place(place), v],
                                dst: InstrDst::Place(place),
                                src: value as i32,
                            },
                        ),
                    ),
                    None => None,
                },
                None => None,
            },
            Stmt::If { cond, then_branch, else_branch } => if then_branch >= s || else_branch >= s {
                None
            } else {
                match spec_lower_expr(exprs, branches, st, cond as int) {
                    Some((st, c)) => match st.new_block() {
                        Some((st, then_block)) => match st.new_block() {
                            Some((st, else_block)) => match st.new_block() {
                                Some((st, join)) => match spec_lower_stmt(
                                    exprs,
                                    stmts,
                                    branches,
                                    st.leave(
                                        Terminator::Split {
                                            condition: c,
                                            then_block,
                                            else_block,
                                            loop_head: false,
                                        },
                                        then_block,
                                    ),
                                    then_branch as int,
                                ) {
                                    Some(st) => match spec_lower_stmt(
                                        exprs,
                                        stmts,
                                        branches,
                                        st.leave(Terminator::Goto { target: join }, else_block),
                                        else_branch as int,
                                    ) {
                                        Some(st) => Some(
                                            st.leave(Terminator::Goto { target: join }, join),
                                        ),
                                        None => None,
                                    },
                                    None => None,
                                },
                                None => None,
                            },
                            None => None,
                        },
                        None => None,
                    },
                    None => None,
                }
            },
            Stmt::While { cond, body } => if body >= s {
                None
            } else {
                match st.new_block() {
                    Some((st, head)) => match st.new_block() {
                        Some((st, body_block)) => match st.new_block() {
                            Some((st, exit)) => match spec_lower_expr(
                                exprs,
                                branches,
                                st.leave(Terminator::Goto { target: head }, head),
                                cond as int,
                            ) {
                                Some((st, c)) => match spec_lower_stmt(
                                    exprs,
                                    stmts,
                                    branches,
                                    st.leave(
                                        Terminator::Split {
                                            condition: c,
                                            then_block: body_block,
                                            else_block: exit,
                                            loop_head: true,
                                        },
                                        body_block,
                                    ),
                                    body as int,
                                ) {
                                    Some(st) => Some(
                                        st.leave(Terminator::Goto { target: head }, exit),
                                    ),
                                    None => None,
                                },
                                None => None,
                            },
                            None => None,
                        },
                        None => None,
                    },
                    None => None,
                }
            },
            Stmt::Sequence { first, then } => if first >= s || then >= s {
                None
            } else {
                match spec_lower_stmt(exprs, stmts, branches, st, first as int) {
                    Some(st) => spec_lower_stmt(exprs, stmts, branches, st, then as int),
                    None => None,
                }
            },
        }
    }
}

/// One of the first `k` of `instrs` writes the temporary `t`.
pub open spec fn spec_written_below(instrs: Seq<InstructionView>, t: u32, k: int) -> bool {
    exists|i: int| 0 <= i < k && i < instrs.len() && (#[trigger] instrs[i]).dst == InstrDst::Local(t)
}

/// What `operand` reads is there after the first `k` of `instrs`: it
/// reads no temporary, or one that they write.
pub open spec fn spec_operand_ready(instrs: Seq<InstructionView>, operand: Operand, k: int)
    -> bool {
    operand matches Operand::Local(t) ==> spec_written_below(instrs, t, k)
}

/// The block has no phi, each of its instructions reads only temporaries
/// that an instruction before it in the block writes, and so does the
/// condition of its terminator; every temporary is below `next_local`, and
/// no instruction is marked as generated.
pub open spec fn spec_block_ordered(block: BasicBlockView, next_local: u32) -> bool {
    &&& block.phis.len() == 0
    &&& forall|k: int, j: int|
        0 <= k < block.instructions.len() && 0 <= j < block.instructions[k].args.len()
            ==> spec_operand_ready(block.instructions, #[trigger] block.instructions[k].args[j], k)
    &&& forall|k: int|
        0 <= k < block.instructions.len() ==> ((#[trigger] block.instructions[k]).dst matches InstrDst::Local(
            t,
        ) ==> t < next_local)
    &&& forall|k: int| 0 <= k < block.instructions.len() ==> (#[trigger] block.instructions[k]).src >= 0
    &&& block.terminator matches Terminator::Split { condition, .. } ==> spec_operand_ready(
        block.instructions,
        condition,
        block.instructions.len() as int,
    )
}

/// Every block is ordered as [`spec_block_ordered`] says, every edge
/// leads to a block that exists, and no temporary is written twice.
pub open spec fn spec_ordered(blocks: Seq<BasicBlockView>, next_local: u32) -> bool {
    &&& forall|b: int|
        0 <= b < blocks.len() ==> spec_block_ordered(#[trigger] blocks[b], next_local)
    &&& forall|b: int, t: u32|
        0 <= b < blocks.len() && #[trigger] blocks[b].terminator.has_successor(t) ==> t
            < blocks.len()
    &&& forall|b1: int, k1: int, b2: int, k2: int|
        #![trigger blocks[b1].instructions[k1], blocks[b2].instructions[k2]]
        0 <= b1 < blocks.len() && 0 <= k1 < blocks[b1].instructions.len() && 0 <= b2
            < blocks.len() && 0 <= k2 < blocks[b2].instructions.len()
            && blocks[b1].instructions[k1].dst is Local && blocks[b1].instructions[k1].dst
            == blocks[b2].instructions[k2].dst ==> b1 == b2 && k1 == k2
}

impl BuilderView {
    /// What holds of a graph under construction: it is ordered as
    /// [`spec_ordered`] says, its current block exists, none of its blocks
    /// returns yet, and its blocks, places and parameters can be numbered.
    pub open spec fn inv(self) -> bool {
        &&& self.cursor < self.blocks.len() <= u32::MAX
        &&& self.places.len() <= u32::MAX
        &&& self.params.len() <= u32::MAX
        &&& spec_ordered(self.blocks, self.next_local)
        &&& forall|b: int| 0 <= b < self.blocks.len() ==> !((#[trigger] self.blocks[b]).terminator is Return)
    }

    /// What `operand` reads is there at the end of the current block.
    pub open spec fn ready(self, operand: Operand) -> bool {
        spec_operand_ready(
            self.blocks[self.cursor as int].instructions,
            operand,
            self.blocks[self.cursor as int].instructions.len() as int,
        )
    }

    /// `after` has the current block of `self` as its current block, with
    /// the instructions of `self` at its beginning, and as many blocks.
    pub open spec fn grown_to(self, after: BuilderView) -> bool {
        &&& after.cursor == self.cursor
        &&& after.blocks.len() == self.blocks.len()
        &&& self.blocks[self.cursor as int].instructions.len() <= after.blocks[self.cursor as int].instructions.len()
        &&& forall|i: int|
            0 <= i < self.blocks[self.cursor as int].instructions.len()
                ==> #[trigger] after.blocks[self.cursor as int].instructions[i]
                == self.blocks[self.cursor as int].instructions[i]
    }

    /// What was ready stays ready when the current block grows.
    pub proof fn lemma_grown_ready(self, after: BuilderView, operand: Operand)
        requires
            self.grown_to(after),
            self.ready(operand),
        ensures
            after.ready(operand),
    {
        if let Operand::Local(t) = operand {
            let instrs = self.blocks[self.cursor as int].instructions;
            let i = choose|i: int|
                0 <= i < instrs.len() && i < instrs.len() && (#[trigger] instrs[i]).dst
                    == InstrDst::Local(t);
            assert(after.blocks[self.cursor as int].instructions[i].dst == InstrDst::Local(t));
        }
    }

    /// Growing twice is growing.
    pub proof fn lemma_grown_twice(self, then: BuilderView, after: BuilderView)
        requires
            self.grown_to(then),
            then.grown_to(after),
        ensures
            self.grown_to(after),
    {
        assert forall|i: int|
            0 <= i < self.blocks[self.cursor as int].instructions.len()
                implies #[trigger] after.blocks[self.cursor as int].instructions[i]
            == self.blocks[self.cursor as int].instructions[i] by {
            assert(then.blocks[self.cursor as int].instructions[i]
                == self.blocks[self.cursor as int].instructions[i]);
        }
    }
}

/// What the first `k` instructions wrote they still wrote when an
/// instruction was added behind them.
proof fn lemma_ready_push(instrs: Seq<InstructionView>, more: InstructionView, operand: Operand, k: int)
    requires
        spec_operand_ready(instrs, operand, k),
    ensures
        spec_operand_ready(instrs.push(more), operand, k),
{
    if let Operand::Local(t) = operand {
        let i = choose|i: int|
            0 <= i < k && i < instrs.len() && (#[trigger] instrs[i]).dst == InstrDst::Local(t);
        assert(instrs.push(more)[i].dst == InstrDst::Local(t));
    }
}

/// A block stays ordered when an instruction is added at its end that
/// reads what is ready there, and writes no temporary or one below
/// `next_local`.
proof fn lemma_block_push(block: BasicBlockView, more: InstructionView, next_local: u32)
    requires
        spec_block_ordered(block, next_local),
        forall|j: int|
            0 <= j < more.args.len() ==> spec_operand_ready(
                block.instructions,
                #[trigger] more.args[j],
                block.instructions.len() as int,
            ),
        more.dst matches InstrDst::Local(t) ==> t < next_local,
        more.src >= 0,
    ensures
        spec_block_ordered(
            BasicBlockView { instructions: block.instructions.push(more), ..block },
            next_local,
        ),
{
    let after = BasicBlockView { instructions: block.instructions.push(more), ..block };
    assert forall|k: int, j: int|
        0 <= k < after.instructions.len() && 0 <= j < after.instructions[k].args.len()
            implies spec_operand_ready(
        after.instructions,
        #[trigger] after.instructions[k].args[j],
        k,
    ) by {
        if k < block.instructions.len() {
            assert(after.instructions[k] == block.instructions[k]);
            lemma_ready_push(block.instructions, more, block.instructions[k].args[j], k);
        } else {
            lemma_ready_push(block.instructions, more, more.args[j], k);
        }
    }
    assert forall|k: int| 0 <= k < after.instructions.len() implies ((
    #[trigger] after.instructions[k]).dst matches InstrDst::Local(t) ==> t < next_local) by {
        if k < block.instructions.len() {
            assert(after.instructions[k] == block.instructions[k]);
        }
    }
    assert forall|k: int| 0 <= k < after.instructions.len() implies (
    #[trigger] after.instructions[k]).src >= 0 by {
        if k < block.instructions.len() {
            assert(after.instructions[k] == block.instructions[k]);
        }
    }
    if let Terminator::Split { condition, .. } = block.terminator {
        lemma_ready_push(
            block.instructions,
            more,
            condition,
            block.instructions.len() as int,
        );
        if let Operand::Local(t) = condition {
            let i = choose|i: int|
                0 <= i < block.instructions.len() && i < after.instructions.len() && (
                #[trigger] after.instructions[i]).dst == InstrDst::Local(t);
            assert(after.instructions[i].dst == InstrDst::Local(t));
        }
    }
}

/// A graph under construction.
#[derive(Debug)]
pub struct Builder {
    pub blocks: Vec<BasicBlockData>,
    /// The block that instructions are added to.
    pub cursor: u32,
    /// The number of the next temporary.
    pub next_local: u32,
    /// What each place stands for.
    pub places: Vec<PlaceKind>,
    /// What each parameter stands for.
    pub params: Vec<ParamKind>,
}

impl View for Builder {
    type V = BuilderView;

    open spec fn view(&self) -> BuilderView {
        BuilderView {
            blocks: Seq::new(self.blocks@.len(), |b: int| self.blocks@[b]@),
            cursor: self.cursor,
            next_local: self.next_local,
            places: self.places@,
            params: self.params@,
        }
    }
}

impl BuilderView {
    /// Adding an instruction at the end of block `b` that reads what is
    /// ready there and writes no temporary keeps the graph as it has to
    /// be.
    pub proof fn lemma_emit_in(self, b: int, instr: InstructionView)
        requires
            self.inv(),
            0 <= b < self.blocks.len(),
            !(instr.dst is Local),
            instr.src >= 0,
            forall|j: int|
                0 <= j < instr.args.len() ==> spec_operand_ready(
                    self.blocks[b].instructions,
                    #[trigger] instr.args[j],
                    self.blocks[b].instructions.len() as int,
                ),
        ensures
            self.emit_in(b, instr).inv(),
            b == self.cursor ==> self.grown_to(self.emit_in(b, instr)),
    {
        let after = self.emit_in(b, instr);
        lemma_block_push(self.blocks[b], instr, self.next_local);
        assert forall|c: int| 0 <= c < after.blocks.len() implies spec_block_ordered(
            #[trigger] after.blocks[c],
            after.next_local,
        ) by {
            if c != b {
                assert(after.blocks[c] == self.blocks[c]);
            }
        }
        assert forall|c: int, t: u32|
            0 <= c < after.blocks.len() && #[trigger] after.blocks[c].terminator.has_successor(
                t,
            ) implies t < after.blocks.len() by {
            assert(after.blocks[c].terminator == self.blocks[c].terminator);
            assert(self.blocks[c].terminator.has_successor(t));
        }
        assert forall|b1: int, k1: int, b2: int, k2: int|
            #![trigger after.blocks[b1].instructions[k1], after.blocks[b2].instructions[k2]]
            0 <= b1 < after.blocks.len() && 0 <= k1 < after.blocks[b1].instructions.len() && 0
                <= b2 < after.blocks.len() && 0 <= k2 < after.blocks[b2].instructions.len()
                && after.blocks[b1].instructions[k1].dst is Local
                && after.blocks[b1].instructions[k1].dst
                == after.blocks[b2].instructions[k2].dst implies b1 == b2 && k1 == k2 by {
            assert(k1 < self.blocks[b1].instructions.len());
            assert(k2 < self.blocks[b2].instructions.len());
            assert(after.blocks[b1].instructions[k1] == self.blocks[b1].instructions[k1]);
            assert(after.blocks[b2].instructions[k2] == self.blocks[b2].instructions[k2]);
        }
        assert forall|c: int| 0 <= c < after.blocks.len() implies !((
        #[trigger] after.blocks[c]).terminator is Return) by {
            assert(after.blocks[c].terminator == self.blocks[c].terminator);
        }
    }

    /// Adding an instruction at the end of the current block that reads
    /// what is ready there and writes a new temporary keeps the graph as
    /// it has to be, and the temporary is ready.
    pub proof fn lemma_emit_local(self, op: Op, args: Seq<Operand>, src: i32)
        requires
            self.inv(),
            self.next_local < u32::MAX,
            src >= 0,
            forall|j: int| 0 <= j < args.len() ==> self.ready(#[trigger] args[j]),
        ensures
            self.emit_local(op, args, src) is Some,
            self.emit_local(op, args, src).unwrap().0.inv(),
            self.grown_to(self.emit_local(op, args, src).unwrap().0),
            self.emit_local(op, args, src).unwrap().0.ready(
                Operand::Local(self.emit_local(op, args, src).unwrap().1),
            ),
    {
        let after = self.emit_local(op, args, src).unwrap().0;
        let instr = InstructionView { op, args, dst: InstrDst::Local(self.next_local), src };
        let b = self.cursor as int;
        lemma_block_push(self.blocks[b], instr, after.next_local);
        assert(after.blocks[b].instructions[self.blocks[b].instructions.len() as int] == instr);
        assert forall|c: int| 0 <= c < after.blocks.len() implies spec_block_ordered(
            #[trigger] after.blocks[c],
            after.next_local,
        ) by {
            if c != b {
                assert(after.blocks[c] == self.blocks[c]);
            }
        }
        assert forall|c: int, t: u32|
            0 <= c < after.blocks.len() && #[trigger] after.blocks[c].terminator.has_successor(
                t,
            ) implies t < after.blocks.len() by {
            assert(after.blocks[c].terminator == self.blocks[c].terminator);
            assert(self.blocks[c].terminator.has_successor(t));
        }
        assert forall|b1: int, k1: int, b2: int, k2: int|
            #![trigger after.blocks[b1].instructions[k1], after.blocks[b2].instructions[k2]]
            0 <= b1 < after.blocks.len() && 0 <= k1 < after.blocks[b1].instructions.len() && 0
                <= b2 < after.blocks.len() && 0 <= k2 < after.blocks[b2].instructions.len()
                && after.blocks[b1].instructions[k1].dst is Local
                && after.blocks[b1].instructions[k1].dst
                == after.blocks[b2].instructions[k2].dst implies b1 == b2 && k1 == k2 by {
            let new1 = b1 == b && k1 == self.blocks[b].instructions.len();
            let new2 = b2 == b && k2 == self.blocks[b].instructions.len();
            if !new1 {
                assert(after.blocks[b1].instructions[k1] == self.blocks[b1].instructions[k1]);
                assert(spec_block_ordered(self.blocks[b1], self.next_local));
            }
            if !new2 {
                assert(after.blocks[b2].instructions[k2] == self.blocks[b2].instructions[k2]);
                assert(spec_block_ordered(self.blocks[b2], self.next_local));
            }
        }
        assert forall|c: int| 0 <= c < after.blocks.len() implies !((
        #[trigger] after.blocks[c]).terminator is Return) by {
            assert(after.blocks[c].terminator == self.blocks[c].terminator);
        }
    }

    /// A new block keeps the graph as it has to be.
    pub proof fn lemma_new_block(self)
        requires
            self.inv(),
            self.blocks.len() < u32::MAX,
        ensures
            self.new_block() is Some,
            self.new_block().unwrap().0.inv(),
            self.new_block().unwrap().1 == self.blocks.len(),
            self.new_block().unwrap().0.blocks.len() == self.blocks.len() + 1,
            self.new_block().unwrap().0.cursor == self.cursor,
            forall|operand: Operand|
                self.ready(operand) ==> #[trigger] self.new_block().unwrap().0.ready(operand),
    {
        let after = self.new_block().unwrap().0;
        assert forall|c: int| 0 <= c < after.blocks.len() implies spec_block_ordered(
            #[trigger] after.blocks[c],
            after.next_local,
        ) by {
            if c < self.blocks.len() {
                assert(after.blocks[c] == self.blocks[c]);
            }
        }
        assert forall|c: int, t: u32|
            0 <= c < after.blocks.len() && #[trigger] after.blocks[c].terminator.has_successor(
                t,
            ) implies t < after.blocks.len() by {
            if c < self.blocks.len() {
                assert(after.blocks[c] == self.blocks[c]);
                assert(self.blocks[c].terminator.has_successor(t));
            }
        }
        assert forall|b1: int, k1: int, b2: int, k2: int|
            #![trigger after.blocks[b1].instructions[k1], after.blocks[b2].instructions[k2]]
            0 <= b1 < after.blocks.len() && 0 <= k1 < after.blocks[b1].instructions.len() && 0
                <= b2 < after.blocks.len() && 0 <= k2 < after.blocks[b2].instructions.len()
                && after.blocks[b1].instructions[k1].dst is Local
                && after.blocks[b1].instructions[k1].dst
                == after.blocks[b2].instructions[k2].dst implies b1 == b2 && k1 == k2 by {
            assert(after.blocks[b1] == self.blocks[b1]);
            assert(after.blocks[b2] == self.blocks[b2]);
            assert(self.blocks[b1].instructions[k1].dst == self.blocks[b2].instructions[k2].dst);
        }
        assert forall|c: int| 0 <= c < after.blocks.len() implies !((
        #[trigger] after.blocks[c]).terminator is Return) by {
            if c < self.blocks.len() {
                assert(after.blocks[c] == self.blocks[c]);
            }
        }
        assert(after.blocks[self.cursor as int] == self.blocks[self.cursor as int]);
    }

    /// Ending the current block with a terminator that leads to blocks
    /// that exist, and whose condition is ready, keeps the graph as it has
    /// to be.
    pub proof fn lemma_leave(self, term: Terminator, next: u32)
        requires
            self.inv(),
            next < self.blocks.len(),
            !(term is Return),
            forall|t: u32| term.has_successor(t) ==> t < self.blocks.len(),
            term matches Terminator::Split { condition, .. } ==> self.ready(condition),
        ensures
            self.leave(term, next).inv(),
            self.leave(term, next).blocks.len() == self.blocks.len(),
    {
        let after = self.leave(term, next);
        let b = self.cursor as int;
        assert forall|c: int| 0 <= c < after.blocks.len() implies spec_block_ordered(
            #[trigger] after.blocks[c],
            after.next_local,
        ) by {
            assert(spec_block_ordered(self.blocks[c], self.next_local));
            if c != b {
                assert(after.blocks[c] == self.blocks[c]);
            } else {
                assert(after.blocks[c].instructions == self.blocks[c].instructions);
            }
        }
        assert forall|c: int, t: u32|
            0 <= c < after.blocks.len() && #[trigger] after.blocks[c].terminator.has_successor(
                t,
            ) implies t < after.blocks.len() by {
            if c != b {
                assert(after.blocks[c] == self.blocks[c]);
                assert(self.blocks[c].terminator.has_successor(t));
            }
        }
        assert forall|b1: int, k1: int, b2: int, k2: int|
            #![trigger after.blocks[b1].instructions[k1], after.blocks[b2].instructions[k2]]
            0 <= b1 < after.blocks.len() && 0 <= k1 < after.blocks[b1].instructions.len() && 0
                <= b2 < after.blocks.len() && 0 <= k2 < after.blocks[b2].instructions.len()
                && after.blocks[b1].instructions[k1].dst is Local
                && after.blocks[b1].instructions[k1].dst
                == after.blocks[b2].instructions[k2].dst implies b1 == b2 && k1 == k2 by {
            assert(after.blocks[b1].instructions == self.blocks[b1].instructions);
            assert(after.blocks[b2].instructions == self.blocks[b2].instructions);
            assert(self.blocks[b1].instructions[k1].dst == self.blocks[b2].instructions[k2].dst);
        }
        assert forall|c: int| 0 <= c < after.blocks.len() implies !((
        #[trigger] after.blocks[c]).terminator is Return) by {
            if c != b {
                assert(after.blocks[c] == self.blocks[c]);
            }
        }
    }
}

/// Once found below `n`, the position stays the answer for every larger
/// bound.
proof fn lemma_place_found(places: Seq<PlaceKind>, kind: PlaceKind, n: nat, m: nat)
    requires
        n <= m,
        spec_place_below(places, kind, n) is Some,
    ensures
        spec_place_below(places, kind, m) == spec_place_below(places, kind, n),
    decreases m - n,
{
    if n < m {
        lemma_place_found(places, kind, n, (m - 1) as nat);
    }
}

/// What is found below `n` is below `n`.
proof fn lemma_place_in_range(places: Seq<PlaceKind>, kind: PlaceKind, n: nat)
    ensures
        spec_place_below(places, kind, n) matches Some(i) ==> 0 <= i < n,
    decreases n,
{
    if n > 0 {
        lemma_place_in_range(places, kind, (n - 1) as nat);
    }
}

/// Once found below `n`, the position stays the answer for every larger
/// bound.
proof fn lemma_param_found(params: Seq<ParamKind>, kind: ParamKind, n: nat, m: nat)
    requires
        n <= m,
        spec_param_below(params, kind, n) is Some,
    ensures
        spec_param_below(params, kind, m) == spec_param_below(params, kind, n),
    decreases m - n,
{
    if n < m {
        lemma_param_found(params, kind, n, (m - 1) as nat);
    }
}

/// What is found below `n` is below `n`.
proof fn lemma_param_in_range(params: Seq<ParamKind>, kind: ParamKind, n: nat)
    ensures
        spec_param_below(params, kind, n) matches Some(i) ==> 0 <= i < n,
    decreases n,
{
    if n > 0 {
        lemma_param_in_range(params, kind, (n - 1) as nat);
    }
}

impl Builder {

    /// See [`BuilderView::place_of`].
    pub fn place_of(&mut self, kind: PlaceKind) -> (res: Option<u32>)
        requires
            old(self)@.inv(),
        ensures
            match res {
                Some(id) => {
                    &&& old(self)@.place_of(kind) == Some((final(self)@, id))
                    &&& final(self)@.inv()
                    &&& final(self)@.blocks == old(self)@.blocks
                    &&& final(self)@.cursor == old(self)@.cursor
                    &&& final(self)@.next_local == old(self)@.next_local
                },
                None => old(self)@.place_of(kind) is None,
            },
    {
        let n = self.places.len();
        let mut i: usize = 0;
        while i < n
            invariant
                i <= n,
                n == self.places@.len(),
                n <= u32::MAX,
                *self == *old(self),
                old(self)@.inv(),
                spec_place_below(self.places@, kind, i as nat) is None,
            decreases n - i,
        {
            if self.places[i] == kind {
                proof {
                    assert(self.places@[i as int] == kind);
                    assert(spec_place_below(self.places@, kind, (i + 1) as nat) == Some(i as int));
                    lemma_place_found(self.places@, kind, (i + 1) as nat, n as nat);
                    assert(self@ == old(self)@);
                }
                return Some(i as u32);
            }
            i += 1;
        }
        if n >= 0xffff_ffff {
            return None;
        }
        self.places.push(kind);
        proof {
            assert(self@.blocks =~= old(self)@.blocks);
        }
        Some(n as u32)
    }

    /// See [`BuilderView::param_of`].
    pub fn param_of(&mut self, kind: ParamKind) -> (res: Option<u32>)
        requires
            old(self)@.inv(),
        ensures
            match res {
                Some(id) => {
                    &&& old(self)@.param_of(kind) == Some((final(self)@, id))
                    &&& final(self)@.inv()
                    &&& final(self)@.blocks == old(self)@.blocks
                    &&& final(self)@.cursor == old(self)@.cursor
                    &&& final(self)@.next_local == old(self)@.next_local
                },
                None => old(self)@.param_of(kind) is None,
            },
    {
        let n = self.params.len();
        let mut i: usize = 0;
        while i < n
            invariant
                i <= n,
                n == self.params@.len(),
                n <= u32::MAX,
                *self == *old(self),
                old(self)@.inv(),
                spec_param_below(self.params@, kind, i as nat) is None,
            decreases n - i,
        {
            if self.params[i] == kind {
                proof {
                    assert(self.params@[i as int] == kind);
                    assert(spec_param_below(self.params@, kind, (i + 1) as nat) == Some(i as int));
                    lemma_param_found(self.params@, kind, (i + 1) as nat, n as nat);
                    assert(self@ == old(self)@);
                }
                return Some(i as u32);
            }
            i += 1;
        }
        if n >= 0xffff_ffff {
            return None;
        }
        self.params.push(kind);
        proof {
            assert(self@.blocks =~= old(self)@.blocks);
        }
        Some(n as u32)
    }

    /// Adds `instr` at the end of block `b`.
    fn push_instr(&mut self, b: usize, instr: Instruction)
        requires
            b < old(self).blocks@.len(),
        ensures
            final(self)@ == old(self)@.emit_in(b as int, instr@),
    {
        self.blocks[b].instructions.push(instr);
        proof {
            let before = old(self)@;
            let after = before.emit_in(b as int, instr@);
            assert(self@.blocks[b as int].instructions =~= after.blocks[b as int].instructions);
            assert(self@.blocks[b as int].phis =~= after.blocks[b as int].phis);
            assert forall|c: int| 0 <= c < self@.blocks.len() implies self@.blocks[c]
                == after.blocks[c] by {
                if c != b {
                    assert(self.blocks@[c] == old(self).blocks@[c]);
                }
            }
            assert(self@.blocks =~= after.blocks);
        }
    }

    /// See [`BuilderView::emit`]. The instruction writes no temporary.
    pub fn emit(&mut self, instr: Instruction)
        requires
            old(self)@.inv(),
            !(instr.dst is Local),
            instr.src >= 0,
            forall|j: int| 0 <= j < instr.args@.len() ==> old(self)@.ready(#[trigger] instr.args@[j]),
        ensures
            final(self)@ == old(self)@.emit(instr@),
            final(self)@.inv(),
            old(self)@.grown_to(final(self)@),
            final(self)@.places == old(self)@.places,
            final(self)@.params == old(self)@.params,
    {
        proof {
            old(self)@.lemma_emit_in(self.cursor as int, instr@);
        }
        self.push_instr(self.cursor as usize, instr);
    }

    /// See [`BuilderView::emit_local`].
    pub fn emit_local(&mut self, op: Op, args: Vec<Operand>, src: i32) -> (res: Option<u32>)
        requires
            old(self)@.inv(),
            src >= 0,
            forall|j: int| 0 <= j < args@.len() ==> old(self)@.ready(#[trigger] args@[j]),
        ensures
            match res {
                Some(local) => {
                    &&& old(self)@.emit_local(op, args@, src) == Some((final(self)@, local))
                    &&& final(self)@.inv()
                    &&& old(self)@.grown_to(final(self)@)
                    &&& final(self)@.ready(Operand::Local(local))
                    &&& final(self)@.places == old(self)@.places
                    &&& final(self)@.params == old(self)@.params
                },
                None => old(self)@.emit_local(op, args@, src) is None,
            },
    {
        if self.next_local >= 0xffff_ffff {
            return None;
        }
        proof {
            old(self)@.lemma_emit_local(op, args@, src);
        }
        let local = self.next_local;
        self.next_local = local + 1;
        self.push_instr(
            self.cursor as usize,
            Instruction { op, args, dst: InstrDst::Local(local), src },
        );
        Some(local)
    }

    /// See [`BuilderView::new_block`].
    pub fn new_block(&mut self) -> (res: Option<u32>)
        requires
            old(self)@.inv(),
        ensures
            match res {
                Some(block) => {
                    &&& old(self)@.new_block() == Some((final(self)@, block))
                    &&& final(self)@.inv()
                    &&& block == old(self)@.blocks.len()
                    &&& final(self)@.blocks.len() == old(self)@.blocks.len() + 1
                    &&& final(self)@.cursor == old(self)@.cursor
                    &&& final(self)@.places == old(self)@.places
                    &&& final(self)@.params == old(self)@.params
                    &&& forall|operand: Operand|
                        old(self)@.ready(operand) ==> #[trigger] final(self)@.ready(operand)
                },
                None => old(self)@.new_block() is None,
            },
    {
        let n = self.blocks.len();
        if n >= 0xffff_ffff {
            return None;
        }
        proof {
            old(self)@.lemma_new_block();
        }
        self.blocks.push(
            BasicBlockData {
                phis: Vec::new(),
                instructions: Vec::new(),
                terminator: Terminator::Goto { target: n as u32 },
            },
        );
        proof {
            let after = old(self)@.new_block().unwrap().0;
            assert(self@.blocks[n as int].phis =~= after.blocks[n as int].phis);
            assert(self@.blocks[n as int].instructions =~= after.blocks[n as int].instructions);
            assert(self@.blocks =~= after.blocks);
        }
        Some(n as u32)
    }

    /// See [`BuilderView::leave`].
    pub fn leave(&mut self, term: Terminator, next: u32)
        requires
            old(self)@.inv(),
            next < old(self)@.blocks.len(),
            !(term is Return),
            forall|t: u32| term.has_successor(t) ==> t < old(self)@.blocks.len(),
            term matches Terminator::Split { condition, .. } ==> old(self)@.ready(condition),
        ensures
            final(self)@ == old(self)@.leave(term, next),
            final(self)@.inv(),
            final(self)@.blocks.len() == old(self)@.blocks.len(),
            final(self)@.places == old(self)@.places,
            final(self)@.params == old(self)@.params,
    {
        proof {
            old(self)@.lemma_leave(term, next);
        }
        let b = self.cursor as usize;
        self.blocks[b].terminator = term;
        self.cursor = next;
        proof {
            let after = old(self)@.leave(term, next);
            assert forall|c: int| 0 <= c < self@.blocks.len() implies self@.blocks[c]
                == after.blocks[c] by {
                if c != b {
                    assert(self.blocks@[c] == old(self).blocks@[c]);
                }
            }
            assert(self@.blocks =~= after.blocks);
        }
    }
}

fn access_kind(netlist: &Netlist, access: Access, branch: u32) -> (res: ParamKind)
    requires
        spec_access_fits(netlist.branches@, access, branch),
    ensures
        res == spec_access_kind(netlist.branches@, access, branch),
{
    match access {
        Access::Flow => ParamKind::Current(branch),
        Access::Potential => match netlist.branches[branch as usize] {
            BranchKind::Nodes(hi, lo) => ParamKind::Voltage { hi, lo: Some(lo) },
            BranchKind::NodeGnd(hi) => ParamKind::Voltage { hi, lo: None },
            BranchKind::PortFlow(_) => ParamKind::Current(branch),
        },
    }
}

fn contribution(access: Access, branch: u32) -> (res: PlaceKind)
    ensures
        res == spec_contribution(access, branch),
{
    match access {
        Access::Potential => PlaceKind::BranchVoltage(branch),
        Access::Flow => PlaceKind::BranchCurrent(branch),
    }
}

fn node_contribution(access: Access, hi: u32, lo: Option<u32>) -> (res: PlaceKind)
    ensures
        res == spec_node_contribution(access, hi, lo),
{
    match access {
        Access::Potential => PlaceKind::ImplicitBranchVoltage { hi, lo },
        Access::Flow => PlaceKind::ImplicitBranchCurrent { hi, lo },
    }
}

impl Builder {
    /// Adds the instructions that compute the expression `e` to the
    /// current block and returns what reads its value, as
    /// [`spec_lower_expr`] says. `None` where the temporaries, the places
    /// or the parameters cannot be numbered any more.
    pub fn lower_expr(&mut self, behaviour: &Behaviour, netlist: &Netlist, e: u32) -> (res: Option<
        Operand,
    >)
        requires
            old(self)@.inv(),
            behaviour.well_formed(netlist),
            e < behaviour.exprs@.len(),
        ensures
            match res {
                Some(operand) => {
                    &&& spec_lower_expr(
                        behaviour.exprs@,
                        netlist.branches@,
                        old(self)@,
                        e as int,
                    ) == Some((final(self)@, operand))
                    &&& final(self)@.inv()
                    &&& old(self)@.grown_to(final(self)@)
                    &&& final(self)@.ready(operand)
                },
                None => spec_lower_expr(
                    behaviour.exprs@,
                    netlist.branches@,
                    old(self)@,
                    e as int,
                ) is None,
            },
        decreases e,
    {
        proof {
            assert(spec_expr_fits(behaviour.exprs@, netlist.branches@, e as int));
        }
        match behaviour.exprs[e as usize] {
            Expr::Literal(c) => Some(Operand::Const(c)),
            Expr::Variable(var) => match self.place_of(PlaceKind::Var(var)) {
                Some(place) => Some(Operand::Place(place)),
                None => None,
            },
            Expr::Parameter(param) => match self.param_of(ParamKind::Param(param)) {
                Some(id) => Some(Operand::Param(id)),
                None => None,
            },
            Expr::Temperature => match self.param_of(ParamKind::Temperature) {
                Some(id) => Some(Operand::Param(id)),
                None => None,
            },
            Expr::BranchAccess { access, branch } => {
                let kind = access_kind(netlist, access, branch);
                match self.param_of(kind) {
                    Some(id) => Some(Operand::Param(id)),
                    None => None,
                }
            },
            Expr::NodeAccess { hi, lo } => match self.param_of(ParamKind::Voltage { hi, lo }) {
                Some(id) => Some(Operand::Param(id)),
                None => None,
            },
            Expr::Unary { op, arg } => {
                let a = match self.lower_expr(behaviour, netlist, arg) {
                    Some(a) => a,
                    None => {
                        return None;
                    },
                };
                let ghost first = self@;
                let mut args: Vec<Operand> = Vec::new();
                args.push(a);
                assert(args@ =~= seq![a]);
                match self.emit_local(op, args, e as i32) {
                    Some(local) => {
                        proof {
                            old(self)@.lemma_grown_twice(first, self@);
                        }
                        Some(Operand::Local(local))
                    },
                    None => None,
                }
            },
            Expr::Binary { op, lhs, rhs } => {
                let a = match self.lower_expr(behaviour, netlist, lhs) {
                    Some(a) => a,
                    None => {
                        return None;
                    },
                };
                let ghost first = self@;
                let b = match self.lower_expr(behaviour, netlist, rhs) {
                    Some(b) => b,
                    None => {
                        return None;
                    },
                };
                let ghost second = self@;
                proof {
                    first.lemma_grown_ready(second, a);
                    old(self)@.lemma_grown_twice(first, second);
                }
                let mut args: Vec<Operand> = Vec::new();
                args.push(a);
                args.push(b);
                assert(args@ =~= seq![a, b]);
                match self.emit_local(op, args, e as i32) {
                    Some(local) => {
                        proof {
                            old(self)@.lemma_grown_twice(second, self@);
                        }
                        Some(Operand::Local(local))
                    },
                    None => None,
                }
            },
        }
    }

    /// Lowers the statement `s`, as [`spec_lower_stmt`] says; false where
    /// something cannot be numbered any more.
    pub fn lower_stmt(&mut self, behaviour: &Behaviour, netlist: &Netlist, s: u32) -> (res: bool)
        requires
            old(self)@.inv(),
            behaviour.well_formed(netlist),
            s < behaviour.stmts@.len(),
        ensures
            res ==> {
                &&& spec_lower_stmt(
                    behaviour.exprs@,
                    behaviour.stmts@,
                    netlist.branches@,
                    old(self)@,
                    s as int,
                ) == Some(final(self)@)
                &&& final(self)@.inv()
                &&& final(self)@.blocks.len() >= old(self)@.blocks.len()
            },
            !res ==> spec_lower_stmt(
                behaviour.exprs@,
                behaviour.stmts@,
                netlist.branches@,
                old(self)@,
                s as int,
            ) is None,
        decreases s,
    {
        proof {
            assert(spec_stmt_fits(
                behaviour.exprs@,
                behaviour.stmts@,
                netlist.branches@,
                s as int,
            ));
        }
        match behaviour.stmts[s as usize] {
            Stmt::Empty => true,
            Stmt::Assign { var, value } => {
                let v = match self.lower_expr(behaviour, netlist, value) {
                    Some(v) => v,
                    None => {
                        return false;
                    },
                };
                let place = match self.place_of(PlaceKind::Var(var)) {
                    Some(place) => place,
                    None => {
                        return false;
                    },
                };
                let mut args: Vec<Operand> = Vec::new();
                args.push(v);
                assert(args@ =~= seq![v]);
                self.emit(
                    Instruction { op: Op::Copy, args, dst: InstrDst::Place(place), src: value as i32 },
                );
                true
            },
            Stmt::Contribute { access, branch, value } => {
                let v = match self.lower_expr(behaviour, netlist, value) {
                    Some(v) => v,
                    None => {
                        return false;
                    },
                };
                let place = match self.place_of(contribution(access, branch)) {
                    Some(place) => place,
                    None => {
                        return false;
                    },
                };
                let mut args: Vec<Operand> = Vec::new();
                args.push(Operand::Place(place));
                args.push(v);
                assert(args@ =~= seq![Operand::Place(place), v]);
                self.emit(
                    Instruction {
                        op: Op::RealAdd,
                        args,
                        dst: InstrDst::Place(place),
                        src: value as i32,
                    },
                );
                true
            },
            Stmt::ContributeNodes { access, hi, lo, value } => {
                let v = match self.lower_expr(behaviour, netlist, value) {
                    Some(v) => v,
                    None => {
                        return false;
                    },
                };
                let place = match self.place_of(node_contribution(access, hi, lo)) {
                    Some(place) => place,
                    None => {
                        return false;
                    },
                };
                let mut args: Vec<Operand> = Vec::new();
                args.push(Operand::Place(place));
                args.push(v);
                assert(args@ =~= seq![Operand::Place(place), v]);
                self.emit(
                    Instruction {
                        op: Op::RealAdd,
                        args,
                        dst: InstrDst::Place(place),
                        src: value as i32,
                    },
                );
                true
            },
            Stmt::If { cond, then_branch, else_branch } => {
                let c = match self.lower_expr(behaviour, netlist, cond) {
                    Some(c) => c,
                    None => {
                        return false;
                    },
                };
                let then_block = match self.new_block() {
                    Some(block) => block,
                    None => {
                        return false;
                    },
                };
                let else_block = match self.new_block() {
                    Some(block) => block,
                    None => {
                        return false;
                    },
                };
                let join = match self.new_block() {
                    Some(block) => block,
                    None => {
                        return false;
                    },
                };
                self.leave(
                    Terminator::Split { condition: c, then_block, else_block, loop_head: false },
                    then_block,
                );
                if !self.lower_stmt(behaviour, netlist, then_branch) {
                    return false;
                }
                self.leave(Terminator::Goto { target: join }, else_block);
                if !self.lower_stmt(behaviour, netlist, else_branch) {
                    return false;
                }
                self.leave(Terminator::Goto { target: join }, join);
                true
            },
            Stmt::While { cond, body } => {
                let head = match self.new_block() {
                    Some(block) => block,
                    None => {
                        return false;
                    },
                };
                let body_block = match self.new_block() {
                    Some(block) => block,
                    None => {
                        return false;
                    },
                };
                let exit = match self.new_block() {
                    Some(block) => block,
                    None => {
                        return false;
                    },
                };
                self.leave(Terminator::Goto { target: head }, head);
                let c = match self.lower_expr(behaviour, netlist, cond) {
                    Some(c) => c,
                    None => {
                        return false;
                    },
                };
                self.leave(
                    Terminator::Split {
                        condition: c,
                        then_block: body_block,
                        else_block: exit,
                        loop_head: true,
                    },
                    body_block,
                );
                if !self.lower_stmt(behaviour, netlist, body) {
                    return false;
                }
                self.leave(Terminator::Goto { target: head }, exit);
                true
            },
            Stmt::Sequence { first, then } => {
                if !self.lower_stmt(behaviour, netlist, first) {
                    return false;
                }
                self.lower_stmt(behaviour, netlist, then)
            },
        }
    }
}

/// The graph is as it comes from lowering, with nothing generated in
/// it: it has no phi, no instruction is marked as generated, and every
/// local that it writes is below the number of its locals.
pub open spec fn spec_plain(cfg: CfgView) -> bool {
    &&& forall|d: int, dp: int, l: u32| #[trigger] cfg.defines(d, dp, l) ==> l < cfg.next_local
    &&& forall|b: int| 0 <= b < cfg.blocks.len() ==> (#[trigger] cfg.blocks[b]).phis.len() == 0
    &&& forall|b: int, k: int|
        0 <= b < cfg.blocks.len() && 0 <= k < cfg.blocks[b].instructions.len() ==> (
        #[trigger] cfg.blocks[b].instructions[k]).src >= 0
}

/// A graph that is ordered as [`spec_ordered`] says is in SSA form: every
/// read of a local comes after its one definition in the same block. It
/// has no phi, so its phis are well-formed, and every edge leads to a block
/// that exists.
pub proof fn lemma_ordered_is_ssa(cfg: CfgView)
    requires
        spec_ordered(cfg.blocks, cfg.next_local),
    ensures
        cfg.ssa_dominance(),
        cfg.phis_well_formed(),
        spec_plain(cfg),
{
    assert forall|b1: int, p1: int, b2: int, p2: int, local: u32|
        #![trigger cfg.defines(b1, p1, local), cfg.defines(b2, p2, local)]
        cfg.defines(b1, p1, local) && cfg.defines(b2, p2, local) implies b1 == b2 && p1 == p2 by {
        assert(spec_block_ordered(cfg.blocks[b1], cfg.next_local));
        assert(spec_block_ordered(cfg.blocks[b2], cfg.next_local));
        assert(cfg.blocks[b1].instructions[p1].dst == cfg.blocks[b2].instructions[p2].dst);
    }
    assert forall|b: int, pos: int, local: u32| #[trigger]
        cfg.reads(b, pos, local) implies exists|d: int, dp: int| #[trigger]
        cfg.defines(d, dp, local) && if d == b {
            dp < pos
        } else {
            cfg.dominates(d, b)
        } by {
        let block = cfg.blocks[b];
        assert(spec_block_ordered(block, cfg.next_local));
        if pos < block.instructions.len() {
            let j = choose|j: int|
                0 <= j < block.instructions[pos].args.len() && block.instructions[pos].args[j]
                    == Operand::Local(local);
            assert(spec_operand_ready(block.instructions, block.instructions[pos].args[j], pos));
        }
        let i = choose|i: int|
            0 <= i < pos && i < block.instructions.len() && (#[trigger] block.instructions[i]).dst
                == InstrDst::Local(local);
        assert(cfg.defines(b, i, local));
    }
    assert forall|pred: int, local: u32| #[trigger]
        cfg.phi_reads(pred, local) implies exists|d: int, dp: int| #[trigger]
        cfg.defines(d, dp, local) && cfg.dominates(d, pred) by {
        let (b, k, j) = choose|b: int, k: int, j: int|
            0 <= b < cfg.blocks.len() && 0 <= k < cfg.blocks[b].phis.len() && 0 <= j
                < cfg.blocks[b].phis[k].sources.len() && (
            #[trigger] cfg.blocks[b].phis[k].sources[j]) == (pred as u32, local) && 0 <= pred
                <= u32::MAX;
        assert(spec_block_ordered(cfg.blocks[b], cfg.next_local));
    }
    assert forall|b: int, k: int|
        0 <= b < cfg.blocks.len() && 0 <= k < cfg.blocks[b].phis.len() implies (
    #[trigger] cfg.blocks[b].phis[k]).source_blocks() == cfg.predecessors(b) by {
        assert(spec_block_ordered(cfg.blocks[b], cfg.next_local));
    }
    assert forall|d: int, dp: int, l: u32| #[trigger] cfg.defines(d, dp, l) implies l
        < cfg.next_local by {
        assert(spec_block_ordered(cfg.blocks[d], cfg.next_local));
        assert(cfg.blocks[d].instructions[dp].dst == InstrDst::Local(l));
    }
    assert forall|b: int| 0 <= b < cfg.blocks.len() implies (#[trigger] cfg.blocks[b]).phis.len()
        == 0 by {
        assert(spec_block_ordered(cfg.blocks[b], cfg.next_local));
    }
    assert forall|b: int, k: int|
        0 <= b < cfg.blocks.len() && 0 <= k < cfg.blocks[b].instructions.len() implies (
    #[trigger] cfg.blocks[b].instructions[k]).src >= 0 by {
        assert(spec_block_ordered(cfg.blocks[b], cfg.next_local));
    }
}

/// A place holds what is contributed to a branch, declared or not.
pub open spec fn spec_is_contribution(kind: PlaceKind) -> bool {
    !(kind is Var)
}

/// The instruction that sets the place `place` to zero.
pub open spec fn spec_clear(place: u32) -> InstructionView {
    InstructionView {
        op: Op::Copy,
        args: seq![Operand::Const(Const::Real(REAL_ZERO))],
        dst: InstrDst::Place(place),
        src: 0,
    }
}

/// The graph under construction with an instruction at the end of its
/// first block, for each of the first `n` places that holds what is
/// contributed to a branch, that sets the place to zero.
pub open spec fn spec_prologue(st: BuilderView, n: nat) -> BuilderView
    decreases n,
{
    if n == 0 {
        st
    } else {
        let before = spec_prologue(st, (n - 1) as nat);
        if spec_is_contribution(st.places[n - 1]) {
            before.emit_in(0, spec_clear((n - 1) as u32))
        } else {
            before
        }
    }
}

/// The graph under construction before anything is lowered: a first
/// block for the prologue, which leads to the second, the current block.
pub open spec fn spec_start() -> BuilderView {
    BuilderView {
        blocks: seq![
            BasicBlockView {
                phis: Seq::empty(),
                instructions: Seq::empty(),
                terminator: Terminator::Goto { target: 1 },
            },
            BasicBlockView {
                phis: Seq::empty(),
                instructions: Seq::empty(),
                terminator: Terminator::Goto { target: 1 },
            },
        ],
        cursor: 1,
        next_local: 0,
        places: Seq::empty(),
        params: Seq::empty(),
    }
}

/// What lowering gives: the graph, what its places and its parameters
/// stand for, and the block in which it returns.
#[derive(Debug)]
pub struct Lowered {
    pub cfg: ControlFlowGraph,
    pub places: Vec<PlaceKind>,
    pub params: Vec<ParamKind>,
    pub exit: u32,
}

/// A [`Lowered`] as a mathematical value.
pub struct LoweredView {
    pub cfg: CfgView,
    pub places: Seq<PlaceKind>,
    pub params: Seq<ParamKind>,
    pub exit: u32,
}

impl View for Lowered {
    type V = LoweredView;

    open spec fn view(&self) -> LoweredView {
        LoweredView {
            cfg: self.cfg@,
            places: self.places@,
            params: self.params@,
            exit: self.exit,
        }
    }
}

/// The graph of a behaviour. Its first block sets every place that holds
/// what is contributed to a branch to zero and leads to the second, from
/// which the statement `root` is lowered as [`spec_lower_stmt`] says. The
/// block at which that ends returns. `None` where something cannot be
/// numbered any more.
pub open spec fn spec_lower(
    exprs: Seq<Expr>,
    stmts: Seq<Stmt>,
    root: u32,
    branches: Seq<BranchKind>,
) -> Option<LoweredView> {
    match spec_lower_stmt(exprs, stmts, branches, spec_start(), root as int) {
        None => None,
        Some(st) => {
            let done = spec_prologue(st, st.places.len());
            Some(
                LoweredView {
                    cfg: CfgView {
                        blocks: done.blocks.update(
                            st.cursor as int,
                            BasicBlockView {
                                terminator: Terminator::Return,
                                ..done.blocks[st.cursor as int]
                            },
                        ),
                        next_local: st.next_local,
                        next_place: st.places.len() as u32,
                    },
                    places: st.places,
                    params: st.params,
                    exit: st.cursor,
                },
            )
        },
    }
}

/// Lowers a behaviour to its graph, as [`spec_lower`] says. The graph is
/// in SSA form and has no phi: every local is written once, and read only
/// behind that in the same block. Nothing in it is marked as generated.
/// Every edge leads to a block that exists, and the graph returns in one
/// block only.
pub fn lower(behaviour: &Behaviour, netlist: &Netlist) -> (res: Option<Lowered>)
    requires
        behaviour.well_formed(netlist),
    ensures
        match res {
            Some(lowered) => {
                &&& spec_lower(
                    behaviour.exprs@,
                    behaviour.stmts@,
                    behaviour.root,
                    netlist.branches@,
                ) == Some(lowered@)
                &&& lowered.cfg.targets_exist()
                &&& lowered.cfg@.ssa_dominance()
                &&& lowered.cfg@.phis_well_formed()
                &&& spec_plain(lowered.cfg@)
                &&& lowered.exit < lowered.cfg@.blocks.len()
                &&& forall|b: int|
                    0 <= b < lowered.cfg@.blocks.len() ==> ((
                    #[trigger] lowered.cfg@.blocks[b]).terminator is Return <==> b == lowered.exit)
            },
            None => spec_lower(
                behaviour.exprs@,
                behaviour.stmts@,
                behaviour.root,
                netlist.branches@,
            ) is None,
        },
{
    let mut blocks: Vec<BasicBlockData> = Vec::new();
    blocks.push(
        BasicBlockData {
            phis: Vec::new(),
            instructions: Vec::new(),
            terminator: Terminator::Goto { target: 1 },
        },
    );
    blocks.push(
        BasicBlockData {
            phis: Vec::new(),
            instructions: Vec::new(),
            terminator: Terminator::Goto { target: 1 },
        },
    );
    let mut builder = Builder {
        blocks,
        cursor: 1,
        next_local: 0,
        places: Vec::new(),
        params: Vec::new(),
    };
    proof {
        let start = spec_start();
        assert(builder@.blocks[0].phis =~= start.blocks[0].phis);
        assert(builder@.blocks[0].instructions =~= start.blocks[0].instructions);
        assert(builder@.blocks[1].phis =~= start.blocks[1].phis);
        assert(builder@.blocks[1].instructions =~= start.blocks[1].instructions);
        assert(builder@.blocks =~= start.blocks);
        assert(builder@.places =~= start.places);
        assert(builder@.params =~= start.params);
        assert(builder@ == start);
        assert forall|b: int| 0 <= b < start.blocks.len() implies spec_block_ordered(
            #[trigger] start.blocks[b],
            start.next_local,
        ) by {}
    }
    if !builder.lower_stmt(behaviour, netlist, behaviour.root) {
        return None;
    }
    let ghost lowered = builder@;
    let count = builder.places.len();
    let mut p: usize = 0;
    while p < count
        invariant
            p <= count,
            count == lowered.places.len(),
            count <= u32::MAX,
            lowered.inv(),
            builder@.inv(),
            builder@ == spec_prologue(lowered, p as nat),
            builder@.places == lowered.places,
            builder@.params == lowered.params,
            builder@.cursor == lowered.cursor,
            builder@.next_local == lowered.next_local,
            builder@.blocks.len() == lowered.blocks.len(),
        decreases count - p,
    {
        let clear = match builder.places[p] {
            PlaceKind::Var(_) => false,
            _ => true,
        };
        if clear {
            let mut args: Vec<Operand> = Vec::new();
            args.push(Operand::Const(Const::Real(REAL_ZERO)));
            let instr = Instruction {
                op: Op::Copy,
                args,
                dst: InstrDst::Place(p as u32),
                src: 0,
            };
            proof {
                assert(instr@.args =~= spec_clear(p as u32).args);
                assert(instr@ == spec_clear(p as u32));
                builder@.lemma_emit_in(0, instr@);
            }
            builder.push_instr(0, instr);
        }
        p += 1;
    }
    let exit = builder.cursor;
    let Builder { blocks, cursor, next_local, places, params } = builder;
    let mut cfg = ControlFlowGraph { blocks, next_local, next_place: count as u32 };
    let ghost done = spec_prologue(lowered, count as nat);
    let ghost before = cfg@;
    proof {
        assert(before.blocks =~= done.blocks);
    }
    cfg.blocks[exit as usize].terminator = Terminator::Return;
    proof {
        let after = cfg@;
        let last = BasicBlockView { terminator: Terminator::Return, ..done.blocks[exit as int] };
        assert forall|b: int| 0 <= b < after.blocks.len() implies after.blocks[b] == done.blocks.update(
            exit as int,
            last,
        )[b] by {
            if b != exit {
                assert(after.blocks[b] == before.blocks[b]);
            } else {
                assert(after.blocks[b].phis == before.blocks[b].phis);
                assert(after.blocks[b].instructions == before.blocks[b].instructions);
            }
        }
        assert(after.blocks =~= done.blocks.update(exit as int, last));
        assert forall|b: int| 0 <= b < after.blocks.len() implies spec_block_ordered(
            #[trigger] after.blocks[b],
            after.next_local,
        ) by {
            assert(spec_block_ordered(done.blocks[b], done.next_local));
        }
        assert forall|b: int, t: u32|
            0 <= b < after.blocks.len() && #[trigger] after.blocks[b].terminator.has_successor(
                t,
            ) implies t < after.blocks.len() by {
            if b != exit {
                assert(done.blocks[b].terminator.has_successor(t));
            }
        }
        assert forall|b1: int, k1: int, b2: int, k2: int|
            #![trigger after.blocks[b1].instructions[k1], after.blocks[b2].instructions[k2]]
            0 <= b1 < after.blocks.len() && 0 <= k1 < after.blocks[b1].instructions.len() && 0
                <= b2 < after.blocks.len() && 0 <= k2 < after.blocks[b2].instructions.len()
                && after.blocks[b1].instructions[k1].dst is Local
                && after.blocks[b1].instructions[k1].dst
                == after.blocks[b2].instructions[k2].dst implies b1 == b2 && k1 == k2 by {
            assert(after.blocks[b1].instructions == done.blocks[b1].instructions);
            assert(after.blocks[b2].instructions == done.blocks[b2].instructions);
            assert(done.blocks[b1].instructions[k1].dst == done.blocks[b2].instructions[k2].dst);
        }
        lemma_ordered_is_ssa(after);
        assert forall|b: int, t: u32|
            0 <= b < cfg.blocks@.len() && #[trigger] cfg.blocks@[b].terminator.has_successor(
                t,
            ) implies t < cfg.blocks@.len() by {
            assert(after.blocks[b].terminator.has_successor(t));
        }
        assert forall|b: int| 0 <= b < after.blocks.len() implies ((
        #[trigger] after.blocks[b]).terminator is Return <==> b == exit) by {
            if b != exit {
                assert(!(done.blocks[b].terminator is Return));
            }
        }
    }
    Some(Lowered { cfg, places, params, exit })
}

} // verus!
