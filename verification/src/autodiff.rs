//! Automatic differentiation: for every instruction of a graph the
//! instructions that compute the derivative of its result by one unknown
//! are put in front of it. The derivative of a local is held by the local
//! whose number is larger by a fixed offset, and that of a place by the
//! place whose number is larger by a fixed offset.

use vstd::prelude::*;
use crate::eval::{spec_combine, EvalView};
use crate::graph::{
    BasicBlockData, BasicBlockView, CfgView, Const, ControlFlowGraph, InstrDst, Instruction,
    InstructionView, Op, Operand, Phi, PhiView, REAL_ONE, REAL_ZERO,
};
use crate::intern::CallBackKind;
use crate::lattice::{spec_value_in, FlatSet};
use crate::propagation::{spec_known_result, spec_substitute, spec_written_back};

verus! {

/// The source tag of the instructions that the differentiation makes.
pub const GENERATED: i32 = -1;

/// By how much the number of the local, and of the place, that holds a
/// derivative is larger than the number of what it is the derivative of.
#[derive(Clone, Copy, Debug, PartialEq, Eq, Structural)]
pub struct Offsets {
    pub local: u32,
    pub place: u32,
}

/// Why a graph was not differentiated.
#[derive(Clone, Copy, Debug, PartialEq, Eq, Structural)]
pub enum AdError {
    /// The instruction at this position of this block reads a call-back
    /// that is no request for a derivative, or has the wrong number of
    /// operands.
    Unsupported { block: usize, index: usize },
    /// The graph names a local or a place that it has not, or has so many
    /// that the derivatives cannot be numbered.
    OutOfRange,
}

/// The literal real `x` as an operand, where `x` is 0 or 1.
pub open spec fn spec_unit(one: bool) -> Operand {
    Operand::Const(
        Const::Real(
            if one {
                REAL_ONE
            } else {
                REAL_ZERO
            },
        ),
    )
}

/// The operand that holds the derivative of `operand` by the parameter
/// `unknown`: zero for a literal, one for the unknown itself and zero for
/// any other parameter, one for the request of the derivative by the
/// unknown and zero for that by another parameter, and for a local or a
/// place the local or the place at the offset. `None` for a call-back that
/// is no request for a derivative.
pub open spec fn spec_d_operand(
    operand: Operand,
    unknown: u32,
    callbacks: Seq<CallBackKind>,
    offsets: Offsets,
) -> Option<Operand> {
    match operand {
        Operand::Const(_) => Some(spec_unit(false)),
        Operand::Local(local) => Some(Operand::Local((local + offsets.local) as u32)),
        Operand::Place(place) => Some(Operand::Place((place + offsets.place) as u32)),
        Operand::Param(param) => Some(spec_unit(param == unknown)),
        Operand::CallBack(id) => if id < callbacks.len() {
            match callbacks[id as int] {
                CallBackKind::Derivative(param) => Some(spec_unit(param == unknown)),
                _ => None,
            }
        } else {
            None
        },
    }
}

/// Where the derivative of what is written to `dst` is written.
pub open spec fn spec_d_dst(dst: InstrDst, offsets: Offsets) -> InstrDst {
    match dst {
        InstrDst::Local(local) => InstrDst::Local((local + offsets.local) as u32),
        InstrDst::Place(place) => InstrDst::Place((place + offsets.place) as u32),
        InstrDst::Ignore => InstrDst::Ignore,
    }
}

/// A generated instruction.
pub open spec fn spec_generated(op: Op, args: Seq<Operand>, dst: InstrDst) -> InstructionView {
    InstructionView { op, args, dst, src: GENERATED }
}

/// The number of temporaries that the rule for `op` needs.
pub open spec fn spec_rule_temps(op: Op) -> nat {
    match op {
        Op::RealMul => 2,
        Op::RealDiv => 4,
        Op::Exp => 1,
        Op::Sqrt => 2,
        Op::Sin => 1,
        Op::Cos => 2,
        Op::Pow => 6,
        _ => 0,
    }
}

/// The instructions that compute the derivative of `op` applied to `a` and
/// `b`, whose derivatives are `da` and `db`, and write it to `dst`. The
/// temporaries are numbered from `fresh`. For an operator of one operand
/// `b` repeats `a`.
///
/// A sum has the sum of the derivatives and a difference their difference.
/// A product `a * b` has `da * b + a * db`, a quotient `a / b` has
/// `(da * b - a * db) / (b * b)`, and `-a` has `-da`. The functions follow
/// the chain rule. Every other operator gives no real number that depends
/// on its operands, and has the derivative zero.
pub open spec fn spec_rule(
    op: Op,
    a: Operand,
    b: Operand,
    da: Operand,
    db: Operand,
    dst: InstrDst,
    fresh: int,
) -> Seq<InstructionView> {
    match op {
        Op::Copy => seq![
            spec_generated(Op::Copy, seq![da], dst),
        ],
        Op::RealAdd => seq![
            spec_generated(Op::RealAdd, seq![da, db], dst),
        ],
        Op::RealSub => seq![
            spec_generated(Op::RealSub, seq![da, db], dst),
        ],
        Op::RealArithNeg => seq![
            spec_generated(Op::RealArithNeg, seq![da], dst),
        ],
        Op::RealMul => seq![
            spec_generated(Op::RealMul, seq![da, b], InstrDst::Local((fresh + 0) as u32)),
            spec_generated(Op::RealMul, seq![a, db], InstrDst::Local((fresh + 1) as u32)),
            spec_generated(Op::RealAdd, seq![Operand::Local((fresh + 0) as u32), Operand::Local((fresh + 1) as u32)], dst),
        ],
        Op::RealDiv => seq![
            spec_generated(Op::RealMul, seq![da, b], InstrDst::Local((fresh + 0) as u32)),
            spec_generated(Op::RealMul, seq![a, db], InstrDst::Local((fresh + 1) as u32)),
            spec_generated(Op::RealSub, seq![Operand::Local((fresh + 0) as u32), Operand::Local((fresh + 1) as u32)], InstrDst::Local((fresh + 2) as u32)),
            spec_generated(Op::RealMul, seq![b, b], InstrDst::Local((fresh + 3) as u32)),
            spec_generated(Op::RealDiv, seq![Operand::Local((fresh + 2) as u32), Operand::Local((fresh + 3) as u32)], dst),
        ],
        Op::Exp => seq![
            spec_generated(Op::Exp, seq![a], InstrDst::Local((fresh + 0) as u32)),
            spec_generated(Op::RealMul, seq![Operand::Local((fresh + 0) as u32), da], dst),
        ],
        Op::Ln => seq![
            spec_generated(Op::RealDiv, seq![da, a], dst),
        ],
        Op::Sqrt => seq![
            spec_generated(Op::Sqrt, seq![a], InstrDst::Local((fresh + 0) as u32)),
            spec_generated(Op::RealAdd, seq![Operand::Local((fresh + 0) as u32), Operand::Local((fresh + 0) as u32)], InstrDst::Local((fresh + 1) as u32)),
            spec_generated(Op::RealDiv, seq![da, Operand::Local((fresh + 1) as u32)], dst),
        ],
        Op::Sin => seq![
            spec_generated(Op::Cos, seq![a], InstrDst::Local((fresh + 0) as u32)),
            spec_generated(Op::RealMul, seq![Operand::Local((fresh + 0) as u32), da], dst),
        ],
        Op::Cos => seq![
            spec_generated(Op::Sin, seq![a], InstrDst::Local((fresh + 0) as u32)),
            spec_generated(Op::RealMul, seq![Operand::Local((fresh + 0) as u32), da], InstrDst::Local((fresh + 1) as u32)),
            spec_generated(Op::RealArithNeg, seq![Operand::Local((fresh + 1) as u32)], dst),
        ],
        Op::Pow => seq![
            spec_generated(Op::Pow, seq![a, b], InstrDst::Local((fresh + 0) as u32)),
            spec_generated(Op::Ln, seq![a], InstrDst::Local((fresh + 1) as u32)),
            spec_generated(Op::RealMul, seq![db, Operand::Local((fresh + 1) as u32)], InstrDst::Local((fresh + 2) as u32)),
            spec_generated(Op::RealMul, seq![b, da], InstrDst::Local((fresh + 3) as u32)),
            spec_generated(Op::RealDiv, seq![Operand::Local((fresh + 3) as u32), a], InstrDst::Local((fresh + 4) as u32)),
            spec_generated(Op::RealAdd, seq![Operand::Local((fresh + 2) as u32), Operand::Local((fresh + 4) as u32)], InstrDst::Local((fresh + 5) as u32)),
            spec_generated(Op::RealMul, seq![Operand::Local((fresh + 0) as u32), Operand::Local((fresh + 5) as u32)], dst),
        ],
        _ => seq![spec_generated(Op::Copy, seq![spec_unit(false)], dst)],
    }
}

fn generated(op: Op, args: Vec<Operand>, dst: InstrDst) -> (res: Instruction)
    ensures
        res@ == spec_generated(op, args@, dst),
{
    Instruction { op, args, dst, src: GENERATED }
}

fn unary(op: Op, a: Operand, dst: InstrDst) -> (res: Instruction)
    ensures
        res@ == spec_generated(op, seq![a], dst),
{
    let mut args: Vec<Operand> = Vec::new();
    args.push(a);
    assert(args@ =~= seq![a]);
    generated(op, args, dst)
}

fn binary(op: Op, a: Operand, b: Operand, dst: InstrDst) -> (res: Instruction)
    ensures
        res@ == spec_generated(op, seq![a, b], dst),
{
    let mut args: Vec<Operand> = Vec::new();
    args.push(a);
    args.push(b);
    assert(args@ =~= seq![a, b]);
    generated(op, args, dst)
}

/// The instructions as mathematical values.
pub open spec fn spec_views(instrs: Seq<Instruction>) -> Seq<InstructionView> {
    Seq::new(instrs.len(), |i: int| instrs[i]@)
}

/// Appends the instructions of [`spec_rule`] to `out`.
pub fn emit_rule(
    op: Op,
    a: Operand,
    b: Operand,
    da: Operand,
    db: Operand,
    dst: InstrDst,
    fresh: u32,
    out: &mut Vec<Instruction>,
)
    requires
        fresh + spec_rule_temps(op) <= u32::MAX,
    ensures
        spec_views(final(out)@) == spec_views(old(out)@) + spec_rule(
            op,
            a,
            b,
            da,
            db,
            dst,
            fresh as int,
        ),
{
    let ghost before = spec_views(out@);
    match op {
        Op::Copy => {
            out.push(unary(Op::Copy, da, dst));
        },
        Op::RealAdd => {
            out.push(binary(Op::RealAdd, da, db, dst));
        },
        Op::RealSub => {
            out.push(binary(Op::RealSub, da, db, dst));
        },
        Op::RealArithNeg => {
            out.push(unary(Op::RealArithNeg, da, dst));
        },
        Op::RealMul => {
            out.push(binary(Op::RealMul, da, b, InstrDst::Local(fresh + 0)));
            out.push(binary(Op::RealMul, a, db, InstrDst::Local(fresh + 1)));
            out.push(binary(Op::RealAdd, Operand::Local(fresh + 0), Operand::Local(fresh + 1), dst));
        },
        Op::RealDiv => {
            out.push(binary(Op::RealMul, da, b, InstrDst::Local(fresh + 0)));
            out.push(binary(Op::RealMul, a, db, InstrDst::Local(fresh + 1)));
            out.push(binary(Op::RealSub, Operand::Local(fresh + 0), Operand::Local(fresh + 1), InstrDst::Local(fresh + 2)));
            out.push(binary(Op::RealMul, b, b, InstrDst::Local(fresh + 3)));
            out.push(binary(Op::RealDiv, Operand::Local(fresh + 2), Operand::Local(fresh + 3), dst));
        },
        Op::Exp => {
            out.push(unary(Op::Exp, a, InstrDst::Local(fresh + 0)));
            out.push(binary(Op::RealMul, Operand::Local(fresh + 0), da, dst));
        },
        Op::Ln => {
            out.push(binary(Op::RealDiv, da, a, dst));
        },
        Op::Sqrt => {
            out.push(unary(Op::Sqrt, a, InstrDst::Local(fresh + 0)));
            out.push(binary(Op::RealAdd, Operand::Local(fresh + 0), Operand::Local(fresh + 0), InstrDst::Local(fresh + 1)));
            out.push(binary(Op::RealDiv, da, Operand::Local(fresh + 1), dst));
        },
        Op::Sin => {
            out.push(unary(Op::Cos, a, InstrDst::Local(fresh + 0)));
            out.push(binary(Op::RealMul, Operand::Local(fresh + 0), da, dst));
        },
        Op::Cos => {
            out.push(unary(Op::Sin, a, InstrDst::Local(fresh + 0)));
            out.push(binary(Op::RealMul, Operand::Local(fresh + 0), da, InstrDst::Local(fresh + 1)));
            out.push(unary(Op::RealArithNeg, Operand::Local(fresh + 1), dst));
        },
        Op::Pow => {
            out.push(binary(Op::Pow, a, b, InstrDst::Local(fresh + 0)));
            out.push(unary(Op::Ln, a, InstrDst::Local(fresh + 1)));
            out.push(binary(Op::RealMul, db, Operand::Local(fresh + 1), InstrDst::Local(fresh + 2)));
            out.push(binary(Op::RealMul, b, da, InstrDst::Local(fresh + 3)));
            out.push(binary(Op::RealDiv, Operand::Local(fresh + 3), a, InstrDst::Local(fresh + 4)));
            out.push(binary(Op::RealAdd, Operand::Local(fresh + 2), Operand::Local(fresh + 4), InstrDst::Local(fresh + 5)));
            out.push(binary(Op::RealMul, Operand::Local(fresh + 0), Operand::Local(fresh + 5), dst));
        },
        _ => {
            out.push(unary(Op::Copy, Operand::Const(Const::Real(REAL_ZERO)), dst));
        },
    }
    assert(spec_views(out@) =~= before + spec_rule(op, a, b, da, db, dst, fresh as int));
}

/// The number of temporaries that the rule for `op` needs.
pub fn rule_temps(op: Op) -> (n: u32)
    ensures
        n == spec_rule_temps(op),
{
    match op {
        Op::RealMul => 2,
        Op::RealDiv => 4,
        Op::Exp => 1,
        Op::Sqrt => 2,
        Op::Sin => 1,
        Op::Cos => 2,
        Op::Pow => 6,
        _ => 0,
    }
}

/// The numbers that hold the derivatives of what `operand` names fit.
pub open spec fn spec_operand_fits(operand: Operand, offsets: Offsets) -> bool {
    match operand {
        Operand::Local(local) => local + offsets.local <= u32::MAX,
        Operand::Place(place) => place + offsets.place <= u32::MAX,
        _ => true,
    }
}

/// The number that holds the derivative of what is written to `dst` fits.
pub open spec fn spec_dst_fits(dst: InstrDst, offsets: Offsets) -> bool {
    match dst {
        InstrDst::Local(local) => local + offsets.local <= u32::MAX,
        InstrDst::Place(place) => place + offsets.place <= u32::MAX,
        InstrDst::Ignore => true,
    }
}

/// Why an instruction was not differentiated.
#[derive(Clone, Copy, Debug, PartialEq, Eq, Structural)]
pub enum StepError {
    Unsupported,
    OutOfRange,
}

/// What differentiating gives: what was made, and the number of the next
/// temporary.
pub struct Step<T> {
    pub made: T,
    pub fresh: int,
}

/// An instruction with the instructions in front of it that compute the
/// derivative of its result. An instruction that was generated, and one
/// that writes nowhere, stays alone.
pub open spec fn spec_d_instr(
    instr: InstructionView,
    unknown: u32,
    callbacks: Seq<CallBackKind>,
    offsets: Offsets,
    fresh: int,
) -> Result<Step<Seq<InstructionView>>, StepError> {
    if instr.src < 0 || instr.dst is Ignore {
        Ok(Step { made: seq![instr], fresh })
    } else if instr.args.len() != instr.op.arity() {
        Err(StepError::Unsupported)
    } else {
        let a = instr.args[0];
        let b = instr.args[instr.args.len() - 1];
        if !spec_operand_fits(a, offsets) || !spec_operand_fits(b, offsets) || !spec_dst_fits(
            instr.dst,
            offsets,
        ) || fresh + spec_rule_temps(instr.op) > u32::MAX {
            Err(StepError::OutOfRange)
        } else {
            match (
                spec_d_operand(a, unknown, callbacks, offsets),
                spec_d_operand(b, unknown, callbacks, offsets),
            ) {
                (Some(da), Some(db)) => Ok(
                    Step {
                        made: spec_rule(
                            instr.op,
                            a,
                            b,
                            da,
                            db,
                            spec_d_dst(instr.dst, offsets),
                            fresh,
                        ).push(instr),
                        fresh: fresh + spec_rule_temps(instr.op),
                    },
                ),
                _ => Err(StepError::Unsupported),
            }
        }
    }
}

/// The first `n` instructions of a block, each with its derivative in
/// front of it; or the position of the first that cannot be
/// differentiated, and why.
pub open spec fn spec_d_instrs(
    instrs: Seq<InstructionView>,
    unknown: u32,
    callbacks: Seq<CallBackKind>,
    offsets: Offsets,
    fresh: int,
    n: nat,
) -> Result<Step<Seq<InstructionView>>, (int, StepError)>
    decreases n,
{
    if n == 0 {
        Ok(Step { made: Seq::empty(), fresh })
    } else {
        match spec_d_instrs(instrs, unknown, callbacks, offsets, fresh, (n - 1) as nat) {
            Err(e) => Err(e),
            Ok(before) => match spec_d_instr(
                instrs[n - 1],
                unknown,
                callbacks,
                offsets,
                before.fresh,
            ) {
                Err(e) => Err((n - 1, e)),
                Ok(step) => Ok(Step { made: before.made + step.made, fresh: step.fresh }),
            },
        }
    }
}

/// The phi that joins the derivatives of what `phi` joins.
pub open spec fn spec_d_phi(phi: PhiView, offsets: Offsets) -> PhiView {
    PhiView {
        dst: (phi.dst + offsets.local) as u32,
        sources: Seq::new(
            phi.sources.len(),
            |j: int| (phi.sources[j].0, (phi.sources[j].1 + offsets.local) as u32),
        ),
    }
}

/// The numbers that hold the derivatives of what `phi` names fit.
pub open spec fn spec_phi_fits(phi: PhiView, offsets: Offsets) -> bool {
    &&& phi.dst + offsets.local <= u32::MAX
    &&& forall|j: int|
        0 <= j < phi.sources.len() ==> (#[trigger] phi.sources[j]).1 + offsets.local <= u32::MAX
}

/// The phis that join the derivatives, for the first `n` phis of a block.
/// Only a phi of a local below `originals` counts: the others were
/// generated. `None` where a number does not fit.
pub open spec fn spec_d_phis(phis: Seq<PhiView>, offsets: Offsets, originals: u32, n: nat)
    -> Option<Seq<PhiView>>
    decreases n,
{
    if n == 0 {
        Some(Seq::empty())
    } else {
        match spec_d_phis(phis, offsets, originals, (n - 1) as nat) {
            None => None,
            Some(before) => if phis[n - 1].dst >= originals {
                Some(before)
            } else if spec_phi_fits(phis[n - 1], offsets) {
                Some(before.push(spec_d_phi(phis[n - 1], offsets)))
            } else {
                None
            },
        }
    }
}

/// A block with the derivatives: its phis and behind them those of the
/// derivatives, its instructions each with its derivative in front of it,
/// and its terminator.
pub open spec fn spec_d_block(
    block: BasicBlockView,
    unknown: u32,
    callbacks: Seq<CallBackKind>,
    offsets: Offsets,
    originals: u32,
    fresh: int,
) -> Result<Step<BasicBlockView>, (Option<int>, StepError)> {
    match spec_d_phis(block.phis, offsets, originals, block.phis.len()) {
        None => Err((None, StepError::OutOfRange)),
        Some(phis) => match spec_d_instrs(
            block.instructions,
            unknown,
            callbacks,
            offsets,
            fresh,
            block.instructions.len(),
        ) {
            Err(e) => Err((Some(e.0), e.1)),
            Ok(step) => Ok(
                Step {
                    made: BasicBlockView {
                        phis: block.phis + phis,
                        instructions: step.made,
                        terminator: block.terminator,
                    },
                    fresh: step.fresh,
                },
            ),
        },
    }
}

/// The error of a block as the error of the graph.
pub open spec fn spec_ad_error(block: int, e: (Option<int>, StepError)) -> AdError {
    match e {
        (Some(index), StepError::Unsupported) => AdError::Unsupported {
            block: block as usize,
            index: index as usize,
        },
        _ => AdError::OutOfRange,
    }
}

/// The first `n` blocks with the derivatives, or the first error.
pub open spec fn spec_d_blocks(
    blocks: Seq<BasicBlockView>,
    unknown: u32,
    callbacks: Seq<CallBackKind>,
    offsets: Offsets,
    originals: u32,
    fresh: int,
    n: nat,
) -> Result<Step<Seq<BasicBlockView>>, AdError>
    decreases n,
{
    if n == 0 {
        Ok(Step { made: Seq::empty(), fresh })
    } else {
        match spec_d_blocks(blocks, unknown, callbacks, offsets, originals, fresh, (n - 1) as nat) {
            Err(e) => Err(e),
            Ok(before) => match spec_d_block(
                blocks[n - 1],
                unknown,
                callbacks,
                offsets,
                originals,
                before.fresh,
            ) {
                Err(e) => Err(spec_ad_error(n - 1, e)),
                Ok(step) => Ok(Step { made: before.made.push(step.made), fresh: step.fresh }),
            },
        }
    }
}

/// The graph with the derivatives by the parameter `unknown`. The
/// derivative of a local is held by the local whose number is larger by
/// the number of locals that the graph had, and likewise for the places;
/// the temporaries come behind.
pub open spec fn spec_differentiate(
    cfg: CfgView,
    unknown: u32,
    callbacks: Seq<CallBackKind>,
    originals: u32,
) -> Result<CfgView, AdError> {
    let offsets = Offsets { local: cfg.next_local, place: cfg.next_place };
    if 2 * cfg.next_local > u32::MAX || 2 * cfg.next_place > u32::MAX {
        Err(AdError::OutOfRange)
    } else {
        match spec_d_blocks(
            cfg.blocks,
            unknown,
            callbacks,
            offsets,
            originals,
            2 * cfg.next_local,
            cfg.blocks.len(),
        ) {
            Err(e) => Err(e),
            Ok(step) => Ok(
                CfgView {
                    blocks: step.made,
                    next_local: step.fresh as u32,
                    next_place: (2 * cfg.next_place) as u32,
                },
            ),
        }
    }
}

fn unit(one: bool) -> (res: Operand)
    ensures
        res == spec_unit(one),
{
    Operand::Const(
        Const::Real(
            if one {
                REAL_ONE
            } else {
                REAL_ZERO
            },
        ),
    )
}

fn operand_fits(operand: Operand, offsets: Offsets) -> (res: bool)
    ensures
        res == spec_operand_fits(operand, offsets),
{
    match operand {
        Operand::Local(local) => local <= u32::MAX - offsets.local,
        Operand::Place(place) => place <= u32::MAX - offsets.place,
        _ => true,
    }
}

fn d_operand(operand: Operand, unknown: u32, callbacks: &Vec<CallBackKind>, offsets: Offsets) -> (res:
    Option<Operand>)
    requires
        spec_operand_fits(operand, offsets),
    ensures
        res == spec_d_operand(operand, unknown, callbacks@, offsets),
{
    match operand {
        Operand::Const(_) => Some(unit(false)),
        Operand::Local(local) => Some(Operand::Local(local + offsets.local)),
        Operand::Place(place) => Some(Operand::Place(place + offsets.place)),
        Operand::Param(param) => Some(unit(param == unknown)),
        Operand::CallBack(id) => {
            if (id as usize) < callbacks.len() {
                match callbacks[id as usize] {
                    CallBackKind::Derivative(param) => Some(unit(param == unknown)),
                    _ => None,
                }
            } else {
                None
            }
        },
    }
}

fn copy_instruction(instr: &Instruction) -> (res: Instruction)
    ensures
        res@ == instr@,
{
    let mut args: Vec<Operand> = Vec::new();
    let mut i: usize = 0;
    while i < instr.args.len()
        invariant
            i <= instr.args@.len(),
            args@ == instr.args@.take(i as int),
        decreases instr.args@.len() - i,
    {
        args.push(instr.args[i]);
        i += 1;
        assert(args@ =~= instr.args@.take(i as int));
    }
    assert(args@ =~= instr.args@);
    Instruction { op: instr.op, args, dst: instr.dst, src: instr.src }
}

fn copy_phi(phi: &Phi, offset: u32) -> (res: Phi)
    requires
        spec_phi_fits(phi@, Offsets { local: offset, place: 0 }),
    ensures
        res@ == spec_d_phi(phi@, Offsets { local: offset, place: 0 }),
{
    let mut sources: Vec<(u32, u32)> = Vec::new();
    let mut j: usize = 0;
    while j < phi.sources.len()
        invariant
            j <= phi.sources@.len(),
            spec_phi_fits(phi@, Offsets { local: offset, place: 0 }),
            sources@.len() == j,
            forall|k: int|
                0 <= k < j ==> sources@[k] == (
                    phi.sources@[k].0,
                    (phi.sources@[k].1 + offset) as u32,
                ),
        decreases phi.sources@.len() - j,
    {
        let (block, local) = phi.sources[j];
        assert(phi@.sources[j as int].1 + offset <= u32::MAX);
        sources.push((block, local + offset));
        j += 1;
    }
    let res = Phi { dst: phi.dst + offset, sources };
    assert(res@.sources =~= spec_d_phi(phi@, Offsets { local: offset, place: 0 }).sources);
    res
}

fn phi_fits(phi: &Phi, offset: u32) -> (res: bool)
    ensures
        res == spec_phi_fits(phi@, Offsets { local: offset, place: 0 }),
{
    if phi.dst > u32::MAX - offset {
        return false;
    }
    let mut j: usize = 0;
    while j < phi.sources.len()
        invariant
            j <= phi.sources@.len(),
            forall|k: int| 0 <= k < j ==> (#[trigger] phi.sources@[k]).1 + offset <= u32::MAX,
        decreases phi.sources@.len() - j,
    {
        if phi.sources[j].1 > u32::MAX - offset {
            assert(phi@.sources[j as int].1 + offset > u32::MAX);
            return false;
        }
        j += 1;
    }
    true
}

/// Appends `instr` with its derivative in front of it to `out`, and moves
/// `fresh` behind the temporaries that were used.
fn d_instr(
    instr: &Instruction,
    unknown: u32,
    callbacks: &Vec<CallBackKind>,
    offsets: Offsets,
    fresh: &mut u32,
    out: &mut Vec<Instruction>,
) -> (res: Result<(), StepError>)
    ensures
        match res {
            Ok(()) => spec_d_instr(instr@, unknown, callbacks@, offsets, *old(fresh) as int)
                == Ok::<Step<Seq<InstructionView>>, StepError>(
                Step {
                    made: spec_views(final(out)@).skip(old(out)@.len() as int),
                    fresh: *final(fresh) as int,
                },
            ) && spec_views(final(out)@).take(old(out)@.len() as int) == spec_views(old(out)@)
                && final(out)@.len() >= old(out)@.len(),
            Err(e) => spec_d_instr(instr@, unknown, callbacks@, offsets, *old(fresh) as int)
                == Err::<Step<Seq<InstructionView>>, StepError>(e),
        },
{
    let ghost before = spec_views(out@);
    let skip = instr.src < 0 || match instr.dst {
        InstrDst::Ignore => true,
        _ => false,
    };
    if !skip {
        if instr.args.len() != instr.op.arity() {
            return Err(StepError::Unsupported);
        }
        let a = instr.args[0];
        let b = instr.args[instr.args.len() - 1];
        let temps = rule_temps(instr.op);
        let dst = match instr.dst {
            InstrDst::Local(local) => {
                if local > u32::MAX - offsets.local {
                    return Err(StepError::OutOfRange);
                }
                InstrDst::Local(local + offsets.local)
            },
            InstrDst::Place(place) => {
                if place > u32::MAX - offsets.place {
                    return Err(StepError::OutOfRange);
                }
                InstrDst::Place(place + offsets.place)
            },
            InstrDst::Ignore => InstrDst::Ignore,
        };
        if !operand_fits(a, offsets) || !operand_fits(b, offsets) || *fresh > u32::MAX - temps {
            return Err(StepError::OutOfRange);
        }
        let da = match d_operand(a, unknown, callbacks, offsets) {
            Some(da) => da,
            None => {
                return Err(StepError::Unsupported);
            },
        };
        let db = match d_operand(b, unknown, callbacks, offsets) {
            Some(db) => db,
            None => {
                return Err(StepError::Unsupported);
            },
        };
        emit_rule(instr.op, a, b, da, db, dst, *fresh, out);
        let ghost rule = spec_rule(instr.op, a, b, da, db, dst, *fresh as int);
        *fresh = *fresh + temps;
        let ghost mid = spec_views(out@);
        out.push(copy_instruction(instr));
        proof {
            assert(mid == before + rule);
            assert(spec_views(out@) =~= mid.push(instr@));
            assert(spec_views(out@).take(before.len() as int) =~= before);
            assert(spec_views(out@).skip(before.len() as int) =~= rule.push(instr@));
            assert(dst == spec_d_dst(instr.dst, offsets));
        }
        return Ok(());
    }
    let ghost mid = spec_views(out@);
    out.push(copy_instruction(instr));
    proof {
        assert(spec_views(out@) =~= mid.push(instr@));
        assert(spec_views(out@).take(before.len() as int) =~= before);
        assert(spec_views(out@).skip(before.len() as int) =~= seq![instr@]);
    }
    Ok(())
}

/// The block `block` with the derivatives, as [`spec_d_block`] says.
fn d_block(
    block: &BasicBlockData,
    unknown: u32,
    callbacks: &Vec<CallBackKind>,
    offsets: Offsets,
    originals: u32,
    fresh: &mut u32,
) -> (res: Result<BasicBlockData, (Option<usize>, StepError)>)
    ensures
        match res {
            Ok(made) => spec_d_block(
                block@,
                unknown,
                callbacks@,
                offsets,
                originals,
                *old(fresh) as int,
            ) == Ok::<Step<BasicBlockView>, (Option<int>, StepError)>(
                Step { made: made@, fresh: *final(fresh) as int },
            ),
            Err(e) => spec_d_block(block@, unknown, callbacks@, offsets, originals, *old(fresh) as int)
                == Err::<Step<BasicBlockView>, (Option<int>, StepError)>(
                (
                    match e.0 {
                        Some(i) => Some(i as int),
                        None => None,
                    },
                    e.1,
                ),
            ),
        },
{
    let mut phis: Vec<Phi> = Vec::new();
    let n_phis = block.phis.len();
    let mut k: usize = 0;
    while k < n_phis
        invariant
            k <= n_phis,
            n_phis == block.phis@.len(),
            phis@.len() == k,
            forall|j: int| 0 <= j < k ==> (#[trigger] phis@[j])@ == block.phis@[j]@,
        decreases n_phis - k,
    {
        let phi = &block.phis[k];
        let mut sources: Vec<(u32, u32)> = Vec::new();
        let mut j: usize = 0;
        while j < phi.sources.len()
            invariant
                j <= phi.sources@.len(),
                sources@ == phi.sources@.take(j as int),
            decreases phi.sources@.len() - j,
        {
            sources.push(phi.sources[j]);
            j += 1;
            assert(sources@ =~= phi.sources@.take(j as int));
        }
        assert(sources@ =~= phi.sources@);
        phis.push(Phi { dst: phi.dst, sources });
        k += 1;
    }
    let ghost own = Seq::new(phis@.len(), |j: int| phis@[j]@);
    assert(own =~= block@.phis);
    let ghost shift = Offsets { local: offsets.local, place: 0 };
    assert(forall|phi: PhiView| spec_phi_fits(phi, shift) == spec_phi_fits(phi, offsets));
    assert(forall|phi: PhiView| spec_d_phi(phi, shift) == spec_d_phi(phi, offsets));
    let mut k: usize = 0;
    while k < n_phis
        invariant
            k <= n_phis,
            n_phis == block.phis@.len(),
            n_phis <= phis@.len(),
            shift == (Offsets { local: offsets.local, place: 0 }),
            forall|phi: PhiView| spec_phi_fits(phi, shift) == spec_phi_fits(phi, offsets),
            forall|phi: PhiView| spec_d_phi(phi, shift) == spec_d_phi(phi, offsets),
            spec_d_phis(block@.phis, offsets, originals, k as nat) == Some(
                Seq::new(phis@.len(), |j: int| phis@[j]@).skip(n_phis as int),
            ),
            Seq::new(phis@.len(), |j: int| phis@[j]@).take(n_phis as int) == block@.phis,
        decreases n_phis - k,
    {
        let phi = &block.phis[k];
        assert(block@.phis[k as int] == phi@);
        let ghost before = Seq::new(phis@.len(), |j: int| phis@[j]@);
        if phi.dst < originals {
            if !phi_fits(phi, offsets.local) {
                proof {
                    assert(spec_d_phis(block@.phis, offsets, originals, (k + 1) as nat) is None);
                    lemma_d_phis_failed(
                        block@.phis,
                        offsets,
                        originals,
                        (k + 1) as nat,
                        n_phis as nat,
                    );
                }
                return Err((None, StepError::OutOfRange));
            }
            phis.push(copy_phi(phi, offsets.local));
            let ghost after = Seq::new(phis@.len(), |j: int| phis@[j]@);
            assert(after =~= before.push(spec_d_phi(phi@, offsets)));
            assert(after.skip(n_phis as int) =~= before.skip(n_phis as int).push(
                spec_d_phi(phi@, offsets),
            ));
            assert(after.take(n_phis as int) =~= before.take(n_phis as int));
        }
        k += 1;
    }
    let ghost all_phis = Seq::new(phis@.len(), |j: int| phis@[j]@);
    assert(all_phis =~= block@.phis + all_phis.skip(n_phis as int));
    let mut instructions: Vec<Instruction> = Vec::new();
    let n = block.instructions.len();
    let mut i: usize = 0;
    assert(spec_views(instructions@) =~= Seq::empty());
    while i < n
        invariant
            i <= n,
            n == block.instructions@.len(),
            n_phis == block.phis@.len(),
            spec_d_phis(block@.phis, offsets, originals, n_phis as nat) == Some(
                all_phis.skip(n_phis as int),
            ),
            spec_d_instrs(
                block@.instructions,
                unknown,
                callbacks@,
                offsets,
                *old(fresh) as int,
                i as nat,
            ) == Ok::<Step<Seq<InstructionView>>, (int, StepError)>(
                Step { made: spec_views(instructions@), fresh: *fresh as int },
            ),
        decreases n - i,
    {
        let ghost before = spec_views(instructions@);
        assert(block@.instructions[i as int] == block.instructions@[i as int]@);
        match d_instr(&block.instructions[i], unknown, callbacks, offsets, fresh, &mut instructions) {
            Ok(()) => {
                proof {
                    let after = spec_views(instructions@);
                    assert(after =~= after.take(before.len() as int) + after.skip(
                        before.len() as int,
                    ));
                }
            },
            Err(e) => {
                proof {
                    assert(spec_d_instrs(
                        block@.instructions,
                        unknown,
                        callbacks@,
                        offsets,
                        *old(fresh) as int,
                        (i + 1) as nat,
                    ) == Err::<Step<Seq<InstructionView>>, (int, StepError)>((i as int, e)));
                    lemma_d_instrs_failed(
                        block@.instructions,
                        unknown,
                        callbacks@,
                        offsets,
                        *old(fresh) as int,
                        (i + 1) as nat,
                        n as nat,
                    );
                }
                return Err((Some(i), e));
            },
        }
        i += 1;
    }
    let made = BasicBlockData { phis, instructions, terminator: block.terminator };
    assert(made@.phis =~= all_phis);
    assert(made@.instructions =~= spec_views(made.instructions@));
    Ok(made)
}

/// Once a phi did not fit, the phis do not fit.
proof fn lemma_d_phis_failed(phis: Seq<PhiView>, offsets: Offsets, originals: u32, n: nat, m: nat)
    requires
        n <= m,
        spec_d_phis(phis, offsets, originals, n) is None,
    ensures
        spec_d_phis(phis, offsets, originals, m) is None,
    decreases m - n,
{
    if n < m {
        lemma_d_phis_failed(phis, offsets, originals, n, (m - 1) as nat);
    }
}

/// Once the differentiation of the instructions has failed, it has failed.
proof fn lemma_d_instrs_failed(
    instrs: Seq<InstructionView>,
    unknown: u32,
    callbacks: Seq<CallBackKind>,
    offsets: Offsets,
    fresh: int,
    n: nat,
    m: nat,
)
    requires
        n <= m,
        spec_d_instrs(instrs, unknown, callbacks, offsets, fresh, n) is Err,
    ensures
        spec_d_instrs(instrs, unknown, callbacks, offsets, fresh, m) == spec_d_instrs(
            instrs,
            unknown,
            callbacks,
            offsets,
            fresh,
            n,
        ),
    decreases m - n,
{
    if n < m {
        lemma_d_instrs_failed(instrs, unknown, callbacks, offsets, fresh, n, (m - 1) as nat);
    }
}

/// Once the differentiation of the blocks has failed, it has failed.
proof fn lemma_d_blocks_failed(
    blocks: Seq<BasicBlockView>,
    unknown: u32,
    callbacks: Seq<CallBackKind>,
    offsets: Offsets,
    originals: u32,
    fresh: int,
    n: nat,
    m: nat,
)
    requires
        n <= m,
        spec_d_blocks(blocks, unknown, callbacks, offsets, originals, fresh, n) is Err,
    ensures
        spec_d_blocks(blocks, unknown, callbacks, offsets, originals, fresh, m) == spec_d_blocks(
            blocks,
            unknown,
            callbacks,
            offsets,
            originals,
            fresh,
            n,
        ),
    decreases m - n,
{
    if n < m {
        lemma_d_blocks_failed(
            blocks,
            unknown,
            callbacks,
            offsets,
            originals,
            fresh,
            n,
            (m - 1) as nat,
        );
    }
}

/// Puts in front of every instruction of `cfg` the instructions that
/// compute the derivative of its result by the parameter `unknown`, as
/// [`spec_differentiate`] says, and returns the offsets at which the
/// derivatives are held. A phi of a local below `originals` gets a phi for
/// its derivative. Where the graph cannot be differentiated it is left as
/// it is.
pub fn differentiate(
    cfg: &mut ControlFlowGraph,
    unknown: u32,
    callbacks: &Vec<CallBackKind>,
    originals: u32,
) -> (res: Result<Offsets, AdError>)
    ensures
        match res {
            Ok(offsets) => {
                &&& spec_differentiate(old(cfg)@, unknown, callbacks@, originals) == Ok::<
                    CfgView,
                    AdError,
                >(final(cfg)@)
                &&& offsets == (Offsets {
                    local: old(cfg).next_local,
                    place: old(cfg).next_place,
                })
            },
            Err(e) => {
                &&& spec_differentiate(old(cfg)@, unknown, callbacks@, originals) == Err::<
                    CfgView,
                    AdError,
                >(e)
                &&& final(cfg)@ == old(cfg)@
            },
        },
{
    let offsets = Offsets { local: cfg.next_local, place: cfg.next_place };
    if cfg.next_local > u32::MAX / 2 || cfg.next_place > u32::MAX / 2 {
        return Err(AdError::OutOfRange);
    }
    let mut fresh: u32 = 2 * cfg.next_local;
    let mut blocks: Vec<BasicBlockData> = Vec::new();
    let n = cfg.blocks.len();
    let mut b: usize = 0;
    assert(Seq::new(blocks@.len(), |i: int| blocks@[i]@) =~= Seq::empty());
    while b < n
        invariant
            b <= n,
            n == cfg.blocks@.len(),
            cfg@ == old(cfg)@,
            2 * cfg.next_local <= u32::MAX,
            2 * cfg.next_place <= u32::MAX,
            offsets == (Offsets { local: cfg.next_local, place: cfg.next_place }),
            spec_d_blocks(
                cfg@.blocks,
                unknown,
                callbacks@,
                offsets,
                originals,
                2 * cfg.next_local,
                b as nat,
            ) == Ok::<Step<Seq<BasicBlockView>>, AdError>(
                Step {
                    made: Seq::new(blocks@.len(), |i: int| blocks@[i]@),
                    fresh: fresh as int,
                },
            ),
        decreases n - b,
    {
        let ghost before = Seq::new(blocks@.len(), |i: int| blocks@[i]@);
        assert(cfg@.blocks[b as int] == cfg.blocks@[b as int]@);
        match d_block(&cfg.blocks[b], unknown, callbacks, offsets, originals, &mut fresh) {
            Ok(made) => {
                blocks.push(made);
                assert(Seq::new(blocks@.len(), |i: int| blocks@[i]@) =~= before.push(made@));
            },
            Err(e) => {
                proof {
                    let err = (
                        match e.0 {
                            Some(i) => Some(i as int),
                            None => None,
                        },
                        e.1,
                    );
                    assert(spec_d_blocks(
                        cfg@.blocks,
                        unknown,
                        callbacks@,
                        offsets,
                        originals,
                        2 * cfg.next_local,
                        (b + 1) as nat,
                    ) == Err::<Step<Seq<BasicBlockView>>, AdError>(spec_ad_error(b as int, err)));
                    lemma_d_blocks_failed(
                        cfg@.blocks,
                        unknown,
                        callbacks@,
                        offsets,
                        originals,
                        2 * cfg.next_local,
                        (b + 1) as nat,
                        n as nat,
                    );
                }
                let error = match e {
                    (Some(index), StepError::Unsupported) => AdError::Unsupported {
                        block: b,
                        index,
                    },
                    _ => AdError::OutOfRange,
                };
                proof {
                    let err = (
                        match e.0 {
                            Some(i) => Some(i as int),
                            None => None,
                        },
                        e.1,
                    );
                    assert(error == spec_ad_error(b as int, err));
                    assert(spec_d_blocks(
                        cfg@.blocks,
                        unknown,
                        callbacks@,
                        offsets,
                        originals,
                        2 * cfg.next_local,
                        n as nat,
                    ) == Err::<Step<Seq<BasicBlockView>>, AdError>(error));
                }
                return Err(error);
            },
        }
        b += 1;
    }
    cfg.blocks = blocks;
    cfg.next_local = fresh;
    cfg.next_place = 2 * cfg.next_place;
    assert(cfg@.blocks =~= Seq::new(blocks@.len(), |i: int| blocks@[i]@));
    Ok(offsets)
}

/// The derivatives that were made so far: for each unknown that the graph
/// was differentiated by, the offsets at which its derivatives are held.
#[derive(Debug)]
pub struct AutoDiff {
    /// The number of locals that the graph had before any differentiation.
    pub originals: u32,
    pub done: Vec<(u32, Offsets)>,
}

/// The offsets of the first of the first `n` entries that is for
/// `unknown`.
pub open spec fn spec_cached(done: Seq<(u32, Offsets)>, unknown: u32, n: nat) -> Option<Offsets>
    decreases n,
{
    if n == 0 {
        None
    } else {
        match spec_cached(done, unknown, (n - 1) as nat) {
            Some(offsets) => Some(offsets),
            None => if done[n - 1].0 == unknown {
                Some(done[n - 1].1)
            } else {
                None
            },
        }
    }
}

proof fn lemma_cached_found(done: Seq<(u32, Offsets)>, unknown: u32, n: nat, m: nat)
    requires
        n <= m,
        spec_cached(done, unknown, n) is Some,
    ensures
        spec_cached(done, unknown, m) == spec_cached(done, unknown, n),
    decreases m - n,
{
    if n < m {
        lemma_cached_found(done, unknown, n, (m - 1) as nat);
    }
}

impl AutoDiff {
    /// Nothing differentiated yet.
    pub fn new(cfg: &ControlFlowGraph) -> (res: AutoDiff)
        ensures
            res.originals == cfg.next_local,
            res.done@.len() == 0,
    {
        AutoDiff { originals: cfg.next_local, done: Vec::new() }
    }

    fn cached(&self, unknown: u32) -> (res: Option<Offsets>)
        ensures
            res == spec_cached(self.done@, unknown, self.done@.len()),
    {
        let mut i: usize = 0;
        while i < self.done.len()
            invariant
                i <= self.done@.len(),
                spec_cached(self.done@, unknown, i as nat) is None,
            decreases self.done@.len() - i,
        {
            if self.done[i].0 == unknown {
                proof {
                    lemma_cached_found(self.done@, unknown, (i + 1) as nat, self.done@.len());
                }
                return Some(self.done[i].1);
            }
            i += 1;
        }
        None
    }

    /// The operand that holds the derivative of the local `value` by the
    /// parameter `unknown`. The first request for an unknown
    /// differentiates the graph by it; every further one finds the
    /// derivatives made and leaves the graph as it is.
    pub fn derivative(
        &mut self,
        cfg: &mut ControlFlowGraph,
        callbacks: &Vec<CallBackKind>,
        value: u32,
        unknown: u32,
    ) -> (res: Result<Operand, AdError>)
        ensures
            final(self).originals == old(self).originals,
            match spec_cached(old(self).done@, unknown, old(self).done@.len()) {
                Some(offsets) => {
                    &&& final(cfg)@ == old(cfg)@
                    &&& final(self).done@ == old(self).done@
                    &&& res == if value + offsets.local <= u32::MAX {
                        Ok::<Operand, AdError>(Operand::Local((value + offsets.local) as u32))
                    } else {
                        Err::<Operand, AdError>(AdError::OutOfRange)
                    }
                },
                None => if value + old(cfg).next_local > u32::MAX {
                    &&& res == Err::<Operand, AdError>(AdError::OutOfRange)
                    &&& final(cfg)@ == old(cfg)@
                    &&& final(self).done@ == old(self).done@
                } else {
                    match spec_differentiate(old(cfg)@, unknown, callbacks@, old(self).originals) {
                        Ok(made) => {
                            &&& final(cfg)@ == made
                            &&& final(self).done@ == old(self).done@.push(
                                (
                                    unknown,
                                    Offsets {
                                        local: old(cfg).next_local,
                                        place: old(cfg).next_place,
                                    },
                                ),
                            )
                            &&& res == Ok::<Operand, AdError>(
                                Operand::Local((value + old(cfg).next_local) as u32),
                            )
                        },
                        Err(e) => {
                            &&& res == Err::<Operand, AdError>(e)
                            &&& final(cfg)@ == old(cfg)@
                            &&& final(self).done@ == old(self).done@
                        },
                    }
                },
            },
    {
        if let Some(offsets) = self.cached(unknown) {
            return if value <= u32::MAX - offsets.local {
                Ok(Operand::Local(value + offsets.local))
            } else {
                Err(AdError::OutOfRange)
            };
        }
        if value > u32::MAX - cfg.next_local {
            return Err(AdError::OutOfRange);
        }
        match differentiate(cfg, unknown, callbacks, self.originals) {
            Ok(offsets) => {
                self.done.push((unknown, offsets));
                Ok(Operand::Local(value + offsets.local))
            },
            Err(e) => Err(e),
        }
    }
}

/// Linearity, for a sum: the derivative of `a + b` is computed by the one
/// instruction that adds the derivative of `a` and the derivative of `b`.
pub proof fn lemma_derivative_of_sum(
    a: Operand,
    b: Operand,
    da: Operand,
    db: Operand,
    dst: InstrDst,
    fresh: int,
)
    ensures
        spec_rule(Op::RealAdd, a, b, da, db, dst, fresh) == seq![
            spec_generated(Op::RealAdd, seq![da, db], dst),
        ],
        spec_rule_temps(Op::RealAdd) == 0,
{
}

/// In generated code a product with a factor that is known to be zero is
/// known to be zero, whatever the other factor is.
pub proof fn lemma_generated_product_with_zero(other: FlatSet, answer: Option<Const>)
    ensures
        spec_combine(
            Op::RealMul,
            GENERATED,
            FlatSet::Elem(Const::Real(REAL_ZERO)),
            other,
            answer,
        ) == FlatSet::Elem(Const::Real(REAL_ZERO)),
        spec_combine(
            Op::RealMul,
            GENERATED,
            other,
            FlatSet::Elem(Const::Real(REAL_ZERO)),
            answer,
        ) == FlatSet::Elem(Const::Real(REAL_ZERO)),
{
}

/// Linearity, for a constant factor: of the three instructions that
/// compute the derivative of `c * a`, the first multiplies by the
/// derivative of the constant, which is zero, the second computes `c * da`,
/// and the third adds the two. Once the constant propagation knows the
/// first to be zero (see [`lemma_generated_product_with_zero`]), and knows
/// neither the second nor the sum to be a constant, writing its result
/// back leaves the third as a copy of the second: the derivative of
/// `c * a` is `c * da`.
pub proof fn lemma_derivative_of_scaled(
    ctx: EvalView,
    c: u64,
    a: Operand,
    da: Operand,
    dst: u32,
    fresh: int,
)
    requires
        0 <= fresh,
        fresh + 1 <= u32::MAX,
        spec_value_in(ctx.ssa, fresh as u32) == FlatSet::Elem(Const::Real(REAL_ZERO)),
        !(spec_value_in(ctx.ssa, (fresh + 1) as u32) is Elem),
        !(spec_value_in(ctx.ssa, dst) is Elem),
    ensures
        ({
            let rule = spec_rule(
                Op::RealMul,
                Operand::Const(Const::Real(c)),
                a,
                spec_unit(false),
                da,
                InstrDst::Local(dst),
                fresh,
            );
            &&& rule.len() == 3
            &&& rule[0] == spec_generated(
                Op::RealMul,
                seq![spec_unit(false), a],
                InstrDst::Local(fresh as u32),
            )
            &&& rule[1] == spec_generated(
                Op::RealMul,
                seq![Operand::Const(Const::Real(c)), da],
                InstrDst::Local((fresh + 1) as u32),
            )
            &&& spec_written_back(ctx, rule[2]) == spec_generated(
                Op::Copy,
                seq![Operand::Local((fresh + 1) as u32)],
                InstrDst::Local(dst),
            )
        }),
{
    let rule = spec_rule(
        Op::RealMul,
        Operand::Const(Const::Real(c)),
        a,
        spec_unit(false),
        da,
        InstrDst::Local(dst),
        fresh,
    );
    let sum = rule[2];
    let t0 = Operand::Local(fresh as u32);
    let t1 = Operand::Local((fresh + 1) as u32);
    assert(sum == spec_generated(Op::RealAdd, seq![t0, t1], InstrDst::Local(dst)));
    assert(spec_known_result(ctx, sum.dst) is None);
    let substituted = Seq::new(sum.args.len(), |i: int| spec_substitute(ctx, sum.args[i]));
    assert(substituted =~= seq![Operand::Const(Const::Real(REAL_ZERO)), t1]);
    assert(spec_written_back(ctx, sum).args =~= seq![t1]);
}

/// Every phi that was made for a derivative is the phi of a derivative of
/// one of the phis.
proof fn lemma_d_phis_of(phis: Seq<PhiView>, offsets: Offsets, originals: u32, n: nat)
    requires
        n <= phis.len(),
        spec_d_phis(phis, offsets, originals, n) is Some,
    ensures
        forall|j: int|
            0 <= j < spec_d_phis(phis, offsets, originals, n).unwrap().len() ==> exists|i: int|
                0 <= i < n && #[trigger] spec_d_phis(phis, offsets, originals, n).unwrap()[j]
                    == spec_d_phi(phis[i], offsets),
    decreases n,
{
    if n > 0 {
        lemma_d_phis_of(phis, offsets, originals, (n - 1) as nat);
        let before = spec_d_phis(phis, offsets, originals, (n - 1) as nat).unwrap();
        let all = spec_d_phis(phis, offsets, originals, n).unwrap();
        assert forall|j: int| 0 <= j < all.len() implies exists|i: int|
            0 <= i < n && #[trigger] all[j] == spec_d_phi(phis[i], offsets) by {
            if j < before.len() {
                assert(all[j] == before[j]);
                let i = choose|i: int| 0 <= i < n - 1 && before[j] == spec_d_phi(phis[i], offsets);
                assert(all[j] == spec_d_phi(phis[i], offsets));
            } else {
                assert(all[j] == spec_d_phi(phis[n - 1], offsets));
            }
        }
    }
}

/// Each of the blocks with the derivatives comes from the block in its
/// place.
proof fn lemma_d_blocks_of(
    blocks: Seq<BasicBlockView>,
    unknown: u32,
    callbacks: Seq<CallBackKind>,
    offsets: Offsets,
    originals: u32,
    fresh: int,
    n: nat,
)
    requires
        n <= blocks.len(),
        spec_d_blocks(blocks, unknown, callbacks, offsets, originals, fresh, n) is Ok,
    ensures
        spec_d_blocks(blocks, unknown, callbacks, offsets, originals, fresh, n).unwrap().made.len()
            == n,
        forall|b: int|
            0 <= b < n ==> {
                let made = #[trigger] spec_d_blocks(
                    blocks,
                    unknown,
                    callbacks,
                    offsets,
                    originals,
                    fresh,
                    n,
                ).unwrap().made[b];
                &&& made.terminator == blocks[b].terminator
                &&& spec_d_phis(blocks[b].phis, offsets, originals, blocks[b].phis.len()) is Some
                &&& made.phis == blocks[b].phis + spec_d_phis(
                    blocks[b].phis,
                    offsets,
                    originals,
                    blocks[b].phis.len(),
                ).unwrap()
            },
    decreases n,
{
    if n > 0 {
        lemma_d_blocks_of(blocks, unknown, callbacks, offsets, originals, fresh, (n - 1) as nat);
        let before = spec_d_blocks(
            blocks,
            unknown,
            callbacks,
            offsets,
            originals,
            fresh,
            (n - 1) as nat,
        ).unwrap();
        let all = spec_d_blocks(blocks, unknown, callbacks, offsets, originals, fresh, n).unwrap();
        assert forall|b: int| 0 <= b < n implies {
            let made = #[trigger] all.made[b];
            &&& made.terminator == blocks[b].terminator
            &&& spec_d_phis(blocks[b].phis, offsets, originals, blocks[b].phis.len()) is Some
            &&& made.phis == blocks[b].phis + spec_d_phis(
                blocks[b].phis,
                offsets,
                originals,
                blocks[b].phis.len(),
            ).unwrap()
        } by {
            if b < n - 1 {
                assert(all.made[b] == before.made[b]);
            }
        }
    }
}

/// Differentiating keeps the edges, and with them the predecessors of
/// every block.
proof fn lemma_same_predecessors(cfg: CfgView, made: CfgView, b: int, n: int)
    requires
        made.blocks.len() == cfg.blocks.len(),
        forall|k: int|
            0 <= k < cfg.blocks.len() ==> (#[trigger] made.blocks[k]).terminator
                == cfg.blocks[k].terminator,
    ensures
        cfg.predecessors_below(b, n) == made.predecessors_below(b, n),
    decreases n,
{
    if n > 0 {
        lemma_same_predecessors(cfg, made, b, n - 1);
        if 0 <= n - 1 < cfg.blocks.len() {
            assert(made.blocks[n - 1].terminator == cfg.blocks[n - 1].terminator);
        }
    }
}

/// Differentiating keeps the phis well-formed: the phi of a derivative has
/// one source for each predecessor of its block, as the phi that it is
/// made for has.
pub proof fn lemma_differentiate_keeps_phis_well_formed(
    cfg: CfgView,
    unknown: u32,
    callbacks: Seq<CallBackKind>,
    originals: u32,
)
    requires
        cfg.phis_well_formed(),
        spec_differentiate(cfg, unknown, callbacks, originals) is Ok,
    ensures
        spec_differentiate(cfg, unknown, callbacks, originals).unwrap().phis_well_formed(),
{
    let made = spec_differentiate(cfg, unknown, callbacks, originals).unwrap();
    let offsets = Offsets { local: cfg.next_local, place: cfg.next_place };
    lemma_d_blocks_of(
        cfg.blocks,
        unknown,
        callbacks,
        offsets,
        originals,
        2 * cfg.next_local,
        cfg.blocks.len(),
    );
    assert forall|b: int, k: int|
        0 <= b < made.blocks.len() && 0 <= k < made.blocks[b].phis.len() implies (
    #[trigger] made.blocks[b].phis[k]).source_blocks() == made.predecessors(b) by {
        lemma_same_predecessors(cfg, made, b, cfg.blocks.len() as int);
        let own = cfg.blocks[b].phis;
        let more = spec_d_phis(own, offsets, originals, own.len()).unwrap();
        assert(made.blocks[b].phis == own + more);
        if k < own.len() {
            assert(made.blocks[b].phis[k] == cfg.blocks[b].phis[k]);
        } else {
            lemma_d_phis_of(own, offsets, originals, own.len());
            let j = k - own.len();
            assert(made.blocks[b].phis[k] == more[j]);
            let i = choose|i: int| 0 <= i < own.len() && more[j] == spec_d_phi(own[i], offsets);
            assert(spec_d_phi(own[i], offsets).source_blocks() =~= own[i].source_blocks());
            assert(cfg.blocks[b].phis[i].source_blocks() == cfg.predecessors(b));
        }
    }
}

} // verus!
