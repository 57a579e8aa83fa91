//! Runs of a control-flow graph on constants, and the condition under
//! which the values found by the constant propagation allow every run.

use vstd::prelude::*;
use crate::collections::known_param_values;
use crate::data_flow::Results;
use crate::eval::{
    spec_answer, spec_answers_extend, spec_fold, spec_well_typed, Answers, Asked, Environment,
    EvalCtx, EvalView, RealArith,
};
use crate::graph::{
    BasicBlockData, BasicBlockView, CfgView, Const, ControlFlowGraph, InstrDst, InstructionView,
    Op, Operand, Phi, PhiView, Terminator, REAL_ZERO,
};
use crate::lattice::{spec_value_in, FlatSet, SparseFlatSetMap};
use crate::propagation::{
    spec_edges_of, spec_phi_value, spec_places_after, spec_risen, BasicBlockConstants,
    BasicBlockConstantsView, ConditionalConstPropagation,
};
use crate::ssa_constants::SsaConstants;

verus! {

/// The lattice values before step `pos` of a block that is entered with
/// the values `entry`. The steps of a block are its phis, then its
/// instructions; after the last of them its terminator is next. The
/// values of the temporaries are those of `entry` throughout, and the
/// places change as the instructions write them. Real arithmetic is
/// folded by the answers in `asked`.
pub open spec fn spec_at(entry: EvalView, asked: Seq<Asked>, block: BasicBlockView, pos: nat)
    -> EvalView
    decreases pos,
{
    if pos <= block.phis.len() {
        entry
    } else {
        let before = spec_at(entry, asked, block, (pos - 1) as nat);
        let instr = block.instructions[pos - 1 - block.phis.len()];
        EvalView {
            places: spec_places_after(
                before.places,
                instr.dst,
                before.eval(asked, instr.op, instr.args, instr.src),
            ),
            ..before
        }
    }
}

/// The number of steps of a block before its terminator.
pub open spec fn spec_steps(block: BasicBlockView) -> nat {
    block.phis.len() + block.instructions.len()
}

/// Evaluating the phi raises no temporary.
pub open spec fn spec_phi_settled(ssa: Seq<FlatSet>, phi: PhiView) -> bool {
    spec_phi_value(ssa, phi.sources, phi.sources.len()).le(spec_value_in(ssa, phi.dst))
}

/// Evaluating the instruction on the values `at` raises no temporary.
pub open spec fn spec_instr_settled(at: EvalView, asked: Seq<Asked>, instr: InstructionView)
    -> bool {
    match instr.dst {
        InstrDst::Local(local) => at.eval(asked, instr.op, instr.args, instr.src).le(
            spec_value_in(at.ssa, local),
        ),
        _ => true,
    }
}

/// Passing the places `out` on to the block `target` changes nothing
/// there: the block is reachable, and each of its places is at or above
/// the same place of `out`.
pub open spec fn spec_edge_settled(
    out: Seq<FlatSet>,
    entries: Seq<BasicBlockConstantsView>,
    target: u32,
) -> bool {
    &&& target < entries.len()
    &&& entries[target as int].reachable
    &&& spec_risen(out, entries[target as int].constants)
}

/// Passing the values `out` along the edges that are followed from a
/// reachable block with the terminator `term` changes nothing.
pub open spec fn spec_edges_settled(
    out: EvalView,
    entries: Seq<BasicBlockConstantsView>,
    term: Terminator,
) -> bool {
    match term {
        Terminator::Goto { target } => spec_edge_settled(out.places, entries, target),
        Terminator::Split { condition, then_block, else_block, .. } => {
            let edges = spec_edges_of(true, out.get_operand(condition));
            &&& edges.then_edge ==> spec_edge_settled(out.places, entries, then_block)
            &&& edges.else_edge ==> spec_edge_settled(out.places, entries, else_block)
        },
        Terminator::Return => true,
    }
}

/// Evaluating the block once more, from the values `entry`, changes
/// nothing: not the temporaries, and not the state on entry to a block that
/// an edge is followed to.
pub open spec fn spec_block_settled(
    entry: EvalView,
    asked: Seq<Asked>,
    entries: Seq<BasicBlockConstantsView>,
    block: BasicBlockView,
) -> bool {
    &&& forall|j: int|
        0 <= j < block.phis.len() ==> spec_phi_settled(entry.ssa, #[trigger] block.phis[j])
    &&& forall|k: int|
        0 <= k < block.instructions.len() ==> spec_instr_settled(
            spec_at(entry, asked, block, block.phis.len() + k as nat),
            asked,
            #[trigger] block.instructions[k],
        )
    &&& spec_edges_settled(spec_at(entry, asked, block, spec_steps(block)), entries, block.terminator)
}

/// The values on entry to block `b`.
pub open spec fn spec_entry(
    known: Map<u32, Const>,
    ssa: Seq<FlatSet>,
    entries: Seq<BasicBlockConstantsView>,
    b: int,
) -> EvalView {
    EvalView { places: entries[b].constants, ssa: ssa, known: known }
}

/// The values of the temporaries `ssa` and the states `entries` on entry
/// to the blocks are a fixed point of the constant propagation: evaluating
/// any reachable block once more changes nothing.
pub open spec fn spec_settled(
    cfg: CfgView,
    known: Map<u32, Const>,
    asked: Seq<Asked>,
    ssa: Seq<FlatSet>,
    entries: Seq<BasicBlockConstantsView>,
) -> bool {
    &&& entries.len() == cfg.blocks.len()
    &&& forall|b: int|
        0 <= b < cfg.blocks.len() && (#[trigger] entries[b]).reachable ==> spec_block_settled(
            spec_entry(known, ssa, entries, b),
            asked,
            entries,
            cfg.blocks[b],
        )
}

/// A point of a run: the run is before step `pos` of `block`, which it
/// entered from `from`, and holds `env`.
pub struct RunPoint {
    pub block: u32,
    pub pos: nat,
    pub from: Option<u32>,
    pub env: Environment,
}

/// The run reads `c` from the operand. What a call-back returns is not
/// part of the run: it may be any constant.
pub open spec fn spec_reads(env: Environment, operand: Operand, c: Const) -> bool {
    operand is CallBack || env.value(operand) == Some(c)
}

/// The instruction may give `v` on the operands `a` and `b`. In generated
/// code a product with a factor zero is zero. Where an operator is
/// folded, it gives what it is folded to: real arithmetic what `asked`
/// answers. Anything else may give any constant.
pub open spec fn spec_computes(
    asked: Seq<Asked>,
    instr: InstructionView,
    a: Const,
    b: Const,
    v: Const,
) -> bool {
    if instr.src < 0 && instr.op == Op::RealMul && (a.spec_is_real_zero() || b.spec_is_real_zero()) {
        v == Const::Real(REAL_ZERO)
    } else if !instr.op.needs_real_arith() {
        match spec_fold(instr.op, a, b) {
            Some(r) => v == r,
            None => true,
        }
    } else {
        spec_well_typed(instr.op, a, b) ==> match spec_answer(asked, instr.op, a, b) {
            Some(Some(r)) => v == r,
            _ => true,
        }
    }
}

/// What the run holds after `v` was written to `dst`.
pub open spec fn spec_written(env: Environment, dst: InstrDst, v: Const) -> Environment {
    match dst {
        InstrDst::Local(local) => Environment { locals: env.locals.insert(local, v), ..env },
        InstrDst::Place(place) => Environment { places: env.places.insert(place, v), ..env },
        InstrDst::Ignore => env,
    }
}

/// The instruction takes the run from `env` to `after` by reading `a` and
/// `b` and writing `v`. An instruction with the wrong number of operands
/// may write anything.
pub open spec fn spec_instr_run(
    asked: Seq<Asked>,
    instr: InstructionView,
    env: Environment,
    a: Const,
    b: Const,
    v: Const,
    after: Environment,
) -> bool {
    &&& after == spec_written(env, instr.dst, v)
    &&& instr.args.len() == instr.op.arity() ==> {
        &&& spec_reads(env, instr.args[0], a)
        &&& spec_reads(env, instr.args[instr.args.len() - 1], b)
        &&& spec_computes(asked, instr, a, b, v)
    }
}

/// The phi takes the run from `env` to `after` by its source `j`: the
/// source belongs to the block that the run came from, and what the run
/// holds for it is written to the destination.
pub open spec fn spec_phi_run(
    phi: PhiView,
    from: Option<u32>,
    env: Environment,
    j: int,
    after: Environment,
) -> bool {
    &&& 0 <= j < phi.sources.len()
    &&& from == Some(phi.sources[j].0)
    &&& env.locals.dom().contains(phi.sources[j].1)
    &&& after == Environment {
        locals: env.locals.insert(phi.dst, env.locals[phi.sources[j].1]),
        ..env
    }
}

/// The terminator may pass a run that holds `env` on to `target`. A
/// `Split` passes it to the block that its condition selects.
pub open spec fn spec_leaves_to(term: Terminator, env: Environment, target: u32) -> bool {
    match term {
        Terminator::Goto { target: next } => target == next,
        Terminator::Split { condition, then_block, else_block, .. } => exists|c: Const|
            #[trigger] spec_reads(env, condition, c) && target == if c.as_bool() {
                then_block
            } else {
                else_block
            },
        Terminator::Return => false,
    }
}

/// One step of a run takes it from `p` to `q`.
pub open spec fn spec_step(cfg: CfgView, asked: Seq<Asked>, p: RunPoint, q: RunPoint) -> bool {
    let block = cfg.blocks[p.block as int];
    if p.pos < block.phis.len() {
        &&& q.block == p.block
        &&& q.pos == p.pos + 1
        &&& q.from == p.from
        &&& exists|j: int| #[trigger]
            spec_phi_run(block.phis[p.pos as int], p.from, p.env, j, q.env)
    } else if p.pos < spec_steps(block) {
        let instr = block.instructions[p.pos - block.phis.len()];
        &&& q.block == p.block
        &&& q.pos == p.pos + 1
        &&& q.from == p.from
        &&& exists|a: Const, b: Const, v: Const|
            #[trigger] spec_instr_run(asked, instr, p.env, a, b, v, q.env)
    } else {
        &&& q.pos == 0
        &&& q.from == Some(p.block)
        &&& q.env == p.env
        &&& spec_leaves_to(block.terminator, p.env, q.block)
    }
}

/// `run` is a run of the graph: it starts at the entry of the first
/// block, and each of its points follows from the one before by one step.
pub open spec fn spec_is_run(cfg: CfgView, asked: Seq<Asked>, run: Seq<RunPoint>) -> bool {
    &&& run.len() > 0
    &&& run[0].block == 0
    &&& run[0].pos == 0
    &&& forall|i: int| 0 <= i < run.len() - 1 ==> spec_step(cfg, asked, #[trigger] run[i], run[i + 1])
}

/// The point is in a reachable block, and the lattice values at the point
/// allow what the run holds there: where the value of a local or a place
/// is a constant, the run holds that constant for it.
pub open spec fn spec_allowed_at(
    cfg: CfgView,
    known: Map<u32, Const>,
    asked: Seq<Asked>,
    ssa: Seq<FlatSet>,
    entries: Seq<BasicBlockConstantsView>,
    p: RunPoint,
) -> bool {
    &&& p.block < cfg.blocks.len()
    &&& entries[p.block as int].reachable
    &&& p.pos <= spec_steps(cfg.blocks[p.block as int])
    &&& spec_at(
        spec_entry(known, ssa, entries, p.block as int),
        asked,
        cfg.blocks[p.block as int],
        p.pos,
    ).allows(p.env)
}

/// Inside a block the values of the temporaries and the parameters stay
/// as they were on entry.
pub proof fn lemma_at_keeps(entry: EvalView, asked: Seq<Asked>, block: BasicBlockView, pos: nat)
    ensures
        spec_at(entry, asked, block, pos).ssa == entry.ssa,
        spec_at(entry, asked, block, pos).known == entry.known,
        spec_at(entry, asked, block, pos).places.len() == entry.places.len(),
    decreases pos,
{
    if pos > block.phis.len() {
        lemma_at_keeps(entry, asked, block, (pos - 1) as nat);
    }
}

/// The value of a phi is at or above the value of each of its sources.
pub proof fn lemma_phi_value_bounds(ssa: Seq<FlatSet>, sources: Seq<(u32, u32)>, n: nat, j: int)
    requires
        0 <= j < n <= sources.len(),
    ensures
        spec_value_in(ssa, sources[j].1).le(spec_phi_value(ssa, sources, n)),
    decreases n,
{
    if j < n - 1 {
        lemma_phi_value_bounds(ssa, sources, (n - 1) as nat, j);
    }
}

/// Where the lattice values allow what the run holds, the value that an
/// instruction is evaluated to allows what the instruction gives in the
/// run.
pub proof fn lemma_eval_sound(
    at: EvalView,
    asked: Seq<Asked>,
    instr: InstructionView,
    env: Environment,
    a: Const,
    b: Const,
    v: Const,
)
    requires
        at.allows(env),
        instr.args.len() == instr.op.arity(),
        spec_reads(env, instr.args[0], a),
        spec_reads(env, instr.args[instr.args.len() - 1], b),
        spec_computes(asked, instr, a, b, v),
    ensures
        at.eval(asked, instr.op, instr.args, instr.src).describes(v),
{
    let lhs = at.lhs(instr.args);
    let rhs = at.rhs(instr.args);
    if !(instr.args[0] is CallBack) {
        at.lemma_get_operand_sound(env, instr.args[0], a);
    }
    if !(instr.args[instr.args.len() - 1] is CallBack) {
        at.lemma_get_operand_sound(env, instr.args[instr.args.len() - 1], b);
    }
    assert(lhs.describes(a));
    assert(rhs.describes(b));
}

/// Where the lattice values allow what the run holds before a write, the
/// values after the write allow what it holds after it.
pub proof fn lemma_write_sound(
    at: EvalView,
    env: Environment,
    dst: InstrDst,
    value: FlatSet,
    v: Const,
)
    requires
        at.allows(env),
        value.describes(v),
        dst matches InstrDst::Local(local) ==> value.le(spec_value_in(at.ssa, local)),
    ensures
        (EvalView { places: spec_places_after(at.places, dst, value), ..at }).allows(
            spec_written(env, dst, v),
        ),
{
}

/// A step of a run from a point at which the lattice values of a fixed
/// point allow what the run holds leads to such a point.
pub proof fn lemma_step_keeps_allowed(
    cfg: CfgView,
    known: Map<u32, Const>,
    asked: Seq<Asked>,
    ssa: Seq<FlatSet>,
    entries: Seq<BasicBlockConstantsView>,
    p: RunPoint,
    q: RunPoint,
)
    requires
        spec_settled(cfg, known, asked, ssa, entries),
        spec_allowed_at(cfg, known, asked, ssa, entries, p),
        spec_step(cfg, asked, p, q),
    ensures
        spec_allowed_at(cfg, known, asked, ssa, entries, q),
{
    let block = cfg.blocks[p.block as int];
    let entry = spec_entry(known, ssa, entries, p.block as int);
    let at = spec_at(entry, asked, block, p.pos);
    lemma_at_keeps(entry, asked, block, p.pos);
    assert(entries[p.block as int].reachable);
    assert(spec_block_settled(entry, asked, entries, block));
    if p.pos < block.phis.len() {
        let phi = block.phis[p.pos as int];
        let j = choose|j: int| spec_phi_run(phi, p.from, p.env, j, q.env);
        assert(spec_phi_settled(ssa, phi));
        lemma_phi_value_bounds(ssa, phi.sources, phi.sources.len(), j);
        assert(at == entry);
        assert(spec_at(entry, asked, block, q.pos) == entry);
        let v = p.env.locals[phi.sources[j].1];
        assert(spec_value_in(ssa, phi.sources[j].1).describes(v));
        assert(spec_value_in(ssa, phi.dst).describes(v));
    } else if p.pos < spec_steps(block) {
        let k = p.pos - block.phis.len();
        let instr = block.instructions[k];
        let (a, b, v) = choose|a: Const, b: Const, v: Const|
            spec_instr_run(asked, instr, p.env, a, b, v, q.env);
        assert(spec_instr_run(asked, instr, p.env, a, b, v, q.env));
        let value = at.eval(asked, instr.op, instr.args, instr.src);
        if instr.args.len() == instr.op.arity() {
            lemma_eval_sound(at, asked, instr, p.env, a, b, v);
        }
        assert(value.describes(v));
        assert(p.pos == block.phis.len() + k as nat);
        assert(spec_instr_settled(at, asked, instr));
        lemma_write_sound(at, p.env, instr.dst, value, v);
        assert(spec_at(entry, asked, block, q.pos) == (EvalView {
            places: spec_places_after(at.places, instr.dst, value),
            ..at
        }));
    } else {
        assert(p.pos == spec_steps(block));
        assert(spec_edges_settled(at, entries, block.terminator));
        let target = q.block;
        assert(spec_edge_settled(at.places, entries, target)) by {
            match block.terminator {
                Terminator::Goto { target: next } => {},
                Terminator::Split { condition, then_block, else_block, .. } => {
                    let c = choose|c: Const|
                        #[trigger] spec_reads(p.env, condition, c) && target == if c.as_bool() {
                            then_block
                        } else {
                            else_block
                        };
                    if !(condition is CallBack) {
                        at.lemma_get_operand_sound(p.env, condition, c);
                    }
                },
                Terminator::Return => {},
            }
        }
        let next = spec_entry(known, ssa, entries, target as int);
        assert(spec_at(next, asked, cfg.blocks[target as int], 0) == next);
        assert(next.allows(p.env)) by {
            assert forall|place: u32| #[trigger]
                p.env.places.dom().contains(place) implies spec_value_in(
                next.places,
                place,
            ).describes(p.env.places[place]) by {
                assert(spec_value_in(at.places, place).describes(p.env.places[place]));
                if (place as int) < at.places.len() {
                    assert(at.places[place as int].le(next.places[place as int]));
                }
            }
        }
    }
}

/// Soundness of the constant propagation. At a fixed point, the lattice
/// values allow every run: where a run that started from what the values
/// on entry to the first block allow reaches a point, the value that the
/// fixed point gives a local or a place there allows the constant that the
/// run holds for it. So where that value is a constant, the run holds that
/// constant.
pub proof fn lemma_settled_allows_every_run(
    cfg: CfgView,
    known: Map<u32, Const>,
    asked: Seq<Asked>,
    ssa: Seq<FlatSet>,
    entries: Seq<BasicBlockConstantsView>,
    run: Seq<RunPoint>,
    i: int,
)
    requires
        cfg.blocks.len() > 0,
        spec_settled(cfg, known, asked, ssa, entries),
        entries[0].reachable,
        spec_is_run(cfg, asked, run),
        spec_entry(known, ssa, entries, 0).allows(run[0].env),
        0 <= i < run.len(),
    ensures
        spec_allowed_at(cfg, known, asked, ssa, entries, run[i]),
    decreases i,
{
    if i > 0 {
        lemma_settled_allows_every_run(cfg, known, asked, ssa, entries, run, i - 1);
        assert(spec_step(cfg, asked, run[i - 1], run[i - 1 + 1]));
        lemma_step_keeps_allowed(cfg, known, asked, ssa, entries, run[i - 1], run[i]);
    }
}

/// Every question that evaluating the first `n` instructions of the
/// block puts is among `asked`.
pub open spec fn spec_block_answered(
    entry: EvalView,
    asked: Seq<Asked>,
    block: BasicBlockView,
    n: nat,
) -> bool {
    forall|k: int|
        0 <= k < n ==> spec_at(entry, asked, block, block.phis.len() + k as nat).answered(
            asked,
            (#[trigger] block.instructions[k]).op,
            block.instructions[k].args,
            block.instructions[k].src,
        )
}

/// What holds of the answers in `first` and in those that extend them
/// holds of the answers that extend these.
pub proof fn lemma_extend_transitive(first: Seq<Asked>, second: Seq<Asked>, third: Seq<Asked>)
    requires
        spec_answers_extend(first, second),
        spec_answers_extend(second, third),
    ensures
        spec_answers_extend(first, third),
{
    assert forall|op: Op, lhs: Const, rhs: Const| #[trigger]
        spec_answer(first, op, lhs, rhs) is Some implies spec_answer(third, op, lhs, rhs)
        == spec_answer(first, op, lhs, rhs) by {
        assert(spec_answer(second, op, lhs, rhs) is Some);
    }
}

/// With more answers, the first `n` instructions of a block whose
/// questions were answered are evaluated to the same.
pub proof fn lemma_block_stable(
    entry: EvalView,
    before: Seq<Asked>,
    after: Seq<Asked>,
    block: BasicBlockView,
    n: nat,
)
    requires
        spec_answers_extend(before, after),
        n <= block.instructions.len(),
        spec_block_answered(entry, before, block, n),
    ensures
        spec_block_answered(entry, after, block, n),
        forall|pos: nat|
            pos <= block.phis.len() + n ==> #[trigger] spec_at(entry, after, block, pos) == spec_at(
                entry,
                before,
                block,
                pos,
            ),
        forall|k: int|
            0 <= k < n ==> spec_instr_settled(
                spec_at(entry, after, block, block.phis.len() + k as nat),
                after,
                #[trigger] block.instructions[k],
            ) == spec_instr_settled(
                spec_at(entry, before, block, block.phis.len() + k as nat),
                before,
                block.instructions[k],
            ),
    decreases n,
{
    if n > 0 {
        lemma_block_stable(entry, before, after, block, (n - 1) as nat);
        let last = (block.phis.len() + n - 1) as nat;
        let instr = block.instructions[n - 1];
        let at = spec_at(entry, before, block, last);
        assert(spec_at(entry, after, block, last) == at);
        assert(at.answered(before, instr.op, instr.args, instr.src));
        at.lemma_eval_stable(before, after, instr.op, instr.args, instr.src);
        assert(spec_at(entry, after, block, last + 1) == spec_at(entry, before, block, last + 1));
        assert forall|pos: nat| pos <= block.phis.len() + n implies #[trigger] spec_at(
            entry,
            after,
            block,
            pos,
        ) == spec_at(entry, before, block, pos) by {
            if pos == last + 1 {
            }
        }
    }
}

/// With more answers, a block whose questions were answered is as
/// settled as it was.
pub proof fn lemma_block_settled_stable(
    entry: EvalView,
    before: Seq<Asked>,
    after: Seq<Asked>,
    entries: Seq<BasicBlockConstantsView>,
    block: BasicBlockView,
)
    requires
        spec_answers_extend(before, after),
        spec_block_answered(entry, before, block, block.instructions.len()),
    ensures
        spec_block_answered(entry, after, block, block.instructions.len()),
        spec_block_settled(entry, after, entries, block) == spec_block_settled(
            entry,
            before,
            entries,
            block,
        ),
{
    lemma_block_stable(entry, before, after, block, block.instructions.len());
    assert(spec_at(entry, after, block, spec_steps(block)) == spec_at(
        entry,
        before,
        block,
        spec_steps(block),
    ));
}

fn phi_settled(ssa: &SsaConstants, phi: &Phi) -> (res: bool)
    ensures
        res == spec_phi_settled(ssa@, phi@),
{
    let mut value = FlatSet::Bottom;
    let mut i: usize = 0;
    while i < phi.sources.len()
        invariant
            i <= phi.sources@.len(),
            value == spec_phi_value(ssa@, phi.sources@, i as nat),
        decreases phi.sources@.len() - i,
    {
        ssa.join_into(phi.sources[i].1, &mut value);
        i += 1;
    }
    value.is_le(ssa.get(phi.dst))
}

fn edge_settled(out: &SparseFlatSetMap, results: &Results, target: u32) -> (res: bool)
    ensures
        res == spec_edge_settled(out@, results@, target),
{
    if (target as usize) < results.entry_sets.len() {
        let entry = &results.entry_sets[target as usize];
        entry.reachable && out.is_below(&entry.constants)
    } else {
        false
    }
}

fn edges_settled(out: &EvalCtx, results: &Results, term: &Terminator) -> (res: bool)
    ensures
        res == spec_edges_settled(out@, results@, *term),
{
    match *term {
        Terminator::Goto { target } => edge_settled(out.const_places, results, target),
        Terminator::Split { condition, then_block, else_block, .. } => {
            let (then_edge, else_edge) = match out.get_operand(&condition) {
                FlatSet::Elem(val) => (val.as_bool(), !val.as_bool()),
                _ => (true, true),
            };
            (!then_edge || edge_settled(out.const_places, results, then_block)) && (!else_edge
                || edge_settled(out.const_places, results, else_block))
        },
        Terminator::Return => true,
    }
}

/// Evaluates the block once more from its state on entry and says
/// whether that changes nothing.
fn block_settled<A: RealArith>(
    analysis: &ConditionalConstPropagation<A>,
    results: &Results,
    block: &BasicBlockData,
    state: &BasicBlockConstants,
    answers: &mut Answers,
) -> (res: bool)
    ensures
        spec_answers_extend(old(answers)@, final(answers)@),
        res == spec_block_settled(analysis.ctx(state), final(answers)@, results@, block@),
        res ==> spec_block_answered(
            analysis.ctx(state),
            final(answers)@,
            block@,
            block@.instructions.len(),
        ),
{
    let ghost entry = analysis.ctx(state);
    assert(spec_answers_extend(answers@, answers@));
    let mut j: usize = 0;
    while j < block.phis.len()
        invariant
            j <= block.phis@.len(),
            forall|i: int| 0 <= i < j ==> spec_phi_settled(entry.ssa, #[trigger] block@.phis[i]),
            entry.ssa == analysis.ssa_consts@,
        decreases block.phis@.len() - j,
    {
        if !phi_settled(&analysis.ssa_consts, &block.phis[j]) {
            assert(!spec_phi_settled(entry.ssa, block@.phis[j as int]));
            return false;
        }
        j += 1;
    }
    let mut places = state.constants.clone_map();
    let mut k: usize = 0;
    while k < block.instructions.len()
        invariant
            k <= block.instructions@.len(),
            entry == analysis.ctx(state),
            forall|i: int| 0 <= i < block@.phis.len() ==> spec_phi_settled(entry.ssa, #[trigger] block@.phis[i]),
            spec_answers_extend(old(answers)@, answers@),
            spec_block_answered(entry, answers@, block@, k as nat),
            spec_at(entry, answers@, block@, block@.phis.len() + k as nat) == (EvalView {
                places: places@,
                ..entry
            }),
            forall|i: int|
                0 <= i < k ==> spec_instr_settled(
                    spec_at(entry, answers@, block@, block@.phis.len() + i as nat),
                    answers@,
                    #[trigger] block@.instructions[i],
                ),
        decreases block.instructions@.len() - k,
    {
        let ghost before = answers@;
        let ghost pos = block@.phis.len() + k as nat;
        let instr = &block.instructions[k];
        let ctx = EvalCtx {
            const_places: &places,
            ssa_consts: &analysis.ssa_consts,
            known_params: analysis.known_params,
        };
        let value = ctx.eval_op_recorded(
            answers,
            analysis.real_arith,
            instr.op,
            &instr.args,
            instr.src,
        );
        proof {
            lemma_extend_transitive(old(answers)@, before, answers@);
            lemma_block_stable(entry, before, answers@, block@, k as nat);
            assert(spec_at(entry, answers@, block@, pos) == ctx@);
            assert(block@.instructions[k as int] == instr@);
            assert(spec_block_answered(entry, answers@, block@, (k + 1) as nat));
        }
        let ok = match instr.dst {
            InstrDst::Local(local) => value.is_le(analysis.ssa_consts.get(local)),
            _ => true,
        };
        if !ok {
            assert(!spec_instr_settled(
                spec_at(entry, answers@, block@, block@.phis.len() + k as nat),
                answers@,
                block@.instructions[k as int],
            ));
            return false;
        }
        if let InstrDst::Place(place) = instr.dst {
            places.set_flat_set(place, value);
        }
        proof {
            assert(spec_at(entry, answers@, block@, pos + 1) == (EvalView {
                places: places@,
                ..entry
            }));
        }
        k += 1;
    }
    let out = EvalCtx {
        const_places: &places,
        ssa_consts: &analysis.ssa_consts,
        known_params: analysis.known_params,
    };
    edges_settled(&out, results, &block.terminator)
}

/// Says whether the values of the temporaries in `analysis` and the
/// states in `results` are a fixed point of the constant propagation on
/// `cfg`: whether evaluating any reachable block once more changes
/// nothing. Real arithmetic is folded by the answers in `answers`, to
/// which the questions that come up are added.
pub fn settled<A: RealArith>(
    cfg: &ControlFlowGraph,
    analysis: &ConditionalConstPropagation<A>,
    results: &Results,
    answers: &mut Answers,
) -> (res: bool)
    ensures
        spec_answers_extend(old(answers)@, final(answers)@),
        res == spec_settled(
            cfg@,
            known_param_values(*analysis.known_params),
            final(answers)@,
            analysis.ssa_consts@,
            results@,
        ),
{
    let ghost known = known_param_values(*analysis.known_params);
    let ghost ssa = analysis.ssa_consts@;
    let n = cfg.blocks.len();
    assert(spec_answers_extend(answers@, answers@));
    if results.entry_sets.len() != n {
        return false;
    }
    let mut b: usize = 0;
    while b < n
        invariant
            b <= n,
            n == cfg.blocks@.len(),
            n == results@.len(),
            known == known_param_values(*analysis.known_params),
            ssa == analysis.ssa_consts@,
            spec_answers_extend(old(answers)@, answers@),
            forall|c: int|
                0 <= c < b && (#[trigger] results@[c]).reachable ==> {
                    &&& spec_block_settled(
                        spec_entry(known, ssa, results@, c),
                        answers@,
                        results@,
                        cfg@.blocks[c],
                    )
                    &&& spec_block_answered(
                        spec_entry(known, ssa, results@, c),
                        answers@,
                        cfg@.blocks[c],
                        cfg@.blocks[c].instructions.len(),
                    )
                },
        decreases n - b,
    {
        let state = &results.entry_sets[b];
        if state.reachable {
            let ghost before = answers@;
            let ok = block_settled(analysis, results, &cfg.blocks[b], state, answers);
            proof {
                lemma_extend_transitive(old(answers)@, before, answers@);
                assert(analysis.ctx(state) == spec_entry(known, ssa, results@, b as int));
                assert forall|c: int| 0 <= c < b && (#[trigger] results@[c]).reachable implies {
                    &&& spec_block_settled(
                        spec_entry(known, ssa, results@, c),
                        answers@,
                        results@,
                        cfg@.blocks[c],
                    )
                    &&& spec_block_answered(
                        spec_entry(known, ssa, results@, c),
                        answers@,
                        cfg@.blocks[c],
                        cfg@.blocks[c].instructions.len(),
                    )
                } by {
                    lemma_block_settled_stable(
                        spec_entry(known, ssa, results@, c),
                        before,
                        answers@,
                        results@,
                        cfg@.blocks[c],
                    );
                }
            }
            if !ok {
                assert(results@[b as int].reachable);
                return false;
            }
        }
        b += 1;
    }
    true
}

} // verus!
