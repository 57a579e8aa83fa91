//! The forward work-list iteration that brings the constant propagation to
//! its fixed point, and the walk that writes the result back, which keeps
//! the runs of the graph.

use vstd::prelude::*;
use crate::collections::known_param_values;
use crate::eval::{
    spec_answers_extend, Answers, Asked, Environment, EvalCtx, EvalView, RealArith,
};
use crate::graph::{
    BasicBlockData, BasicBlockView, CfgView, Const, ControlFlowGraph, InstrDst, InstructionView,
    Operand, PhiView, Terminator,
};
use crate::lattice::{spec_rank_sum, FlatSet};
use crate::propagation::{
    lemma_effect_bounds_transitive, lemma_join_rises, lemma_written_back_reads_less,
    spec_after_instr, spec_after_phi, spec_effect_bounds, spec_known_result,
    spec_places_after, spec_risen, spec_substitute, spec_written_back, BasicBlockConstants,
    BasicBlockConstantsView, ConditionalConstPropagation, Point, WriteBackConsts,
};
use crate::runs::{
    lemma_block_stable, lemma_extend_transitive, lemma_settled_allows_every_run, spec_at,
    spec_block_answered, spec_entry, spec_instr_run, spec_is_run, spec_leaves_to, spec_reads,
    spec_settled, spec_step, spec_steps, RunPoint,
};

verus! {

/// The state on entry to each block, as the iteration left it.
#[derive(Debug)]
pub struct Results {
    pub entry_sets: Vec<BasicBlockConstants>,
}

impl View for Results {
    type V = Seq<BasicBlockConstantsView>;

    open spec fn view(&self) -> Seq<BasicBlockConstantsView> {
        Seq::new(self.entry_sets@.len(), |b: int| self.entry_sets@[b]@)
    }
}

/// The sum of the ranks of the states.
pub open spec fn spec_entries_rank(entries: Seq<BasicBlockConstants>) -> nat
    decreases entries.len(),
{
    if entries.len() == 0 {
        0
    } else {
        spec_entries_rank(entries.drop_last()) + entries.last()@.rank()
    }
}

/// Replacing one state by a state of no more rank gives no more rank in
/// all, and less where the state has less.
pub proof fn lemma_entries_rank_update(
    entries: Seq<BasicBlockConstants>,
    i: int,
    state: BasicBlockConstants,
)
    requires
        0 <= i < entries.len(),
    ensures
        spec_entries_rank(entries.update(i, state)) == spec_entries_rank(entries)
            - entries[i]@.rank() + state@.rank(),
    decreases entries.len(),
{
    let after = entries.update(i, state);
    if i == entries.len() - 1 {
        assert(after.drop_last() =~= entries.drop_last());
    } else {
        lemma_entries_rank_update(entries.drop_last(), i, state);
        assert(after.drop_last() =~= entries.drop_last().update(i, state));
    }
}

/// The number of blocks that wait in the work list.
pub open spec fn spec_dirty_count(dirty: Seq<bool>) -> nat
    decreases dirty.len(),
{
    if dirty.len() == 0 {
        0
    } else {
        spec_dirty_count(dirty.drop_last()) + if dirty.last() {
            1nat
        } else {
            0nat
        }
    }
}

/// Changing one flag changes the count by that flag.
pub proof fn lemma_dirty_count_update(dirty: Seq<bool>, i: int, flag: bool)
    requires
        0 <= i < dirty.len(),
    ensures
        spec_dirty_count(dirty.update(i, flag)) == spec_dirty_count(dirty) - (if dirty[i] {
            1int
        } else {
            0int
        }) + (if flag {
            1int
        } else {
            0int
        }),
    decreases dirty.len(),
{
    let after = dirty.update(i, flag);
    if i == dirty.len() - 1 {
        assert(after.drop_last() =~= dirty.drop_last());
    } else {
        lemma_dirty_count_update(dirty.drop_last(), i, flag);
        assert(after.drop_last() =~= dirty.drop_last().update(i, flag));
    }
}

/// The block that is next in the work list: of the blocks that wait, the
/// one that comes first in `order`, and if none of those waits, the one
/// with the lowest number.
fn first_dirty(dirty: &Vec<bool>, order: &Vec<u32>) -> (res: Option<usize>)
    ensures
        match res {
            Some(b) => b < dirty@.len() && dirty@[b as int],
            None => forall|c: int| 0 <= c < dirty@.len() ==> !dirty@[c],
        },
{
    let mut i: usize = 0;
    while i < order.len()
        invariant
            i <= order@.len(),
        decreases order@.len() - i,
    {
        let b = order[i] as usize;
        if b < dirty.len() && dirty[b] {
            return Some(b);
        }
        i += 1;
    }
    let mut b: usize = 0;
    while b < dirty.len()
        invariant
            b <= dirty@.len(),
            forall|c: int| 0 <= c < b ==> !dirty@[c],
        decreases dirty@.len() - b,
    {
        if dirty[b] {
            return Some(b);
        }
        b += 1;
    }
    None
}

/// The point after the effects of the first `n` of `phis`, in their
/// order.
pub open spec fn spec_after_phis(point: Point, phis: Seq<PhiView>, n: nat) -> Point
    decreases n,
{
    if n == 0 {
        point
    } else {
        spec_after_phi(spec_after_phis(point, phis, (n - 1) as nat), phis[n - 1])
    }
}

/// The point after the effects of the first `n` of `instrs`, in their
/// order, where `answers` holds for each instruction what the arithmetic
/// on reals answered if it was asked.
pub open spec fn spec_after_instrs(
    known: Map<u32, Const>,
    point: Point,
    instrs: Seq<InstructionView>,
    answers: Seq<Option<Const>>,
    n: nat,
) -> Point
    decreases n,
{
    if n == 0 {
        point
    } else {
        spec_after_instr(
            known,
            spec_after_instrs(known, point, instrs, answers, (n - 1) as nat),
            instrs[n - 1],
            answers[n - 1],
        )
    }
}

/// The point at the end of a block that is entered at `point`: after the
/// effects of its phis and then of its instructions.
pub open spec fn spec_block_effects(
    known: Map<u32, Const>,
    point: Point,
    block: BasicBlockView,
    answers: Seq<Option<Const>>,
) -> Point {
    spec_after_instrs(
        known,
        spec_after_phis(point, block.phis, block.phis.len()),
        block.instructions,
        answers,
        block.instructions.len(),
    )
}

/// The effects of the first `n` instructions read only the first `n`
/// answers.
proof fn lemma_after_instrs_reads(
    known: Map<u32, Const>,
    point: Point,
    instrs: Seq<InstructionView>,
    answers: Seq<Option<Const>>,
    more: Option<Const>,
    n: nat,
)
    requires
        n <= answers.len(),
    ensures
        spec_after_instrs(known, point, instrs, answers.push(more), n) == spec_after_instrs(
            known,
            point,
            instrs,
            answers,
            n,
        ),
    decreases n,
{
    if n > 0 {
        lemma_after_instrs_reads(known, point, instrs, answers, more, (n - 1) as nat);
        assert(answers.push(more)[n - 1] == answers[n - 1]);
    }
}

/// Applies the effects of the phis and of the instructions of the block
/// `bb` to `state`, in their order: each phi gives its destination the
/// least upper bound of its sources, and each instruction gives its
/// destination the value that it is evaluated to at its point, with what
/// the arithmetic on reals answered where it was asked.
fn apply_effects_in_block<A: RealArith>(
    analysis: &mut ConditionalConstPropagation<A>,
    cfg: &ControlFlowGraph,
    bb: usize,
    state: &mut BasicBlockConstants,
)
    requires
        bb < cfg.blocks@.len(),
        bb <= u32::MAX,
    ensures
        final(analysis).same_inputs(old(analysis)),
        spec_effect_bounds(
            old(analysis).ssa_consts@,
            old(state)@,
            final(analysis).ssa_consts@,
            final(state)@,
        ),
        exists|answers: Seq<Option<Const>>|
            answers.len() == cfg@.blocks[bb as int].instructions.len() && #[trigger] spec_block_effects(
                known_param_values(*old(analysis).known_params),
                Point { ssa: old(analysis).ssa_consts@, state: old(state)@ },
                cfg@.blocks[bb as int],
                answers,
            ) == (Point { ssa: final(analysis).ssa_consts@, state: final(state)@ }),
{
    let block = &cfg.blocks[bb];
    let ghost known = known_param_values(*analysis.known_params);
    let ghost start = Point { ssa: analysis.ssa_consts@, state: state@ };
    let ghost view = cfg@.blocks[bb as int];
    let mut i: usize = 0;
    while i < block.phis.len()
        invariant
            i <= block.phis@.len(),
            bb <= u32::MAX,
            view == block@,
            analysis.same_inputs(old(analysis)),
            spec_effect_bounds(old(analysis).ssa_consts@, old(state)@, analysis.ssa_consts@, state@),
            (Point { ssa: analysis.ssa_consts@, state: state@ }) == spec_after_phis(
                start,
                view.phis,
                i as nat,
            ),
        decreases block.phis@.len() - i,
    {
        let ghost ssa = analysis.ssa_consts@;
        let ghost before = state@;
        analysis.apply_phi_effect(cfg, state, &block.phis[i], bb as u32, i);
        proof {
            lemma_effect_bounds_transitive(
                old(analysis).ssa_consts@,
                old(state)@,
                ssa,
                before,
                analysis.ssa_consts@,
                state@,
            );
            assert(view.phis[i as int] == block.phis@[i as int]@);
        }
        i += 1;
    }
    let ghost after_phis = Point { ssa: analysis.ssa_consts@, state: state@ };
    let ghost mut answers: Seq<Option<Const>> = Seq::empty();
    let mut i: usize = 0;
    while i < block.instructions.len()
        invariant
            i <= block.instructions@.len(),
            bb <= u32::MAX,
            view == block@,
            known == known_param_values(*analysis.known_params),
            analysis.same_inputs(old(analysis)),
            spec_effect_bounds(old(analysis).ssa_consts@, old(state)@, analysis.ssa_consts@, state@),
            answers.len() == i,
            (Point { ssa: analysis.ssa_consts@, state: state@ }) == spec_after_instrs(
                known,
                after_phis,
                view.instructions,
                answers,
                i as nat,
            ),
        decreases block.instructions@.len() - i,
    {
        let ghost ssa = analysis.ssa_consts@;
        let ghost before = state@;
        analysis.apply_instr_effect(cfg, state, &block.instructions[i], i, bb as u32);
        proof {
            lemma_effect_bounds_transitive(
                old(analysis).ssa_consts@,
                old(state)@,
                ssa,
                before,
                analysis.ssa_consts@,
                state@,
            );
            let instr = block.instructions@[i as int]@;
            assert(view.instructions[i as int] == instr);
            let now = Point { ssa: analysis.ssa_consts@, state: state@ };
            let answer = choose|answer: Option<Const>|
                now == #[trigger] spec_after_instr(
                    known,
                    Point { ssa, state: before },
                    instr,
                    answer,
                );
            lemma_after_instrs_reads(
                known,
                after_phis,
                view.instructions,
                answers,
                answer,
                i as nat,
            );
            answers = answers.push(answer);
        }
        i += 1;
    }
    proof {
        assert(spec_block_effects(known, start, view, answers) == (Point {
            ssa: analysis.ssa_consts@,
            state: state@,
        }));
    }
}

/// Joins `state` into the entry state of `target` and puts `target` into
/// the work list if that changed its entry state.
fn join_into(
    entry_sets: &mut Vec<BasicBlockConstants>,
    dirty: &mut Vec<bool>,
    target: usize,
    state: &BasicBlockConstants,
) -> (changed: bool)
    requires
        target < old(entry_sets)@.len(),
        old(dirty)@.len() == old(entry_sets)@.len(),
    ensures
        final(entry_sets)@.len() == old(entry_sets)@.len(),
        final(dirty)@.len() == old(dirty)@.len(),
        forall|b: int|
            0 <= b < old(entry_sets)@.len() && b != target ==> final(entry_sets)@[b] == old(
                entry_sets,
            )@[b],
        final(entry_sets)@[target as int]@ == old(entry_sets)@[target as int].spec_join(state),
        changed == (final(entry_sets)@[target as int]@ != old(entry_sets)@[target as int]@),
        spec_joined(old(entry_sets)@, old(dirty)@, final(entry_sets)@, final(dirty)@),
        spec_entries_rank(final(entry_sets)@) <= spec_entries_rank(old(entry_sets)@),
        changed ==> spec_entries_rank(final(entry_sets)@) < spec_entries_rank(old(entry_sets)@)
            || state@.temporaries_changed,
        final(dirty)@ == if changed {
            old(dirty)@.update(target as int, true)
        } else {
            old(dirty)@
        },
{
    let changed = entry_sets[target].join(state);
    proof {
        lemma_entries_rank_update(old(entry_sets)@, target as int, entry_sets@[target as int]);
        assert(entry_sets@ =~= old(entry_sets)@.update(target as int, entry_sets@[target as int]));
    }
    if changed {
        dirty.set(target, true);
    }
    proof {
        lemma_join_rises(old(entry_sets)@[target as int]@, state@);
        assert forall|b: int| 0 <= b < old(entry_sets)@.len() implies (#[trigger] old(
            entry_sets,
        )@[b])@.le(entry_sets@[b]@) by {
            if b != target {
                lemma_state_le_reflexive(old(entry_sets)@[b]@);
            }
        }
    }
    changed
}

/// A block other than the entry is reachable only where an edge leads to
/// it from a reachable block.
pub open spec fn spec_reached_along_edges(cfg: &ControlFlowGraph, entries: Seq<BasicBlockConstants>)
    -> bool {
    forall|t: int|
        0 < t < entries.len() && (#[trigger] entries[t])@.reachable ==> exists|b: int|
            0 <= b < entries.len() && b < cfg.blocks@.len() && (#[trigger] entries[b])@.reachable
                && cfg.blocks@[b].terminator.has_successor(t as u32)
}

/// An edge is followed from the block `b` to a reachable block: the edge
/// of a `Goto`, and one edge of a `Split` at least.
pub open spec fn spec_follows(cfg: &ControlFlowGraph, entries: Seq<BasicBlockConstants>, b: int)
    -> bool {
    match cfg.blocks@[b].terminator {
        Terminator::Goto { target } => target < entries.len() && entries[target as int]@.reachable,
        Terminator::Split { then_block, else_block, .. } => (then_block < entries.len()
            && entries[then_block as int]@.reachable) || (else_block < entries.len()
            && entries[else_block as int]@.reachable),
        Terminator::Return => true,
    }
}

/// From every reachable block that does not wait in the work list, an
/// edge is followed to a reachable block.
pub open spec fn spec_edges_followed(
    cfg: &ControlFlowGraph,
    entries: Seq<BasicBlockConstants>,
    dirty: Seq<bool>,
) -> bool {
    forall|b: int|
        0 <= b < entries.len() && b < cfg.blocks@.len() && b < dirty.len() && (
        #[trigger] entries[b])@.reachable && !dirty[b] ==> spec_follows(cfg, entries, b)
}

/// What joining a state into entry states does to them and to the work
/// list: every entry state rises or stays, a block that becomes reachable
/// waits in the work list, and what waited still waits.
pub open spec fn spec_joined(
    entries: Seq<BasicBlockConstants>,
    dirty: Seq<bool>,
    entries_after: Seq<BasicBlockConstants>,
    dirty_after: Seq<bool>,
) -> bool {
    &&& entries_after.len() == entries.len()
    &&& dirty_after.len() == dirty.len()
    &&& dirty.len() == entries.len()
    &&& forall|b: int|
        0 <= b < entries.len() ==> (#[trigger] entries[b])@.le(entries_after[b]@)
    &&& forall|b: int|
        0 <= b < entries.len() && (#[trigger] entries_after[b])@.reachable && !entries[b]@.reachable
            ==> dirty_after[b]
    &&& forall|b: int| 0 <= b < dirty.len() && #[trigger] dirty[b] ==> dirty_after[b]
}

/// Joins the state at the end of the block `bb` into the entry state of
/// each block that the terminator of `bb` leads to from there.
fn join_into_successors<A: RealArith>(
    analysis: &ConditionalConstPropagation<A>,
    cfg: &ControlFlowGraph,
    bb: usize,
    state: &BasicBlockConstants,
    entry_sets: &mut Vec<BasicBlockConstants>,
    dirty: &mut Vec<bool>,
) -> (pushed: bool)
    requires
        cfg.targets_exist(),
        bb < cfg.blocks@.len(),
        bb <= u32::MAX,
        old(entry_sets)@.len() == cfg.blocks@.len(),
        old(dirty)@.len() == cfg.blocks@.len(),
        state@.reachable,
    ensures
        spec_joined(old(entry_sets)@, old(dirty)@, final(entry_sets)@, final(dirty)@),
        spec_follows(cfg, final(entry_sets)@, bb as int),
        forall|t: int|
            0 <= t < old(entry_sets)@.len() && final(entry_sets)@[t] != old(entry_sets)@[t]
                ==> #[trigger] cfg.blocks@[bb as int].terminator.has_successor(t as u32),
        spec_entries_rank(final(entry_sets)@) <= spec_entries_rank(old(entry_sets)@),
        !pushed ==> final(dirty)@ == old(dirty)@,
        pushed ==> spec_entries_rank(final(entry_sets)@) < spec_entries_rank(old(entry_sets)@)
            || state@.temporaries_changed,
{
    let mut pushed = false;
    proof {
        lemma_joined_nothing(entry_sets@, dirty@);
    }
    match cfg.blocks[bb].terminator {
        Terminator::Goto { target } => {
            assert(cfg.blocks@[bb as int].terminator.has_successor(target));
            if analysis.apply_edge_effects(cfg, bb as u32, state) {
                pushed = join_into(entry_sets, dirty, target as usize, state);
            }
        },
        Terminator::Split { condition, then_block, else_block, .. } => {
            assert(cfg.blocks@[bb as int].terminator.has_successor(then_block));
            assert(cfg.blocks@[bb as int].terminator.has_successor(else_block));
            let edges = analysis.apply_split_edge_effects(cfg, bb as u32, &condition, state);
            if edges.then_edge {
                pushed = join_into(entry_sets, dirty, then_block as usize, state);
            }
            let ghost mid = entry_sets@;
            let ghost mid_dirty = dirty@;
            if edges.else_edge {
                let changed = join_into(entry_sets, dirty, else_block as usize, state);
                proof {
                    lemma_joined_twice(
                        old(entry_sets)@,
                        old(dirty)@,
                        mid,
                        mid_dirty,
                        entry_sets@,
                        dirty@,
                    );
                }
                pushed = pushed || changed;
            }
        },
        Terminator::Return => {},
    }
    pushed
}

/// Joining nothing changes nothing.
proof fn lemma_joined_nothing(entries: Seq<BasicBlockConstants>, dirty: Seq<bool>)
    requires
        dirty.len() == entries.len(),
    ensures
        spec_joined(entries, dirty, entries, dirty),
{
    assert forall|b: int| 0 <= b < entries.len() implies (#[trigger] entries[b])@.le(
        entries[b]@,
    ) by {
        lemma_state_le_reflexive(entries[b]@);
    }
}

/// Joining twice is joining.
proof fn lemma_joined_twice(
    e0: Seq<BasicBlockConstants>,
    d0: Seq<bool>,
    e1: Seq<BasicBlockConstants>,
    d1: Seq<bool>,
    e2: Seq<BasicBlockConstants>,
    d2: Seq<bool>,
)
    requires
        spec_joined(e0, d0, e1, d1),
        spec_joined(e1, d1, e2, d2),
    ensures
        spec_joined(e0, d0, e2, d2),
{
    assert forall|b: int| 0 <= b < e0.len() implies (#[trigger] e0[b])@.le(e2[b]@) by {
        assert(e0[b]@.le(e1[b]@));
        assert(e1[b]@.le(e2[b]@));
        lemma_state_le_transitive(e0[b]@, e1[b]@, e2[b]@);
    }
    assert forall|b: int|
        0 <= b < e0.len() && (#[trigger] e2[b])@.reachable && !e0[b]@.reachable implies d2[b] by {
        if e1[b]@.reachable {
            assert(d1[b]);
        }
    }
}

/// Every state is at or below itself.
proof fn lemma_state_le_reflexive(state: BasicBlockConstantsView)
    ensures
        state.le(state),
{
    assert forall|p: int| 0 <= p < state.constants.len() implies (#[trigger] state.constants[p]).le(
        state.constants[p],
    ) by {}
}

/// The order of the states is transitive.
proof fn lemma_state_le_transitive(
    a: BasicBlockConstantsView,
    b: BasicBlockConstantsView,
    c: BasicBlockConstantsView,
)
    requires
        a.le(b),
        b.le(c),
    ensures
        a.le(c),
{
    assert forall|p: int| 0 <= p < a.constants.len() implies (#[trigger] a.constants[p]).le(
        c.constants[p],
    ) by {
        assert(a.constants[p].le(b.constants[p]));
        assert(b.constants[p].le(c.constants[p]));
    }
}

/// Joining the state at the end of the reachable block `bb` into the
/// entry states of its successors keeps what holds of the iteration.
proof fn lemma_iteration_goes_on(
    cfg: &ControlFlowGraph,
    bb: int,
    entries: Seq<BasicBlockConstants>,
    dirty: Seq<bool>,
    entries_after: Seq<BasicBlockConstants>,
    dirty_after: Seq<bool>,
)
    requires
        0 <= bb < entries.len(),
        entries.len() == cfg.blocks@.len(),
        entries[bb]@.reachable,
        !dirty[bb],
        spec_reached_along_edges(cfg, entries),
        forall|b: int|
            0 <= b < entries.len() && b != bb && (#[trigger] entries[b])@.reachable && !dirty[b]
                ==> spec_follows(cfg, entries, b),
        spec_joined(entries, dirty, entries_after, dirty_after),
        spec_follows(cfg, entries_after, bb),
        forall|t: int|
            0 <= t < entries.len() && entries_after[t] != entries[t]
                ==> #[trigger] cfg.blocks@[bb].terminator.has_successor(t as u32),
    ensures
        spec_reached_along_edges(cfg, entries_after),
        spec_edges_followed(cfg, entries_after, dirty_after),
{
    assert forall|t: int|
        0 < t < entries_after.len() && (#[trigger] entries_after[t])@.reachable implies exists|
        b: int,
    |
        0 <= b < entries_after.len() && b < cfg.blocks@.len() && (
        #[trigger] entries_after[b])@.reachable && cfg.blocks@[b].terminator.has_successor(
            t as u32,
        ) by {
        if entries[t]@.reachable {
            let b = choose|b: int|
                0 <= b < entries.len() && b < cfg.blocks@.len() && (#[trigger] entries[b])@.reachable
                    && cfg.blocks@[b].terminator.has_successor(t as u32);
            assert(entries[b]@.le(entries_after[b]@));
            assert(entries_after[b]@.reachable);
        } else {
            assert(entries_after[t] != entries[t]);
            assert(entries[bb]@.le(entries_after[bb]@));
            assert(entries_after[bb]@.reachable);
        }
    }
    assert forall|b: int|
        0 <= b < entries_after.len() && b < cfg.blocks@.len() && b < dirty_after.len() && (
        #[trigger] entries_after[b])@.reachable && !dirty_after[b] implies spec_follows(
        cfg,
        entries_after,
        b,
    ) by {
        if b != bb {
            assert(entries[b]@.reachable);
            assert(!dirty[b]);
            assert(spec_follows(cfg, entries, b));
            match cfg.blocks@[b].terminator {
                Terminator::Goto { target } => {
                    assert(entries[target as int]@.le(entries_after[target as int]@));
                },
                Terminator::Split { then_block, else_block, .. } => {
                    if then_block < entries.len() && entries[then_block as int]@.reachable {
                        assert(entries[then_block as int]@.le(entries_after[then_block as int]@));
                    } else {
                        assert(entries[else_block as int]@.le(entries_after[else_block as int]@));
                    }
                },
                Terminator::Return => {},
            }
        }
    }
}

/// Runs the analysis over `cfg` until nothing changes any more. Every block
/// starts unreachable with its places at `Bottom`, but for the entry block,
/// which is reachable with nothing known of any place. Then, as long as a
/// block waits in the work list, the one that comes first in reverse
/// postorder is taken out; unless it is unreachable, the effects of its
/// phis and instructions are applied to a copy of its entry state, and the
/// result is joined into the entry state of each block that its
/// terminator leads to from there. A block whose entry state changed by
/// that waits in the work list again.
///
/// What is left when the work list is empty need not be a fixed point: a
/// temporary may have risen after a block that reads it was looked at
/// for the last time. [`settled`](crate::runs::settled) tells whether it
/// is one.
pub fn iterate_to_fixpoint<A: RealArith>(
    analysis: &mut ConditionalConstPropagation<A>,
    cfg: &ControlFlowGraph,
) -> (results: Results)
    requires
        cfg.targets_exist(),
        cfg.blocks@.len() <= u32::MAX,
    ensures
        final(analysis).same_inputs(old(analysis)),
        spec_risen(old(analysis).ssa_consts@, final(analysis).ssa_consts@),
        results.entry_sets@.len() == cfg.blocks@.len(),
        forall|b: int|
            0 <= b < results.entry_sets@.len() ==> (#[trigger] results.entry_sets@[b])@.constants.len()
                == cfg.next_place,
        cfg.blocks@.len() > 0 ==> results.entry_sets@[0]@.reachable && forall|p: int|
            0 <= p < cfg.next_place ==> results.entry_sets@[0]@.constants[p] == FlatSet::Top,
        spec_reached_along_edges(cfg, results.entry_sets@),
        forall|b: int|
            0 <= b < cfg.blocks@.len() && (#[trigger] results.entry_sets@[b])@.reachable
                ==> spec_follows(cfg, results.entry_sets@, b),
{
    let n = cfg.blocks.len();
    let mut entry_sets: Vec<BasicBlockConstants> = Vec::new();
    let mut dirty: Vec<bool> = Vec::new();
    let mut b: usize = 0;
    while b < n
        invariant
            b <= n,
            entry_sets@.len() == b,
            dirty@.len() == b,
            forall|c: int|
                0 <= c < b ==> !(#[trigger] entry_sets@[c])@.reachable && entry_sets@[c]@.constants
                    == Seq::new(cfg.next_place as nat, |i: int| FlatSet::Bottom),
        decreases n - b,
    {
        entry_sets.push(analysis.bottom_value(cfg));
        dirty.push(false);
        b += 1;
    }
    if n == 0 {
        return Results { entry_sets };
    }
    analysis.initialize_start_block(cfg, &mut entry_sets[0]);
    dirty.set(0, true);
    let order = cfg.reverse_postorder();
    loop
        invariant
            n == cfg.blocks@.len(),
            0 < n <= u32::MAX,
            entry_sets@.len() == n,
            dirty@.len() == n,
            cfg.targets_exist(),
            analysis.same_inputs(old(analysis)),
            spec_risen(old(analysis).ssa_consts@, analysis.ssa_consts@),
            forall|b: int|
                0 <= b < n ==> (#[trigger] entry_sets@[b])@.constants.len() == cfg.next_place,
            entry_sets@[0]@.reachable,
            forall|p: int| 0 <= p < cfg.next_place ==> entry_sets@[0]@.constants[p] == FlatSet::Top,
            spec_reached_along_edges(cfg, entry_sets@),
            spec_edges_followed(cfg, entry_sets@, dirty@),
        ensures
            n == cfg.blocks@.len(),
            entry_sets@.len() == n,
            analysis.same_inputs(old(analysis)),
            spec_risen(old(analysis).ssa_consts@, analysis.ssa_consts@),
            forall|b: int|
                0 <= b < n ==> (#[trigger] entry_sets@[b])@.constants.len() == cfg.next_place,
            entry_sets@[0]@.reachable,
            forall|p: int| 0 <= p < cfg.next_place ==> entry_sets@[0]@.constants[p] == FlatSet::Top,
            spec_reached_along_edges(cfg, entry_sets@),
            forall|b: int|
                0 <= b < n && (#[trigger] entry_sets@[b])@.reachable ==> spec_follows(
                    cfg,
                    entry_sets@,
                    b,
                ),
        decreases
                spec_rank_sum(analysis.ssa_consts@) + spec_entries_rank(entry_sets@),
                spec_dirty_count(dirty@),
    {
        let ghost entries0 = entry_sets@;
        let ghost dirty0 = dirty@;
        let ghost ssa0 = analysis.ssa_consts@;
        let bb = match first_dirty(&dirty, &order) {
            Some(bb) => bb,
            None => {
                break ;
            },
        };
        proof {
            lemma_dirty_count_update(dirty@, bb as int, false);
        }
        dirty.set(bb, false);
        let reachable = analysis.init_block(cfg, &mut entry_sets[bb]);
        let ghost entries1 = entry_sets@;
        let ghost dirty1 = dirty@;
        proof {
            lemma_entries_rank_update(entries0, bb as int, entries1[bb as int]);
            assert(entries1 =~= entries0.update(bb as int, entries1[bb as int]));
            lemma_init_block_keeps(cfg, bb as int, entries0, dirty0, entries1, dirty1);
        }
        if !reachable {
            continue ;
        }
        let mut state = entry_sets[bb].clone();
        apply_effects_in_block(analysis, cfg, bb, &mut state);
        proof {
            assert forall|i: int| 0 <= i < old(analysis).ssa_consts@.len() implies (
            #[trigger] old(analysis).ssa_consts@[i]).le(analysis.ssa_consts@[i]) by {
                assert(old(analysis).ssa_consts@[i].le(ssa0[i]));
                assert(ssa0[i].le(analysis.ssa_consts@[i]));
            }
        }
        let pushed = join_into_successors(analysis, cfg, bb, &state, &mut entry_sets, &mut dirty);
        proof {
            lemma_iteration_goes_on(cfg, bb as int, entries1, dirty1, entry_sets@, dirty@);
            assert(entries1[0]@.le(entry_sets@[0]@));
            assert forall|b: int| 0 <= b < n implies (#[trigger] entry_sets@[b])@.constants.len()
                == cfg.next_place by {
                assert(entries1[b]@.le(entry_sets@[b]@));
            }
            assert forall|p: int| 0 <= p < cfg.next_place implies entry_sets@[0]@.constants[p]
                == FlatSet::Top by {
                assert(entries1[0]@.constants[p].le(entry_sets@[0]@.constants[p]));
            }
        }
    }
    Results { entry_sets }
}

/// Preparing the entry state of the block `bb`, which was taken out of the
/// work list, keeps what holds of the iteration for every other block.
proof fn lemma_init_block_keeps(
    cfg: &ControlFlowGraph,
    bb: int,
    entries: Seq<BasicBlockConstants>,
    dirty: Seq<bool>,
    entries_after: Seq<BasicBlockConstants>,
    dirty_after: Seq<bool>,
)
    requires
        0 <= bb < entries.len(),
        entries.len() == cfg.blocks@.len(),
        dirty.len() == entries.len(),
        spec_reached_along_edges(cfg, entries),
        spec_edges_followed(cfg, entries, dirty),
        entries_after == entries.update(bb, entries_after[bb]),
        entries_after[bb]@.reachable == entries[bb]@.reachable,
        entries_after[bb]@.constants == entries[bb]@.constants,
        dirty_after == dirty.update(bb, false),
    ensures
        spec_reached_along_edges(cfg, entries_after),
        forall|b: int|
            0 <= b < entries_after.len() && b != bb && (#[trigger] entries_after[b])@.reachable
                && !dirty_after[b] ==> spec_follows(cfg, entries_after, b),
        !entries_after[bb]@.reachable ==> spec_edges_followed(cfg, entries_after, dirty_after),
        forall|b: int|
            0 <= b < entries.len() ==> (#[trigger] entries_after[b])@.constants
                == entries[b]@.constants && entries_after[b]@.reachable == entries[b]@.reachable,
{
    assert forall|b: int| 0 <= b < entries.len() implies (#[trigger] entries_after[b])@.constants
        == entries[b]@.constants && entries_after[b]@.reachable == entries[b]@.reachable by {
        if b != bb {
            assert(entries_after[b] == entries[b]);
        }
    }
    assert forall|t: int|
        0 < t < entries_after.len() && (#[trigger] entries_after[t])@.reachable implies exists|
        b: int,
    |
        0 <= b < entries_after.len() && b < cfg.blocks@.len() && (
        #[trigger] entries_after[b])@.reachable && cfg.blocks@[b].terminator.has_successor(
            t as u32,
        ) by {
        assert(entries[t]@.reachable);
        let b = choose|b: int|
            0 <= b < entries.len() && b < cfg.blocks@.len() && (#[trigger] entries[b])@.reachable
                && cfg.blocks@[b].terminator.has_successor(t as u32);
        assert(entries_after[b]@.reachable);
    }
    assert forall|b: int|
        0 <= b < entries_after.len() && b != bb && (#[trigger] entries_after[b])@.reachable
            && !dirty_after[b] implies spec_follows(cfg, entries_after, b) by {
        assert(entries[b]@.reachable && !dirty[b]);
        assert(spec_follows(cfg, entries, b));
        match cfg.blocks@[b].terminator {
            Terminator::Goto { target } => {
                assert(entries_after[target as int]@.reachable == entries[target as int]@.reachable);
            },
            Terminator::Split { then_block, else_block, .. } => {
                if then_block < entries.len() {
                    assert(entries_after[then_block as int]@.reachable
                        == entries[then_block as int]@.reachable);
                }
                if else_block < entries.len() {
                    assert(entries_after[else_block as int]@.reachable
                        == entries[else_block as int]@.reachable);
                }
            },
            Terminator::Return => {},
        }
    }
}

/// A terminator as writing back leaves it, where `at` are the values at
/// the end of its block: the condition of a `Split` is replaced by the
/// literal where its value is a known constant.
pub open spec fn spec_terminator_written_back(at: EvalView, term: Terminator) -> Terminator {
    match term {
        Terminator::Split { condition, then_block, else_block, loop_head } => Terminator::Split {
            condition: spec_substitute(at, condition),
            then_block,
            else_block,
            loop_head,
        },
        other => other,
    }
}

/// A block as writing back leaves it, where `entry` are the values on
/// entry to it: each instruction is rewritten as [`spec_written_back`]
/// says, with the values after the instruction, and the terminator with
/// the values at the end of the block. The phis stay as they are.
pub open spec fn spec_block_written_back(
    entry: EvalView,
    asked: Seq<Asked>,
    block: BasicBlockView,
) -> BasicBlockView {
    BasicBlockView {
        phis: block.phis,
        instructions: Seq::new(
            block.instructions.len(),
            |k: int|
                spec_written_back(
                    spec_at(entry, asked, block, (block.phis.len() + k + 1) as nat),
                    block.instructions[k],
                ),
        ),
        terminator: spec_terminator_written_back(
            spec_at(entry, asked, block, spec_steps(block)),
            block.terminator,
        ),
    }
}

/// A graph as writing back leaves it: every block that is reachable by
/// `entries` is rewritten as [`spec_block_written_back`] says, from the
/// values of the temporaries `ssa` and the state on entry to the block.
/// The other blocks stay as they are.
pub open spec fn spec_graph_written_back(
    cfg: CfgView,
    known: Map<u32, Const>,
    asked: Seq<Asked>,
    ssa: Seq<FlatSet>,
    entries: Seq<BasicBlockConstantsView>,
) -> CfgView {
    CfgView {
        blocks: Seq::new(
            cfg.blocks.len(),
            |b: int|
                if b < entries.len() && entries[b].reachable {
                    spec_block_written_back(
                        spec_entry(known, ssa, entries, b),
                        asked,
                        cfg.blocks[b],
                    )
                } else {
                    cfg.blocks[b]
                },
        ),
        ..cfg
    }
}

/// With more answers, a block whose questions were answered is written
/// back to the same.
pub proof fn lemma_written_back_stable(
    entry: EvalView,
    before: Seq<Asked>,
    after: Seq<Asked>,
    block: BasicBlockView,
)
    requires
        spec_answers_extend(before, after),
        spec_block_answered(entry, before, block, block.instructions.len()),
    ensures
        spec_block_answered(entry, after, block, block.instructions.len()),
        spec_block_written_back(entry, after, block) == spec_block_written_back(
            entry,
            before,
            block,
        ),
{
    lemma_block_stable(entry, before, after, block, block.instructions.len());
    let first = spec_block_written_back(entry, before, block);
    let second = spec_block_written_back(entry, after, block);
    assert forall|k: int| 0 <= k < block.instructions.len() implies first.instructions[k]
        == second.instructions[k] by {
        let pos = (block.phis.len() + k + 1) as nat;
        assert(spec_at(entry, after, block, pos) == spec_at(entry, before, block, pos));
    }
    assert(first.instructions =~= second.instructions);
    assert(spec_at(entry, after, block, spec_steps(block)) == spec_at(
        entry,
        before,
        block,
        spec_steps(block),
    ));
}

/// A block that was written back is the block rewritten at most.
pub proof fn lemma_written_back_is_rewritten(
    entry: EvalView,
    asked: Seq<Asked>,
    block: BasicBlockView,
)
    ensures
        block.rewritten_to(spec_block_written_back(entry, asked, block)),
{
    let after = spec_block_written_back(entry, asked, block);
    assert forall|i: int| 0 <= i < block.instructions.len() implies (
    #[trigger] block.instructions[i]).rewritten_to(after.instructions[i]) by {
        lemma_written_back_reads_less(
            spec_at(entry, asked, block, (block.phis.len() + i + 1) as nat),
            block.instructions[i],
        );
    }
}

/// Rewrites the instructions and the terminator of a block with the
/// state `state` on entry to it.
fn write_back_block<A: RealArith>(
    analysis: &ConditionalConstPropagation<A>,
    block: &mut BasicBlockData,
    state: &BasicBlockConstants,
    bb: u32,
    answers: &mut Answers,
)
    ensures
        spec_answers_extend(old(answers)@, final(answers)@),
        spec_block_answered(
            analysis.ctx(state),
            final(answers)@,
            old(block)@,
            old(block)@.instructions.len(),
        ),
        final(block)@ == spec_block_written_back(
            analysis.ctx(state),
            final(answers)@,
            old(block)@,
        ),
{
    let ghost entry = analysis.ctx(state);
    let ghost block0 = block@;
    let ghost first = block0.phis.len();
    let mut st = state.clone();
    let n = block.instructions.len();
    let mut k: usize = 0;
    proof {
        assert(spec_answers_extend(answers@, answers@));
    }
    while k < n
        invariant
            k <= n,
            n == block.instructions@.len(),
            n == block0.instructions.len(),
            first == block0.phis.len(),
            entry == analysis.ctx(state),
            block@.phis == block0.phis,
            block.terminator == block0.terminator,
            forall|i: int|
                0 <= i < k ==> #[trigger] block@.instructions[i] == spec_written_back(
                    spec_at(entry, answers@, block0, (first + i + 1) as nat),
                    block0.instructions[i],
                ),
            forall|i: int| k <= i < n ==> #[trigger] block@.instructions[i] == block0.instructions[i],
            spec_answers_extend(old(answers)@, answers@),
            spec_block_answered(entry, answers@, block0, k as nat),
            spec_at(entry, answers@, block0, (first + k) as nat) == analysis.ctx(&st),
        decreases n - k,
    {
        let ghost before = answers@;
        let ghost now = block@;
        let ghost pos = (first + k) as nat;
        let ctx = EvalCtx {
            const_places: &st.constants,
            ssa_consts: &analysis.ssa_consts,
            known_params: analysis.known_params,
        };
        let instr = &block.instructions[k];
        let value = ctx.eval_op_recorded(
            answers,
            analysis.real_arith,
            instr.op,
            &instr.args,
            instr.src,
        );
        let dst = instr.dst;
        proof {
            assert(now.instructions[k as int] == block0.instructions[k as int]);
            assert(block0.instructions[k as int] == instr@);
            lemma_extend_transitive(old(answers)@, before, answers@);
            lemma_block_stable(entry, before, answers@, block0, k as nat);
            assert(spec_at(entry, answers@, block0, pos) == ctx@);
            assert(spec_block_answered(entry, answers@, block0, (k + 1) as nat));
        }
        if let InstrDst::Place(place) = dst {
            st.constants.set_flat_set(place, value);
        }
        proof {
            assert(spec_at(entry, answers@, block0, pos + 1) == analysis.ctx(&st));
        }
        let mut pass = WriteBackConsts(analysis);
        pass.visit_instruction_after_effect(&st, &mut block.instructions[k], bb, k);
        proof {
            assert forall|i: int| 0 <= i < k + 1 implies #[trigger] block@.instructions[i]
                == spec_written_back(
                spec_at(entry, answers@, block0, (first + i + 1) as nat),
                block0.instructions[i],
            ) by {
                if i < k {
                    assert(block@.instructions[i] == now.instructions[i]);
                    assert(spec_at(entry, answers@, block0, (first + i + 1) as nat) == spec_at(
                        entry,
                        before,
                        block0,
                        (first + i + 1) as nat,
                    ));
                }
            }
            assert forall|i: int| k + 1 <= i < n implies #[trigger] block@.instructions[i]
                == block0.instructions[i] by {
                assert(block@.instructions[i] == now.instructions[i]);
            }
            assert(block@.phis =~= now.phis);
        }
        k += 1;
    }
    let ghost now = block@;
    let mut pass = WriteBackConsts(analysis);
    pass.visit_terminator_before_effect(&st, &mut block.terminator, bb);
    proof {
        let after = spec_block_written_back(entry, answers@, block0);
        assert(block@.phis =~= now.phis);
        assert forall|i: int| 0 <= i < n implies block@.instructions[i] == after.instructions[i] by {
            assert(block@.instructions[i] == now.instructions[i]);
        }
        assert(block@.instructions =~= after.instructions);
        assert(spec_steps(block0) == (first + n) as nat);
    }
}

/// Writes the constants that the propagation found back into the graph,
/// as [`spec_graph_written_back`] says: in every block that `results` has
/// as reachable, each instruction is rewritten with the values after it,
/// and the terminator with the values at the end of the block. The values
/// are those of the temporaries in `analysis`, and those of the places
/// that follow from the state on entry to the block. Real arithmetic is
/// folded by the answers in `answers`, to which the questions that come
/// up are added.
pub fn write_back_consts<A: RealArith>(
    analysis: &ConditionalConstPropagation<A>,
    cfg: &mut ControlFlowGraph,
    results: &Results,
    answers: &mut Answers,
)
    requires
        old(cfg).blocks@.len() <= u32::MAX,
    ensures
        spec_answers_extend(old(answers)@, final(answers)@),
        final(cfg)@ == spec_graph_written_back(
            old(cfg)@,
            known_param_values(*analysis.known_params),
            final(answers)@,
            analysis.ssa_consts@,
            results@,
        ),
        old(cfg)@.rewritten_to(final(cfg)@),
{
    let ghost known = known_param_values(*analysis.known_params);
    let ghost ssa = analysis.ssa_consts@;
    let ghost cfg0 = cfg@;
    let n = cfg.blocks.len();
    let mut bb: usize = 0;
    proof {
        assert(spec_answers_extend(answers@, answers@));
    }
    while bb < n
        invariant
            bb <= n,
            n == cfg.blocks@.len(),
            n == cfg0.blocks.len(),
            n <= u32::MAX,
            cfg0 == old(cfg)@,
            cfg.next_local == cfg0.next_local,
            cfg.next_place == cfg0.next_place,
            known == known_param_values(*analysis.known_params),
            ssa == analysis.ssa_consts@,
            spec_answers_extend(old(answers)@, answers@),
            forall|b: int|
                0 <= b < bb ==> #[trigger] cfg@.blocks[b] == spec_graph_written_back(
                    cfg0,
                    known,
                    answers@,
                    ssa,
                    results@,
                ).blocks[b],
            forall|b: int|
                0 <= b < bb && b < results@.len() && (#[trigger] results@[b]).reachable
                    ==> spec_block_answered(
                    spec_entry(known, ssa, results@, b),
                    answers@,
                    cfg0.blocks[b],
                    cfg0.blocks[b].instructions.len(),
                ),
            forall|b: int| bb <= b < n ==> #[trigger] cfg@.blocks[b] == cfg0.blocks[b],
        decreases n - bb,
    {
        let ghost now = cfg@;
        if bb < results.entry_sets.len() && results.entry_sets[bb].reachable {
            let ghost before = answers@;
            let state = &results.entry_sets[bb];
            write_back_block(analysis, &mut cfg.blocks[bb], state, bb as u32, answers);
            proof {
                lemma_extend_transitive(old(answers)@, before, answers@);
                assert(analysis.ctx(state) == spec_entry(known, ssa, results@, bb as int));
                assert(now.blocks[bb as int] == cfg0.blocks[bb as int]);
                assert forall|b: int| 0 <= b < bb implies #[trigger] cfg@.blocks[b]
                    == spec_graph_written_back(cfg0, known, answers@, ssa, results@).blocks[b] by {
                    assert(cfg@.blocks[b] == now.blocks[b]);
                    if b < results@.len() && results@[b].reachable {
                        lemma_written_back_stable(
                            spec_entry(known, ssa, results@, b),
                            before,
                            answers@,
                            cfg0.blocks[b],
                        );
                    }
                }
                assert forall|b: int|
                    0 <= b < bb && b < results@.len() && (
                    #[trigger] results@[b]).reachable implies spec_block_answered(
                    spec_entry(known, ssa, results@, b),
                    answers@,
                    cfg0.blocks[b],
                    cfg0.blocks[b].instructions.len(),
                ) by {
                    lemma_written_back_stable(
                        spec_entry(known, ssa, results@, b),
                        before,
                        answers@,
                        cfg0.blocks[b],
                    );
                }
                assert forall|b: int| bb < b < n implies #[trigger] cfg@.blocks[b]
                    == cfg0.blocks[b] by {
                    assert(cfg@.blocks[b] == now.blocks[b]);
                }
            }
        }
        bb += 1;
    }
    proof {
        let after = spec_graph_written_back(cfg0, known, answers@, ssa, results@);
        assert(cfg@.blocks =~= after.blocks);
        assert(cfg@ == after);
        assert forall|b: int| 0 <= b < cfg0.blocks.len() implies (#[trigger] cfg0.blocks[b]).rewritten_to(
            after.blocks[b],
        ) by {
            if b < results@.len() && results@[b].reachable {
                lemma_written_back_is_rewritten(
                    spec_entry(known, ssa, results@, b),
                    answers@,
                    cfg0.blocks[b],
                );
            } else {
                let block = cfg0.blocks[b];
                assert forall|i: int| 0 <= i < block.instructions.len() implies (
                #[trigger] block.instructions[i]).rewritten_to(block.instructions[i]) by {
                    let args = block.instructions[i].args;
                    assert forall|j: int| 0 <= j < args.len() implies (#[trigger] args[j]) is Const
                        || args.contains(args[j]) by {}
                }
            }
        }
    }
}

/// No instruction of the graph is marked as generated.
pub open spec fn spec_no_generated(cfg: CfgView) -> bool {
    forall|b: int, k: int|
        0 <= b < cfg.blocks.len() && 0 <= k < cfg.blocks[b].instructions.len() ==> (
        #[trigger] cfg.blocks[b].instructions[k]).src >= 0
}

/// Where the lattice values allow what a run holds, the operand with a
/// literal in its place reads what the operand reads.
pub proof fn lemma_substitute_reads(at: EvalView, env: Environment, operand: Operand, c: Const)
    requires
        at.allows(env),
        spec_reads(env, operand, c),
    ensures
        spec_reads(env, spec_substitute(at, operand), c),
{
    if !(operand is CallBack) {
        at.lemma_get_operand_sound(env, operand, c);
    }
}

/// An instruction that was written back takes a run where the
/// instruction took it. Let the lattice values `before` allow what the
/// run holds before the instruction, and the values after it what the run
/// holds after it. Then the step that the instruction makes is a step of
/// the instruction as [`spec_written_back`] leaves it. This holds of an
/// instruction that is not marked as generated.
pub proof fn lemma_written_back_step(
    before: EvalView,
    asked: Seq<Asked>,
    instr: InstructionView,
    env: Environment,
    a: Const,
    b: Const,
    v: Const,
    env_after: Environment,
)
    requires
        instr.src >= 0,
        before.allows(env),
        spec_instr_run(asked, instr, env, a, b, v, env_after),
        (EvalView {
            places: spec_places_after(
                before.places,
                instr.dst,
                before.eval(asked, instr.op, instr.args, instr.src),
            ),
            ..before
        }).allows(env_after),
    ensures
        exists|a2: Const, b2: Const| #[trigger]
            spec_instr_run(
                asked,
                spec_written_back(
                    EvalView {
                        places: spec_places_after(
                            before.places,
                            instr.dst,
                            before.eval(asked, instr.op, instr.args, instr.src),
                        ),
                        ..before
                    },
                    instr,
                ),
                env,
                a2,
                b2,
                v,
                env_after,
            ),
{
    let after = EvalView {
        places: spec_places_after(
            before.places,
            instr.dst,
            before.eval(asked, instr.op, instr.args, instr.src),
        ),
        ..before
    };
    let made = spec_written_back(after, instr);
    match spec_known_result(after, instr.dst) {
        Some(k) => {
            match instr.dst {
                InstrDst::Local(local) => {
                    assert(env_after.locals.dom().contains(local));
                    assert(env_after.locals[local] == v);
                },
                InstrDst::Place(place) => {
                    assert(env_after.places.dom().contains(place));
                    assert(env_after.places[place] == v);
                },
                InstrDst::Ignore => {},
            }
            assert(k == v);
            assert(made.args =~= seq![Operand::Const(k)]);
            assert(spec_instr_run(asked, made, env, k, k, v, env_after));
        },
        None => {
            let args = Seq::new(instr.args.len(), |i: int| spec_substitute(after, instr.args[i]));
            assert(made == (InstructionView { args, ..instr }));
            if instr.args.len() == instr.op.arity() {
                let last = instr.args.len() - 1;
                lemma_substitute_kept(before, asked, instr, env, instr.args[0], a);
                lemma_substitute_kept(before, asked, instr, env, instr.args[last], b);
            }
            assert(spec_instr_run(asked, made, env, a, b, v, env_after));
        },
    }
}

/// An operand of an instruction whose result is not known reads, with a
/// literal in its place by the values after the instruction, what it read
/// before the instruction.
proof fn lemma_substitute_kept(
    before: EvalView,
    asked: Seq<Asked>,
    instr: InstructionView,
    env: Environment,
    operand: Operand,
    c: Const,
)
    requires
        before.allows(env),
        spec_reads(env, operand, c),
        spec_known_result(
            EvalView {
                places: spec_places_after(
                    before.places,
                    instr.dst,
                    before.eval(asked, instr.op, instr.args, instr.src),
                ),
                ..before
            },
            instr.dst,
        ) is None,
    ensures
        spec_reads(
            env,
            spec_substitute(
                EvalView {
                    places: spec_places_after(
                        before.places,
                        instr.dst,
                        before.eval(asked, instr.op, instr.args, instr.src),
                    ),
                    ..before
                },
                operand,
            ),
            c,
        ),
{
    let after = EvalView {
        places: spec_places_after(
            before.places,
            instr.dst,
            before.eval(asked, instr.op, instr.args, instr.src),
        ),
        ..before
    };
    if !(operand is CallBack) {
        before.lemma_get_operand_sound(env, operand, c);
        if after.get_operand(operand) != before.get_operand(operand) {
            assert(operand is Place);
            assert(instr.dst == InstrDst::Place(operand->Place_0));
        }
    }
}

/// Writing back keeps the runs. At a fixed point of the constant
/// propagation, every run of a graph in which no instruction is marked as
/// generated, started from what the values on entry to the first block
/// allow, is a run of the graph as [`spec_graph_written_back`] leaves it.
pub proof fn lemma_written_back_keeps_runs(
    cfg: CfgView,
    known: Map<u32, Const>,
    asked: Seq<Asked>,
    ssa: Seq<FlatSet>,
    entries: Seq<BasicBlockConstantsView>,
    run: Seq<RunPoint>,
)
    requires
        cfg.blocks.len() > 0,
        spec_settled(cfg, known, asked, ssa, entries),
        entries[0].reachable,
        spec_no_generated(cfg),
        spec_is_run(cfg, asked, run),
        spec_entry(known, ssa, entries, 0).allows(run[0].env),
    ensures
        spec_is_run(spec_graph_written_back(cfg, known, asked, ssa, entries), asked, run),
{
    let made = spec_graph_written_back(cfg, known, asked, ssa, entries);
    assert forall|i: int| 0 <= i < run.len() - 1 implies spec_step(
        made,
        asked,
        #[trigger] run[i],
        run[i + 1],
    ) by {
        let p = run[i];
        let q = run[i + 1];
        lemma_settled_allows_every_run(cfg, known, asked, ssa, entries, run, i);
        lemma_settled_allows_every_run(cfg, known, asked, ssa, entries, run, i + 1);
        assert(spec_step(cfg, asked, p, q));
        let b = p.block as int;
        let block = cfg.blocks[b];
        let entry = spec_entry(known, ssa, entries, b);
        let after = spec_block_written_back(entry, asked, block);
        assert(made.blocks[b] == after);
        let at = spec_at(entry, asked, block, p.pos);
        if p.pos < block.phis.len() {
        } else if p.pos < spec_steps(block) {
            let k = p.pos - block.phis.len();
            let instr = block.instructions[k];
            let (a, c, v) = choose|a: Const, c: Const, v: Const| #[trigger]
                spec_instr_run(asked, instr, p.env, a, c, v, q.env);
            assert(q.block == p.block && q.pos == p.pos + 1);
            let next = spec_at(entry, asked, block, p.pos + 1);
            assert(next.allows(q.env));
            lemma_written_back_step(at, asked, instr, p.env, a, c, v, q.env);
            assert(after.instructions[k] == spec_written_back(next, instr));
        } else {
            match block.terminator {
                Terminator::Split { condition, then_block, else_block, .. } => {
                    let c = choose|c: Const|
                        #[trigger] spec_reads(p.env, condition, c) && q.block == if c.as_bool() {
                            then_block
                        } else {
                            else_block
                        };
                    lemma_substitute_reads(at, p.env, condition, c);
                    assert(spec_leaves_to(after.terminator, p.env, q.block));
                },
                _ => {},
            }
        }
    }
}

} // verus!
