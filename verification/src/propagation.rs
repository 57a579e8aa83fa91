//! Conditional constant propagation: the per-block lattice state, the
//! transfer functions of the analysis, and the pass that writes the
//! constants it found back into the graph.

use vstd::prelude::*;
use crate::collections::known_param_values;
use crate::eval::{EvalCtx, EvalView, RealArith};
use crate::graph::{
    Const, ControlFlowGraph, InstrDst, Instruction, InstructionView, Op, Operand, Phi, PhiView,
    Terminator,
};
use crate::lattice::{spec_join_seq, spec_rank_sum, spec_value_in, FlatSet, SparseFlatSetMap};
use crate::ssa_constants::SsaConstants;

verus! {

/// The lattice values of the places.
pub type ConstPlaces = SparseFlatSetMap;

/// What is known on entry to a block, or at a point inside it.
#[derive(Debug, PartialEq)]
pub struct BasicBlockConstants {
    pub reachable: bool,
    pub constants: ConstPlaces,
    /// A temporary changed while the block that led here was evaluated.
    pub temporaries_changed: bool,
}

/// A [`BasicBlockConstants`] as a mathematical value.
pub struct BasicBlockConstantsView {
    pub reachable: bool,
    pub constants: Seq<FlatSet>,
    pub temporaries_changed: bool,
}

impl BasicBlockConstantsView {
    /// How many times the state can still rise: once if it is unreachable,
    /// and as often as its places can.
    pub open spec fn rank(self) -> nat {
        spec_rank_sum(self.constants) + if self.reachable {
            0nat
        } else {
            1nat
        }
    }
}

impl BasicBlockConstantsView {
    /// The componentwise least upper bound.
    pub open spec fn join(self, other: BasicBlockConstantsView) -> BasicBlockConstantsView {
        BasicBlockConstantsView {
            reachable: self.reachable || other.reachable,
            constants: spec_join_seq(self.constants, other.constants),
            temporaries_changed: self.temporaries_changed || other.temporaries_changed,
        }
    }

    /// `self` is at or below `other`: `other` is reachable if `self` is,
    /// and every place of `self` is at or below the same place of `other`.
    pub open spec fn le(self, other: BasicBlockConstantsView) -> bool {
        &&& self.reachable ==> other.reachable
        &&& self.constants.len() == other.constants.len()
        &&& forall|p: int|
            0 <= p < self.constants.len() ==> (#[trigger] self.constants[p]).le(other.constants[p])
    }

    /// The state after each of the first `n` of `others` was joined into
    /// it in turn.
    pub open spec fn join_all(self, others: Seq<BasicBlockConstantsView>, n: nat)
        -> BasicBlockConstantsView
        decreases n,
    {
        if n == 0 {
            self
        } else {
            self.join_all(others, (n - 1) as nat).join(others[n - 1])
        }
    }
}

/// A state only rises when another is joined into it.
pub proof fn lemma_join_rises(state: BasicBlockConstantsView, other: BasicBlockConstantsView)
    ensures
        state.le(state.join(other)),
{
    let joined = state.join(other);
    assert forall|p: int| 0 <= p < state.constants.len() implies (
    #[trigger] state.constants[p]).le(joined.constants[p]) by {}
}

/// Monotonicity of the iteration. Whatever is joined into the entry state
/// of a block, and however often: once the block is reachable it stays
/// reachable, and a place that is `Top` stays `Top`, so that no place ever
/// comes back to `Top` after leaving it. More generally every place stays
/// at or above the value it had.
pub proof fn lemma_joins_are_monotone(
    state: BasicBlockConstantsView,
    others: Seq<BasicBlockConstantsView>,
    m: nat,
    n: nat,
)
    requires
        m <= n <= others.len(),
    ensures
        state.join_all(others, m).le(state.join_all(others, n)),
        state.join_all(others, m).reachable ==> state.join_all(others, n).reachable,
        forall|p: int|
            0 <= p < state.constants.len() && state.join_all(others, m).constants[p]
                == FlatSet::Top ==> #[trigger] state.join_all(others, n).constants[p]
                == FlatSet::Top,
    decreases n - m,
{
    if m < n {
        lemma_joins_are_monotone(state, others, m, (n - 1) as nat);
        let mid = state.join_all(others, (n - 1) as nat);
        lemma_join_rises(mid, others[n - 1]);
        let low = state.join_all(others, m);
        let high = state.join_all(others, n);
        assert forall|p: int| 0 <= p < low.constants.len() implies (#[trigger] low.constants[p]).le(
            high.constants[p],
        ) by {
            assert(low.constants[p].le(mid.constants[p]));
            assert(mid.constants[p].le(high.constants[p]));
        }
        lemma_join_all_len(state, others, m);
        assert forall|p: int|
            0 <= p < state.constants.len() && low.constants[p] == FlatSet::Top implies #[trigger] high.constants[p]
                == FlatSet::Top by {
            assert(low.constants[p].le(high.constants[p]));
        }
    } else {
        let low = state.join_all(others, m);
        assert forall|p: int| 0 <= p < low.constants.len() implies (#[trigger] low.constants[p]).le(
            low.constants[p],
        ) by {}
    }
}

/// Joining keeps the number of places.
pub proof fn lemma_join_all_len(
    state: BasicBlockConstantsView,
    others: Seq<BasicBlockConstantsView>,
    n: nat,
)
    ensures
        state.join_all(others, n).constants.len() == state.constants.len(),
    decreases n,
{
    if n > 0 {
        lemma_join_all_len(state, others, (n - 1) as nat);
    }
}

impl View for BasicBlockConstants {
    type V = BasicBlockConstantsView;

    open spec fn view(&self) -> BasicBlockConstantsView {
        BasicBlockConstantsView {
            reachable: self.reachable,
            constants: self.constants@,
            temporaries_changed: self.temporaries_changed,
        }
    }
}

impl Clone for BasicBlockConstants {
    fn clone(&self) -> (res: Self)
        ensures
            res@ == self@,
    {
        Self {
            reachable: self.reachable,
            constants: self.constants.clone_map(),
            temporaries_changed: self.temporaries_changed,
        }
    }

    fn clone_from(&mut self, source: &Self)
        ensures
            final(self)@ == source@,
    {
        self.constants = source.constants.clone_map();
        self.reachable = source.reachable;
        self.temporaries_changed = source.temporaries_changed
    }
}

impl BasicBlockConstants {
    /// The componentwise least upper bound.
    pub open spec fn spec_join(&self, other: &BasicBlockConstants) -> BasicBlockConstantsView {
        self@.join(other@)
    }

    /// Replaces `self` by its componentwise least upper bound with `other`;
    /// true when `self` changed.
    pub fn join(&mut self, other: &Self) -> (changed: bool)
        ensures
            final(self)@ == old(self).spec_join(other),
            changed == (final(self)@ != old(self)@),
            final(self)@.rank() <= old(self)@.rank(),
            changed ==> final(self)@.rank() < old(self)@.rank() || (!old(self)@.temporaries_changed
                && other@.temporaries_changed),
    {
        let temporaries = !self.temporaries_changed && other.temporaries_changed;
        let reachable = !self.reachable && other.reachable;
        self.temporaries_changed = self.temporaries_changed || other.temporaries_changed;
        self.reachable = self.reachable || other.reachable;
        let constants = self.constants.join(&other.constants);
        temporaries || reachable || constants
    }
}

/// The least upper bound of the values that the first `n` sources of a phi
/// have.
pub open spec fn spec_phi_value(ssa: Seq<FlatSet>, sources: Seq<(u32, u32)>, n: nat) -> FlatSet
    decreases n,
{
    if n == 0 {
        FlatSet::Bottom
    } else {
        spec_phi_value(ssa, sources, (n - 1) as nat).spec_join(
            spec_value_in(ssa, sources[n - 1].1),
        )
    }
}

/// The edges of a `Split` that are followed from a state, by the lattice
/// value of its condition.
pub open spec fn spec_edges_of(reachable: bool, discr: FlatSet) -> SplitEdges {
    if !reachable {
        SplitEdges { then_edge: false, else_edge: false }
    } else {
        match discr {
            FlatSet::Elem(val) => SplitEdges { then_edge: val.as_bool(), else_edge: !val.as_bool() },
            _ => SplitEdges { then_edge: true, else_edge: true },
        }
    }
}

/// The values of the places after `value` was recorded for `dst`: a place
/// that is tracked gets the value, and nothing else changes.
pub open spec fn spec_places_after(places: Seq<FlatSet>, dst: InstrDst, value: FlatSet) -> Seq<
    FlatSet,
> {
    match dst {
        InstrDst::Place(place) => if (place as int) < places.len() {
            places.update(place as int, value)
        } else {
            places
        },
        _ => places,
    }
}

/// Which edges of a `Split` the analysis follows.
#[derive(Clone, Copy, Debug, PartialEq, Eq, Structural)]
pub struct SplitEdges {
    pub then_edge: bool,
    pub else_edge: bool,
}

/// The analysis: the values of the SSA temporaries, which it fills in, the
/// parameters that the caller has fixed, and the arithmetic on reals.
pub struct ConditionalConstPropagation<'a, A: RealArith> {
    pub ssa_consts: SsaConstants,
    pub known_params: &'a ahash::AHashMap<u32, Const>,
    pub real_arith: &'a A,
}

impl<'a, A: RealArith> ConditionalConstPropagation<'a, A> {
    /// What an evaluation at a point with the state `state` reads.
    pub open spec fn ctx(&self, state: &BasicBlockConstants) -> EvalView {
        EvalView {
            places: state.constants@,
            ssa: self.ssa_consts@,
            known: known_param_values(*self.known_params),
        }
    }

    /// Only the values of the temporaries differ between `self` and `other`.
    pub open spec fn same_inputs(&self, other: &Self) -> bool {
        self.known_params == other.known_params && self.real_arith == other.real_arith
    }

    /// The state of a block that no edge has reached yet: unreachable, and
    /// every place of the graph at `Bottom`.
    pub fn bottom_value(&self, cfg: &ControlFlowGraph) -> (res: BasicBlockConstants)
        ensures
            res@ == (BasicBlockConstantsView {
                reachable: false,
                constants: Seq::new(cfg.next_place as nat, |i: int| FlatSet::Bottom),
                temporaries_changed: false,
            }),
    {
        BasicBlockConstants {
            reachable: false,
            temporaries_changed: false,
            constants: SparseFlatSetMap::new_empty(cfg.next_place as usize),
        }
    }

    /// The entry block is reachable, and nothing is known of any place
    /// there.
    pub fn initialize_start_block(&self, _cfg: &ControlFlowGraph, state: &mut BasicBlockConstants)
        ensures
            final(state)@ == (BasicBlockConstantsView {
                reachable: true,
                constants: Seq::new(old(state)@.constants.len(), |i: int| FlatSet::Top),
                temporaries_changed: old(state)@.temporaries_changed,
            }),
    {
        state.reachable = true;
        state.constants.insert_all_top();
    }

    /// Prepares the entry state of a block for its evaluation; false when
    /// the block is unreachable and is to be skipped.
    pub fn init_block(&self, _cfg: &ControlFlowGraph, state: &mut BasicBlockConstants) -> (res:
        bool)
        ensures
            final(state)@ == (BasicBlockConstantsView {
                temporaries_changed: false,
                ..old(state)@
            }),
            res == old(state)@.reachable,
    {
        state.temporaries_changed = false;
        state.reachable
    }

    /// Records `value` as the result written to `dst`. A temporary rises to
    /// the least upper bound of its value and `value`, and the state notes
    /// whether that changed it; a place is overwritten.
    pub fn write_result(&mut self, state: &mut BasicBlockConstants, dst: InstrDst, value: FlatSet)
        ensures
            final(self).same_inputs(old(self)),
            spec_result_written(
                old(self).ssa_consts,
                old(state)@,
                dst,
                value,
                final(self).ssa_consts@,
                final(state)@,
            ),
            (Point { ssa: final(self).ssa_consts@, state: final(state)@ }) == spec_write(
                Point { ssa: old(self).ssa_consts@, state: old(state)@ },
                dst,
                value,
            ),
            spec_effect_bounds(
                old(self).ssa_consts@,
                old(state)@,
                final(self).ssa_consts@,
                final(state)@,
            ),
    {
        match dst {
            InstrDst::Local(local) => {
                let changed = self.ssa_consts.set(local, value);
                state.temporaries_changed = state.temporaries_changed || changed;
            },
            InstrDst::Place(place) => {
                state.constants.set_flat_set(place, value);
            },
            InstrDst::Ignore => (),
        }
    }

    /// A phi gives its destination the least upper bound of the values of
    /// its sources.
    pub fn apply_phi_effect(
        &mut self,
        _cfg: &ControlFlowGraph,
        state: &mut BasicBlockConstants,
        phi: &Phi,
        _bb: u32,
        _idx: usize,
    )
        ensures
            final(self).same_inputs(old(self)),
            spec_result_written(
                old(self).ssa_consts,
                old(state)@,
                InstrDst::Local(phi.dst),
                spec_phi_value(old(self).ssa_consts@, phi.sources@, phi.sources@.len()),
                final(self).ssa_consts@,
                final(state)@,
            ),
            (Point { ssa: final(self).ssa_consts@, state: final(state)@ }) == spec_after_phi(
                Point { ssa: old(self).ssa_consts@, state: old(state)@ },
                phi@,
            ),
            spec_effect_bounds(
                old(self).ssa_consts@,
                old(state)@,
                final(self).ssa_consts@,
                final(state)@,
            ),
    {
        let mut res = FlatSet::Bottom;
        let mut i: usize = 0;
        while i < phi.sources.len()
            invariant
                i <= phi.sources@.len(),
                res == spec_phi_value(self.ssa_consts@, phi.sources@, i as nat),
            decreases phi.sources@.len() - i,
        {
            self.ssa_consts.join_into(phi.sources[i].1, &mut res);
            i += 1;
        }
        self.write_result(state, InstrDst::Local(phi.dst), res);
    }

    /// Whether evaluating `instr` in `state` asks the arithmetic on reals.
    pub open spec fn spec_asks(&self, state: &BasicBlockConstants, instr: InstructionView) -> bool {
        self.ctx(state).asks(instr.op, instr.args, instr.src)
    }

    /// The value of `instr` in `state`, where `answer` is what the
    /// arithmetic on reals answered if it was asked.
    pub open spec fn spec_instr_value(
        &self,
        state: &BasicBlockConstants,
        instr: InstructionView,
        answer: Option<Const>,
    ) -> FlatSet {
        self.ctx(state).eval_op(instr.op, instr.args, instr.src, answer)
    }

    /// An instruction is evaluated on the values of its operands and the
    /// result recorded for its destination, as [`Self::write_result`] does.
    pub fn apply_instr_effect(
        &mut self,
        _cfg: &ControlFlowGraph,
        state: &mut BasicBlockConstants,
        instr: &Instruction,
        _idx: usize,
        _bb: u32,
    )
        ensures
            final(self).same_inputs(old(self)),
            spec_effect_bounds(
                old(self).ssa_consts@,
                old(state)@,
                final(self).ssa_consts@,
                final(state)@,
            ),
            !old(self).spec_asks(old(state), instr@) ==> spec_result_written(
                old(self).ssa_consts,
                old(state)@,
                instr.dst,
                old(self).spec_instr_value(old(state), instr@, None),
                final(self).ssa_consts@,
                final(state)@,
            ),
            old(self).spec_asks(old(state), instr@) ==> exists|answer: Option<Const>|
                spec_result_written(
                    old(self).ssa_consts,
                    old(state)@,
                    instr.dst,
                    #[trigger] old(self).spec_instr_value(old(state), instr@, answer),
                    final(self).ssa_consts@,
                    final(state)@,
                ),
            exists|answer: Option<Const>|
                (Point { ssa: final(self).ssa_consts@, state: final(state)@ })
                    == #[trigger] spec_after_instr(
                    known_param_values(*old(self).known_params),
                    Point { ssa: old(self).ssa_consts@, state: old(state)@ },
                    instr@,
                    answer,
                ),
    {
        let ctx = EvalCtx {
            const_places: &state.constants,
            ssa_consts: &self.ssa_consts,
            known_params: self.known_params,
        };
        let res = ctx.eval_op(self.real_arith, instr.op, &instr.args, instr.src);
        let ghost answer = if self.spec_asks(state, instr@) {
            choose|answer: Option<Const>|
                res == ctx@.eval_op(instr.op, instr.args@, instr.src, answer)
        } else {
            None
        };
        proof {
            assert(res == self.spec_instr_value(state, instr@, answer));
        }
        let ghost before = Point { ssa: self.ssa_consts@, state: state@ };
        let ghost known = known_param_values(*self.known_params);
        self.write_result(state, instr.dst, res);
        proof {
            assert((Point { ssa: self.ssa_consts@, state: state@ }) == spec_after_instr(
                known,
                before,
                instr@,
                answer,
            ));
        }
    }

    /// Whether the state after a block is passed on along a `Goto`.
    pub fn apply_edge_effects(&self, _cfg: &ControlFlowGraph, _block: u32, state:
        &BasicBlockConstants) -> (res: bool)
        ensures
            res == state@.reachable,
    {
        state.reachable
    }

    /// The edges of a `Split` with the condition `discr` that are followed
    /// from `state`.
    pub open spec fn spec_split_edges(&self, discr: Operand, state: &BasicBlockConstants)
        -> SplitEdges {
        spec_edges_of(state@.reachable, self.ctx(state).get_operand(discr))
    }

    /// From an unreachable state no edge is followed. Where the condition is
    /// a known constant, only the edge that it selects is followed.
    /// Otherwise both are.
    pub fn apply_split_edge_effects(
        &self,
        _cfg: &ControlFlowGraph,
        _block: u32,
        discr: &Operand,
        state: &BasicBlockConstants,
    ) -> (edges: SplitEdges)
        ensures
            edges == self.spec_split_edges(*discr, state),
    {
        if !state.reachable {
            SplitEdges { then_edge: false, else_edge: false }
        } else {
            let discr = EvalCtx {
                const_places: &state.constants,
                ssa_consts: &self.ssa_consts,
                known_params: self.known_params,
            }.get_operand(discr);
            match discr {
                FlatSet::Elem(val) => {
                    let taken = val.as_bool();
                    SplitEdges { then_edge: taken, else_edge: !taken }
                },
                _ => SplitEdges { then_edge: true, else_edge: true },
            }
        }
    }
}

/// The values of the temporaries and the state at a point of a block.
pub struct Point {
    pub ssa: Seq<FlatSet>,
    pub state: BasicBlockConstantsView,
}

/// The values of the temporaries after `local` rose to the least upper
/// bound of its value and `value`. A local that is not tracked stays so.
pub open spec fn spec_raised(ssa: Seq<FlatSet>, local: u32, value: FlatSet) -> Seq<FlatSet> {
    if (local as int) < ssa.len() {
        ssa.update(local as int, ssa[local as int].spec_join(value))
    } else {
        ssa
    }
}

/// The point after `value` was recorded for `dst`: a temporary rises to
/// the least upper bound of its value and `value`, and the state notes
/// whether that changed it; a place is overwritten.
pub open spec fn spec_write(point: Point, dst: InstrDst, value: FlatSet) -> Point {
    match dst {
        InstrDst::Local(local) => {
            let ssa = spec_raised(point.ssa, local, value);
            Point {
                ssa,
                state: BasicBlockConstantsView {
                    temporaries_changed: point.state.temporaries_changed || ssa != point.ssa,
                    ..point.state
                },
            }
        },
        InstrDst::Place(_) => Point {
            ssa: point.ssa,
            state: BasicBlockConstantsView {
                constants: spec_places_after(point.state.constants, dst, value),
                ..point.state
            },
        },
        InstrDst::Ignore => point,
    }
}

/// The point after the effect of a phi: its destination gets the least
/// upper bound of the values of its sources.
pub open spec fn spec_after_phi(point: Point, phi: PhiView) -> Point {
    spec_write(
        point,
        InstrDst::Local(phi.dst),
        spec_phi_value(point.ssa, phi.sources, phi.sources.len()),
    )
}

/// The point after the effect of an instruction: its destination gets
/// the value that the instruction is evaluated to at the point, where
/// `answer` is what the arithmetic on reals answered if it was asked.
pub open spec fn spec_after_instr(
    known: Map<u32, Const>,
    point: Point,
    instr: InstructionView,
    answer: Option<Const>,
) -> Point {
    spec_write(
        point,
        instr.dst,
        (EvalView { places: point.state.constants, ssa: point.ssa, known }).eval_op(
            instr.op,
            instr.args,
            instr.src,
            answer,
        ),
    )
}

/// Every value of `after` is at or above the value that `before` has in
/// its place.
pub open spec fn spec_risen(before: Seq<FlatSet>, after: Seq<FlatSet>) -> bool {
    &&& before.len() == after.len()
    &&& forall|i: int| 0 <= i < before.len() ==> (#[trigger] before[i]).le(after[i])
}

/// What holds of one effect and of the next holds of both together.
pub proof fn lemma_effect_bounds_transitive(
    ssa0: Seq<FlatSet>,
    state0: BasicBlockConstantsView,
    ssa1: Seq<FlatSet>,
    state1: BasicBlockConstantsView,
    ssa2: Seq<FlatSet>,
    state2: BasicBlockConstantsView,
)
    requires
        spec_effect_bounds(ssa0, state0, ssa1, state1),
        spec_effect_bounds(ssa1, state1, ssa2, state2),
    ensures
        spec_effect_bounds(ssa0, state0, ssa2, state2),
{
    assert forall|i: int| 0 <= i < ssa0.len() implies (#[trigger] ssa0[i]).le(ssa2[i]) by {
        assert(ssa0[i].le(ssa1[i]));
        assert(ssa1[i].le(ssa2[i]));
    }
}

/// What every effect of a phi or an instruction keeps to: the state stays
/// as reachable as it was and keeps its places, the temporaries only rise,
/// and the state notes a change exactly when it had one noted or a
/// temporary rose.
pub open spec fn spec_effect_bounds(
    ssa: Seq<FlatSet>,
    state: BasicBlockConstantsView,
    ssa_after: Seq<FlatSet>,
    state_after: BasicBlockConstantsView,
) -> bool {
    &&& state_after.reachable == state.reachable
    &&& state_after.constants.len() == state.constants.len()
    &&& spec_risen(ssa, ssa_after)
    &&& spec_rank_sum(ssa_after) <= spec_rank_sum(ssa)
    &&& ssa_after != ssa ==> spec_rank_sum(ssa_after) < spec_rank_sum(ssa)
    &&& state_after.temporaries_changed == (state.temporaries_changed || ssa_after != ssa)
}

/// How recording `value` for `dst` changes the values of the temporaries
/// and the state at this point.
pub open spec fn spec_result_written(
    ssa: SsaConstants,
    state: BasicBlockConstantsView,
    dst: InstrDst,
    value: FlatSet,
    ssa_after: Seq<FlatSet>,
    state_after: BasicBlockConstantsView,
) -> bool {
    match dst {
        InstrDst::Local(local) => {
            &&& ssa_after == ssa.spec_set(local, value)
            &&& state_after == (BasicBlockConstantsView {
                temporaries_changed: state.temporaries_changed || ssa_after != ssa@,
                ..state
            })
        },
        InstrDst::Place(place) => {
            &&& ssa_after == ssa@
            &&& state_after == (BasicBlockConstantsView {
                constants: spec_places_after(state.constants, dst, value),
                ..state
            })
        },
        InstrDst::Ignore => ssa_after == ssa@ && state_after == state,
    }
}

/// The operand is a literal real zero, of either sign.
pub open spec fn spec_operand_is_zero(arg: Operand) -> bool {
    arg matches Operand::Const(c) && c.is_real_zero()
}

/// The operand is the literal real `1.0`.
pub open spec fn spec_operand_is_one(arg: Operand) -> bool {
    arg matches Operand::Const(c) && c.is_real_one()
}

fn operand_is_zero(arg: &Operand) -> (res: bool)
    ensures
        res == spec_operand_is_zero(*arg),
{
    match *arg {
        Operand::Const(c) => c.is_real_zero(),
        _ => false,
    }
}

fn operand_is_one(arg: &Operand) -> (res: bool)
    ensures
        res == spec_operand_is_one(*arg),
{
    match *arg {
        Operand::Const(c) => c.is_real_one(),
        _ => false,
    }
}

/// The identities of real arithmetic with a literal operand: the index of
/// the operand that is kept, and the operator that is applied to it.
/// `0 - x` is `-x`; `0 + x`, `x + 0`, `x - 0`, `x * 1`, `x / 1` and
/// `1 * x` are `x`.
pub open spec fn spec_float_identity(op: Op, args: Seq<Operand>) -> Option<(usize, Op)> {
    if args.len() != 2 {
        None
    } else if op == Op::RealSub && spec_operand_is_zero(args[0]) {
        Some((1usize, Op::RealArithNeg))
    } else if op == Op::RealAdd && spec_operand_is_zero(args[0]) {
        Some((1usize, Op::Copy))
    } else if (op == Op::RealAdd || op == Op::RealSub) && spec_operand_is_zero(args[1]) {
        Some((0usize, Op::Copy))
    } else if (op == Op::RealMul || op == Op::RealDiv) && spec_operand_is_one(args[1]) {
        Some((0usize, Op::Copy))
    } else if op == Op::RealMul && spec_operand_is_one(args[0]) {
        Some((1usize, Op::Copy))
    } else {
        None
    }
}

/// See [`spec_float_identity`].
pub fn float_identity(op: Op, args: &Vec<Operand>) -> (res: Option<(usize, Op)>)
    ensures
        res == spec_float_identity(op, args@),
{
    if args.len() != 2 {
        return None;
    }
    let zero0 = operand_is_zero(&args[0]);
    let zero1 = operand_is_zero(&args[1]);
    let one0 = operand_is_one(&args[0]);
    let one1 = operand_is_one(&args[1]);
    match op {
        Op::RealSub => if zero0 {
            Some((1, Op::RealArithNeg))
        } else if zero1 {
            Some((0, Op::Copy))
        } else {
            None
        },
        Op::RealAdd => if zero0 {
            Some((1, Op::Copy))
        } else if zero1 {
            Some((0, Op::Copy))
        } else {
            None
        },
        Op::RealMul => if one1 {
            Some((0, Op::Copy))
        } else if one0 {
            Some((1, Op::Copy))
        } else {
            None
        },
        Op::RealDiv => if one1 {
            Some((0, Op::Copy))
        } else {
            None
        },
        _ => None,
    }
}

/// The operand with a literal in its place where its value is a known
/// constant.
pub open spec fn spec_substitute(ctx: EvalView, arg: Operand) -> Operand {
    match ctx.get_operand(arg) {
        FlatSet::Elem(val) => Operand::Const(val),
        _ => arg,
    }
}

/// The constant that the destination of an instruction is known to hold.
pub open spec fn spec_known_result(ctx: EvalView, dst: InstrDst) -> Option<Const> {
    match dst {
        InstrDst::Local(local) => match spec_value_in(ctx.ssa, local) {
            FlatSet::Elem(c) => Some(c),
            _ => None,
        },
        InstrDst::Place(place) => match spec_value_in(ctx.places, place) {
            FlatSet::Elem(c) => Some(c),
            _ => None,
        },
        InstrDst::Ignore => None,
    }
}

/// An instruction after the identities of real arithmetic were applied to
/// it. Only instructions that the compiler generated are touched.
pub open spec fn spec_simplified(instr: InstructionView) -> InstructionView {
    if instr.src < 0 {
        match spec_float_identity(instr.op, instr.args) {
            Some((kept, op)) => InstructionView {
                op: op,
                args: seq![instr.args[kept as int]],
                ..instr
            },
            None => instr,
        }
    } else {
        instr
    }
}

/// An instruction as the pass leaves it. Where its destination holds a
/// known constant it becomes a copy of that constant. Otherwise every
/// operand with a known value is replaced by the literal, and then the
/// identities of real arithmetic are applied.
pub open spec fn spec_written_back(ctx: EvalView, instr: InstructionView) -> InstructionView {
    match spec_known_result(ctx, instr.dst) {
        Some(val) => InstructionView { op: Op::Copy, args: seq![Operand::Const(val)], ..instr },
        None => spec_simplified(
            InstructionView {
                args: Seq::new(instr.args.len(), |i: int| spec_substitute(ctx, instr.args[i])),
                ..instr
            },
        ),
    }
}

/// The pass changes neither where an instruction writes nor where it
/// comes from, and makes it read nothing new.
pub proof fn lemma_written_back_reads_less(ctx: EvalView, instr: InstructionView)
    ensures
        instr.rewritten_to(spec_written_back(ctx, instr)),
{
    let after = spec_written_back(ctx, instr);
    match spec_known_result(ctx, instr.dst) {
        Some(val) => {},
        None => {
            let substituted = Seq::new(
                instr.args.len(),
                |i: int| spec_substitute(ctx, instr.args[i]),
            );
            assert forall|i: int| 0 <= i < substituted.len() implies (
            #[trigger] substituted[i]) is Const || instr.args.contains(substituted[i]) by {
                if !(substituted[i] is Const) {
                    assert(substituted[i] == instr.args[i]);
                }
            }
            assert forall|i: int| 0 <= i < after.args.len() implies (#[trigger] after.args[i]) is Const
                || instr.args.contains(after.args[i]) by {
                if after.args != substituted {
                    let sub = InstructionView { args: substituted, ..instr };
                    match spec_float_identity(sub.op, sub.args) {
                        Some((kept, op)) => {
                            assert(after.args[i] == substituted[kept as int]);
                        },
                        None => {},
                    }
                }
            }
        },
    }
}

/// The pass that writes the constants found by the analysis back into the
/// graph.
pub struct WriteBackConsts<'a, 'b, A: RealArith>(pub &'a ConditionalConstPropagation<'b, A>);

impl<'a, 'b, A: RealArith> WriteBackConsts<'a, 'b, A> {
    /// The condition of a `Split` is replaced by the literal where its value
    /// is a known constant. Other terminators are left as they are.
    pub fn visit_terminator_before_effect(
        &mut self,
        state: &BasicBlockConstants,
        term: &mut Terminator,
        _block: u32,
    )
        ensures
            final(self).0 == old(self).0,
            *final(term) == match *old(term) {
                Terminator::Split { condition, then_block, else_block, loop_head } =>
                    Terminator::Split {
                    condition: spec_substitute(old(self).0.ctx(state), condition),
                    then_block,
                    else_block,
                    loop_head,
                },
                other => other,
            },
            old(term).rewritten_to(*final(term)),
    {
        if let Terminator::Split { condition, then_block, else_block, loop_head } = *term {
            let res = EvalCtx {
                const_places: &state.constants,
                ssa_consts: &self.0.ssa_consts,
                known_params: self.0.known_params,
            }.get_operand(&condition);
            if let FlatSet::Elem(val) = res {
                *term = Terminator::Split {
                    condition: Operand::Const(val),
                    then_block,
                    else_block,
                    loop_head,
                };
            }
        }
    }

    /// The instruction is rewritten as [`spec_written_back`] says.
    pub fn visit_instruction_after_effect(
        &mut self,
        state: &BasicBlockConstants,
        instr: &mut Instruction,
        _block: u32,
        _id: usize,
    )
        ensures
            final(self).0 == old(self).0,
            final(instr)@ == spec_written_back(old(self).0.ctx(state), old(instr)@),
            old(instr)@.rewritten_to(final(instr)@),
    {
        proof {
            lemma_written_back_reads_less(self.0.ctx(state), instr@);
        }
        let val = match instr.dst {
            InstrDst::Local(local) => self.0.ssa_consts.get_option(local),
            InstrDst::Place(place) => state.constants.get_element(place),
            InstrDst::Ignore => None,
        };
        match val {
            Some(val) => {
                instr.op = Op::Copy;
                let mut args: Vec<Operand> = Vec::new();
                args.push(Operand::Const(val));
                instr.args = args;
                assert(instr.args@ =~= seq![Operand::Const(val)]);
            },
            None => {
                let eval_ctx = EvalCtx {
                    const_places: &state.constants,
                    ssa_consts: &self.0.ssa_consts,
                    known_params: self.0.known_params,
                };
                let n = instr.args.len();
                let mut i: usize = 0;
                while i < n
                    invariant
                        i <= n,
                        n == old(instr).args@.len(),
                        instr.args@.len() == n,
                        instr.op == old(instr).op,
                        instr.dst == old(instr).dst,
                        instr.src == old(instr).src,
                        eval_ctx@ == old(self).0.ctx(state),
                        forall|j: int|
                            0 <= j < i ==> instr.args@[j] == spec_substitute(
                                eval_ctx@,
                                old(instr).args@[j],
                            ),
                        forall|j: int| i <= j < n ==> instr.args@[j] == old(instr).args@[j],
                    decreases n - i,
                {
                    if let FlatSet::Elem(val) = eval_ctx.get_operand(&instr.args[i]) {
                        instr.args.set(i, Operand::Const(val));
                    }
                    i += 1;
                }
                assert(instr.args@ =~= Seq::new(
                    old(instr).args@.len(),
                    |i: int| spec_substitute(eval_ctx@, old(instr).args@[i]),
                ));
                if instr.src < 0 {
                    if let Some((kept, op)) = float_identity(instr.op, &instr.args) {
                        let arg = instr.args[kept];
                        instr.op = op;
                        let mut args: Vec<Operand> = Vec::new();
                        args.push(arg);
                        instr.args = args;
                        assert(instr.args@ =~= seq![arg]);
                    }
                }
            },
        }
    }
}

} // verus!
