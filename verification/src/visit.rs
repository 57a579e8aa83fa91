//! Walking a graph with a visitor: every instruction of every block in
//! order, each with the number of its location, and at the end of a block
//! the condition on which it splits.

use vstd::prelude::*;
use crate::graph::{
    BasicBlockView, CfgView, ControlFlowGraph, Instruction, InstructionView, Operand, Phi, PhiView,
    Terminator,
};

verus! {

/// Where the instructions of a block start in the numbering of locations,
/// and the location of its terminator.
#[derive(Clone, Copy, Debug, PartialEq, Eq, Structural)]
pub struct BlockLocations {
    pub stmnt_start: u32,
    pub terminator: u32,
}

/// The numbering of the locations of a graph, block by block.
#[derive(Debug)]
pub struct InternedLocations {
    pub blocks: Vec<BlockLocations>,
}

/// What a visitor is shown, with the location it is shown at.
pub enum Visited {
    Phi(PhiView, u32),
    Instr(InstructionView, u32),
    Terminator(Terminator, u32),
    Operand(Operand, u32),
}

/// A visitor of a graph. An implementation says in `shown` what each of
/// its methods does; a walk promises which methods it calls, on what, and
/// in which order.
pub trait CfgVisitor: Sized {
    /// Being shown `event`, the visitor `self` may become `after`. Unless
    /// an implementation says more, anything may happen.
    open spec fn shown(&self, event: Visited, after: &Self) -> bool {
        true
    }

    fn visit_phi(&mut self, phi: &Phi, loc: u32, cfg: &ControlFlowGraph)
        ensures
            old(self).shown(Visited::Phi(phi@, loc), final(self)),
    ;

    fn visit_instr(&mut self, instr: &Instruction, loc: u32, cfg: &ControlFlowGraph)
        ensures
            old(self).shown(Visited::Instr(instr@, loc), final(self)),
    ;

    fn visit_terminator(&mut self, terminator: &Terminator, loc: u32, cfg: &ControlFlowGraph)
        ensures
            old(self).shown(Visited::Terminator(*terminator, loc), final(self)),
    ;

    fn visit_operand(&mut self, operand: &Operand, loc: u32, cfg: &ControlFlowGraph)
        ensures
            old(self).shown(Visited::Operand(*operand, loc), final(self)),
    ;
}

/// Shown `events` one after the other, the visitor `before` may become
/// `after`.
pub open spec fn spec_shown_all<V: CfgVisitor>(before: V, events: Seq<Visited>, after: V) -> bool
    decreases events.len(),
{
    if events.len() == 0 {
        before == after
    } else {
        exists|mid: V|
            spec_shown_all(before, events.drop_last(), mid) && #[trigger] mid.shown(
                events.last(),
                &after,
            )
    }
}

/// One more event after those shown so far.
pub proof fn lemma_shown_one_more<V: CfgVisitor>(
    before: V,
    events: Seq<Visited>,
    mid: V,
    event: Visited,
    after: V,
)
    requires
        spec_shown_all(before, events, mid),
        mid.shown(event, &after),
    ensures
        spec_shown_all(before, events.push(event), after),
{
    let all = events.push(event);
    assert(all.drop_last() =~= events);
    assert(all.last() == event);
    assert(spec_shown_all(before, all.drop_last(), mid) && mid.shown(all.last(), &after));
}

/// What a walk shows of one block: its instructions in order, the first at
/// the location where the block starts and each at the location after that
/// of the one before, and then the terminator if the block splits.
pub open spec fn spec_block_events(block: BasicBlockView, locations: BlockLocations) -> Seq<
    Visited,
> {
    let instrs = Seq::new(
        block.instructions.len(),
        |k: int| Visited::Instr(block.instructions[k], (locations.stmnt_start + k) as u32),
    );
    if block.terminator is Split {
        instrs.push(Visited::Terminator(block.terminator, locations.terminator))
    } else {
        instrs
    }
}

/// What a walk shows of the first `n` blocks.
pub open spec fn spec_events(cfg: CfgView, locations: Seq<BlockLocations>, n: nat) -> Seq<Visited>
    decreases n,
{
    if n == 0 {
        Seq::empty()
    } else {
        spec_events(cfg, locations, (n - 1) as nat) + spec_block_events(
            cfg.blocks[n - 1],
            locations[n - 1],
        )
    }
}

/// The number of blocks that have locations.
pub open spec fn spec_walked(cfg: CfgView, locations: Seq<BlockLocations>) -> nat {
    if cfg.blocks.len() <= locations.len() {
        cfg.blocks.len()
    } else {
        locations.len()
    }
}

/// The locations leave room for the instructions of each block.
pub open spec fn spec_locations_fit(cfg: CfgView, locations: Seq<BlockLocations>) -> bool {
    forall|b: int|
        0 <= b < spec_walked(cfg, locations) ==> (#[trigger] locations[b]).stmnt_start
            + cfg.blocks[b].instructions.len() <= u32::MAX
}

/// The walk over a graph with the locations of its blocks.
pub struct Visit<'a> {
    pub locations: &'a InternedLocations,
}

impl<'a> Visit<'a> {
    /// Shows `visitor` every block that has locations, as [`spec_events`]
    /// says.
    pub fn run<V: CfgVisitor>(self, visitor: &mut V, cfg: &ControlFlowGraph)
        requires
            spec_locations_fit(cfg@, self.locations.blocks@),
        ensures
            spec_shown_all(
                *old(visitor),
                spec_events(cfg@, self.locations.blocks@, spec_walked(cfg@, self.locations.blocks@)),
                *final(visitor),
            ),
    {
        let n = if cfg.blocks.len() <= self.locations.blocks.len() {
            cfg.blocks.len()
        } else {
            self.locations.blocks.len()
        };
        let ghost locs = self.locations.blocks@;
        let mut b: usize = 0;
        while b < n
            invariant
                b <= n,
                n == spec_walked(cfg@, locs),
                locs == self.locations.blocks@,
                spec_locations_fit(cfg@, locs),
                spec_shown_all(*old(visitor), spec_events(cfg@, locs, b as nat), *visitor),
            decreases n - b,
        {
            let block = &cfg.blocks[b];
            let locations = self.locations.blocks[b];
            let ghost done = spec_events(cfg@, locs, b as nat);
            let ghost here = spec_block_events(cfg@.blocks[b as int], locs[b as int]);
            let mut loc = locations.stmnt_start;
            let mut k: usize = 0;
            while k < block.instructions.len()
                invariant
                    k <= block.instructions@.len(),
                    b < n,
                    n <= cfg.blocks@.len(),
                    n <= locs.len(),
                    *block == cfg.blocks@[b as int],
                    locations == locs[b as int],
                    loc == locations.stmnt_start + k,
                    locations.stmnt_start + block.instructions@.len() <= u32::MAX,
                    here == spec_block_events(cfg@.blocks[b as int], locs[b as int]),
                    spec_shown_all(*old(visitor), done + here.take(k as int), *visitor),
                decreases block.instructions@.len() - k,
            {
                let ghost mid = *visitor;
                visitor.visit_instr(&block.instructions[k], loc, cfg);
                proof {
                    assert(cfg@.blocks[b as int].instructions[k as int] == block.instructions@[k as int]@);
                    assert(here[k as int] == Visited::Instr(block.instructions@[k as int]@, loc));
                    lemma_shown_one_more(
                        *old(visitor),
                        done + here.take(k as int),
                        mid,
                        here[k as int],
                        *visitor,
                    );
                    assert((done + here.take(k as int)).push(here[k as int]) =~= done + here.take(
                        k + 1,
                    ));
                }
                loc += 1;
                k += 1;
            }
            if let Terminator::Split { .. } = block.terminator {
                let ghost mid = *visitor;
                visitor.visit_terminator(&block.terminator, locations.terminator, cfg);
                proof {
                    lemma_shown_one_more(
                        *old(visitor),
                        done + here.take(k as int),
                        mid,
                        here[k as int],
                        *visitor,
                    );
                    assert((done + here.take(k as int)).push(here[k as int]) =~= done + here);
                }
            } else {
                assert(here.take(k as int) =~= here);
            }
            b += 1;
        }
    }
}

/// The part of a visitor that looks at single inputs.
pub trait InputVisitor: Sized {
    /// Being shown the input `input` at `loc`, the visitor `self` may
    /// become `after`.
    open spec fn input_shown(&self, input: u32, loc: u32, after: &Self) -> bool {
        true
    }

    fn visit_input(&mut self, input: u32, loc: u32, cfg: &ControlFlowGraph)
        ensures
            old(self).input_shown(input, loc, final(self)),
    ;
}

/// Shown the inputs among the first `n` of `operands` in their order, all
/// at `loc`, the visitor `before` may become `after`.
pub open spec fn spec_inputs_shown<V: InputVisitor>(
    before: V,
    operands: Seq<Operand>,
    loc: u32,
    n: nat,
    after: V,
) -> bool
    decreases n,
{
    if n == 0 {
        before == after
    } else {
        match operands[n - 1] {
            Operand::Param(input) => exists|mid: V|
                spec_inputs_shown(before, operands, loc, (n - 1) as nat, mid)
                    && #[trigger] mid.input_shown(input, loc, &after),
            _ => spec_inputs_shown(before, operands, loc, (n - 1) as nat, after),
        }
    }
}

/// A visitor that is made of one for inputs: shown an operand, it shows
/// the input that the operand reads, if it reads one; shown an instruction,
/// it looks at each operand in turn; shown a terminator that splits, it
/// looks at the condition; a phi it passes over.
pub struct Inputs<V: InputVisitor>(pub V);

impl<V: InputVisitor> CfgVisitor for Inputs<V> {
    open spec fn shown(&self, event: Visited, after: &Self) -> bool {
        match event {
            Visited::Phi(_, _) => after.0 == self.0,
            Visited::Instr(instr, loc) => spec_inputs_shown(
                self.0,
                instr.args,
                loc,
                instr.args.len(),
                after.0,
            ),
            Visited::Terminator(Terminator::Split { condition, .. }, loc) => spec_inputs_shown(
                self.0,
                seq![condition],
                loc,
                1,
                after.0,
            ),
            Visited::Terminator(_, _) => after.0 == self.0,
            Visited::Operand(operand, loc) => spec_inputs_shown(
                self.0,
                seq![operand],
                loc,
                1,
                after.0,
            ),
        }
    }

    fn visit_phi(&mut self, phi: &Phi, loc: u32, cfg: &ControlFlowGraph) {
    }

    fn visit_instr(&mut self, instr: &Instruction, loc: u32, cfg: &ControlFlowGraph) {
        let mut i: usize = 0;
        while i < instr.args.len()
            invariant
                i <= instr.args@.len(),
                spec_inputs_shown(old(self).0, instr.args@, loc, i as nat, self.0),
            decreases instr.args@.len() - i,
        {
            if let Operand::Param(input) = instr.args[i] {
                self.0.visit_input(input, loc, cfg);
            }
            i += 1;
        }
    }

    fn visit_terminator(&mut self, terminator: &Terminator, loc: u32, cfg: &ControlFlowGraph) {
        if let Terminator::Split { condition, .. } = *terminator {
            self.visit_operand(&condition, loc, cfg);
        }
    }

    fn visit_operand(&mut self, operand: &Operand, loc: u32, cfg: &ControlFlowGraph) {
        assert(spec_inputs_shown(self.0, seq![*operand], loc, 0, self.0));
        if let Operand::Param(input) = *operand {
            self.0.visit_input(input, loc, cfg);
        }
    }
}

/// A visitor that writes down every input that it is shown, with the
/// location.
#[derive(Debug)]
pub struct InputLog {
    pub seen: Vec<(u32, u32)>,
}

impl InputVisitor for InputLog {
    open spec fn input_shown(&self, input: u32, loc: u32, after: &Self) -> bool {
        after.seen@ == self.seen@.push((input, loc))
    }

    fn visit_input(&mut self, input: u32, loc: u32, cfg: &ControlFlowGraph) {
        self.seen.push((input, loc));
    }
}

/// Checks that the locations leave room for the instructions of each
/// block.
pub fn locations_fit(cfg: &ControlFlowGraph, locations: &InternedLocations) -> (res: bool)
    ensures
        res == spec_locations_fit(cfg@, locations.blocks@),
{
    let n = if cfg.blocks.len() <= locations.blocks.len() {
        cfg.blocks.len()
    } else {
        locations.blocks.len()
    };
    let mut b: usize = 0;
    while b < n
        invariant
            b <= n,
            n == spec_walked(cfg@, locations.blocks@),
            forall|c: int|
                0 <= c < b ==> (#[trigger] locations.blocks@[c]).stmnt_start
                    + cfg@.blocks[c].instructions.len() <= u32::MAX,
        decreases n - b,
    {
        assert(cfg@.blocks[b as int].instructions.len() == cfg.blocks@[b as int].instructions@.len());
        let len = cfg.blocks[b].instructions.len();
        let start = locations.blocks[b].stmnt_start as usize;
        if len > u32::MAX as usize || start > u32::MAX as usize - len {
            return false;
        }
        b += 1;
    }
    true
}

} // verus!
