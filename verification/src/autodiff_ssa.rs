//! Differentiating keeps a graph in SSA form: where every read of a
//! local came after its one definition, the same holds of the graph with
//! the derivatives.

use vstd::prelude::*;
use crate::autodiff::{
    spec_d_blocks, spec_d_dst, spec_d_instr, spec_d_instrs, spec_d_operand, spec_d_phi,
    spec_d_phis, spec_differentiate, spec_operand_fits, spec_phi_fits, spec_rule,
    spec_rule_temps, AdError, Offsets, Step, StepError,
};
use crate::behaviour::spec_plain;
use crate::graph::{BasicBlockView, CfgView, InstrDst, InstructionView, Op, Operand, PhiView};
use crate::intern::CallBackKind;

verus! {

/// What a graph is differentiated by, and how the derivatives are
/// numbered.
pub struct Ad {
    pub unknown: u32,
    pub callbacks: Seq<CallBackKind>,
    pub offsets: Offsets,
    pub originals: u32,
}

impl Ad {
    /// The first `n` of `instrs` with their derivatives.
    pub open spec fn instrs(self, instrs: Seq<InstructionView>, fresh: int, n: nat) -> Result<
        Step<Seq<InstructionView>>,
        (int, StepError),
    > {
        spec_d_instrs(instrs, self.unknown, self.callbacks, self.offsets, fresh, n)
    }

    /// One instruction with its derivative.
    pub open spec fn instr(self, instr: InstructionView, fresh: int) -> Result<
        Step<Seq<InstructionView>>,
        StepError,
    > {
        spec_d_instr(instr, self.unknown, self.callbacks, self.offsets, fresh)
    }

    /// The number of instructions that the first `n` of `instrs` become.
    pub open spec fn len(self, instrs: Seq<InstructionView>, fresh: int, n: nat) -> int {
        self.instrs(instrs, fresh, n)->Ok_0.made.len() as int
    }

    /// The number of the next temporary after the first `n` of `instrs`.
    pub open spec fn fresh(self, instrs: Seq<InstructionView>, fresh: int, n: nat) -> int {
        self.instrs(instrs, fresh, n)->Ok_0.fresh
    }

    /// The instruction gets a derivative: it was not generated, and it
    /// writes somewhere.
    pub open spec fn differentiates(self, instr: InstructionView) -> bool {
        instr.src >= 0 && !(instr.dst is Ignore)
    }

    /// The phis of the derivatives for the first `n` of `phis`.
    pub open spec fn phis(self, phis: Seq<PhiView>, n: nat) -> Option<Seq<PhiView>> {
        spec_d_phis(phis, self.offsets, self.originals, n)
    }

    /// The number of phis that are made for the first `n` of `phis`.
    pub open spec fn phi_len(self, phis: Seq<PhiView>, n: nat) -> int {
        self.phis(phis, n).unwrap().len() as int
    }

    /// The instruction among the first `n` that the instruction at
    /// position `q` of what was made belongs to.
    pub open spec fn owner(self, instrs: Seq<InstructionView>, fresh: int, n: nat, q: int) -> int
        decreases n,
    {
        if n == 0 {
            0
        } else if q >= self.len(instrs, fresh, (n - 1) as nat) {
            n - 1
        } else {
            self.owner(instrs, fresh, (n - 1) as nat, q)
        }
    }

    /// The phi among the first `n` that the phi at position `q` of what
    /// was made is the derivative of.
    pub open spec fn phi_owner(self, phis: Seq<PhiView>, n: nat, q: int) -> int
        decreases n,
    {
        if n == 0 {
            0
        } else if q >= self.phi_len(phis, (n - 1) as nat) {
            n - 1
        } else {
            self.phi_owner(phis, (n - 1) as nat, q)
        }
    }

    /// The number of the next temporary only rises.
    pub proof fn lemma_fresh_rises(self, instrs: Seq<InstructionView>, fresh: int, n: nat)
        requires
            self.instrs(instrs, fresh, n) is Ok,
        ensures
            fresh <= self.fresh(instrs, fresh, n),
        decreases n,
    {
        if n > 0 {
            self.lemma_fresh_rises(instrs, fresh, (n - 1) as nat);
        }
    }

    /// The numbers of the temporaries fit.
    pub proof fn lemma_fresh_fits(self, instrs: Seq<InstructionView>, fresh: int, n: nat)
        requires
            self.instrs(instrs, fresh, n) is Ok,
            fresh <= u32::MAX,
        ensures
            self.fresh(instrs, fresh, n) <= u32::MAX,
        decreases n,
    {
        if n > 0 {
            self.lemma_fresh_fits(instrs, fresh, (n - 1) as nat);
        }
    }

    /// What the first `k` instructions become is the beginning of what
    /// the first `n` become.
    pub proof fn lemma_instrs_prefix(
        self,
        instrs: Seq<InstructionView>,
        fresh: int,
        k: nat,
        n: nat,
    )
        requires
            k <= n,
            self.instrs(instrs, fresh, n) is Ok,
        ensures
            self.instrs(instrs, fresh, k) is Ok,
            self.len(instrs, fresh, k) <= self.len(instrs, fresh, n),
            fresh <= self.fresh(instrs, fresh, k) <= self.fresh(instrs, fresh, n),
            forall|q: int|
                0 <= q < self.len(instrs, fresh, k) ==> #[trigger] self.instrs(
                    instrs,
                    fresh,
                    n,
                )->Ok_0.made[q] == self.instrs(instrs, fresh, k)->Ok_0.made[q],
        decreases n - k,
    {
        if k < n {
            self.lemma_instrs_prefix(instrs, fresh, k, (n - 1) as nat);
        } else {
            self.lemma_fresh_rises(instrs, fresh, n);
        }
    }

    /// What instruction `k` becomes stands in what was made behind what
    /// the instructions before it became.
    pub proof fn lemma_made_at(
        self,
        instrs: Seq<InstructionView>,
        fresh: int,
        n: nat,
        k: nat,
    )
        requires
            k < n,
            self.instrs(instrs, fresh, n) is Ok,
        ensures
            self.instrs(instrs, fresh, k) is Ok,
            self.instrs(instrs, fresh, k + 1) is Ok,
            self.instr(instrs[k as int], self.fresh(instrs, fresh, k)) is Ok,
            ({
                let step = self.instr(instrs[k as int], self.fresh(instrs, fresh, k))->Ok_0;
                let made = self.instrs(instrs, fresh, n)->Ok_0.made;
                &&& self.len(instrs, fresh, k + 1) == self.len(instrs, fresh, k) + step.made.len()
                &&& self.len(instrs, fresh, k + 1) <= made.len()
                &&& self.fresh(instrs, fresh, k + 1) == step.fresh
                &&& fresh <= self.fresh(instrs, fresh, k)
                &&& step.fresh <= self.fresh(instrs, fresh, n)
                &&& forall|i: int|
                    0 <= i < step.made.len() ==> made[self.len(instrs, fresh, k) + i]
                        == #[trigger] step.made[i]
            }),
    {
        self.lemma_instrs_prefix(instrs, fresh, k + 1, n);
        self.lemma_instrs_prefix(instrs, fresh, k, k + 1);
        let step = self.instr(instrs[k as int], self.fresh(instrs, fresh, k))->Ok_0;
        let made = self.instrs(instrs, fresh, n)->Ok_0.made;
        let upto = self.instrs(instrs, fresh, k + 1)->Ok_0.made;
        let before = self.instrs(instrs, fresh, k)->Ok_0.made;
        assert(upto == before + step.made);
        assert forall|i: int| 0 <= i < step.made.len() implies made[self.len(instrs, fresh, k) + i]
            == #[trigger] step.made[i] by {
            assert(made[before.len() + i] == upto[before.len() + i]);
        }
    }

    /// Every instruction that was made belongs to one of the
    /// instructions.
    pub proof fn lemma_owner(self, instrs: Seq<InstructionView>, fresh: int, n: nat, q: int)
        requires
            self.instrs(instrs, fresh, n) is Ok,
            0 <= q < self.len(instrs, fresh, n),
        ensures
            0 <= self.owner(instrs, fresh, n, q) < n,
            self.instrs(instrs, fresh, self.owner(instrs, fresh, n, q) as nat) is Ok,
            self.instrs(instrs, fresh, (self.owner(instrs, fresh, n, q) + 1) as nat) is Ok,
            self.len(instrs, fresh, self.owner(instrs, fresh, n, q) as nat) <= q < self.len(
                instrs,
                fresh,
                (self.owner(instrs, fresh, n, q) + 1) as nat,
            ),
        decreases n,
    {
        if n > 0 {
            if q < self.len(instrs, fresh, (n - 1) as nat) {
                self.lemma_owner(instrs, fresh, (n - 1) as nat, q);
            }
        }
    }

    /// What an instruction becomes: itself, and in front of it, if it
    /// gets a derivative, the rule for its operator.
    pub proof fn lemma_step(self, instr: InstructionView, fresh: int)
        requires
            self.instr(instr, fresh) is Ok,
        ensures
            ({
                let step = self.instr(instr, fresh)->Ok_0;
                &&& step.made.len() > 0
                &&& step.made.last() == instr
                &&& !self.differentiates(instr) ==> step.made.len() == 1 && step.fresh == fresh
                &&& self.differentiates(instr) ==> {
                    &&& instr.args.len() == instr.op.arity()
                    &&& step.fresh == fresh + spec_rule_temps(instr.op)
                    &&& step.fresh <= u32::MAX
                    &&& step.made.len() == spec_rule_temps(instr.op) + 2
                    &&& spec_operand_fits(instr.args[0], self.offsets)
                    &&& spec_operand_fits(instr.args[instr.args.len() - 1], self.offsets)
                    &&& spec_d_operand(instr.args[0], self.unknown, self.callbacks, self.offsets)
                        is Some
                    &&& spec_d_operand(
                        instr.args[instr.args.len() - 1],
                        self.unknown,
                        self.callbacks,
                        self.offsets,
                    ) is Some
                    &&& forall|i: int|
                        0 <= i <= spec_rule_temps(instr.op) ==> #[trigger] step.made[i]
                            == self.rule(instr, fresh)[i]
                }
            }),
    {
        if self.differentiates(instr) {
            lemma_rule_len(
                instr.op,
                instr.args[0],
                instr.args[instr.args.len() - 1],
                spec_d_operand(instr.args[0], self.unknown, self.callbacks, self.offsets).unwrap(),
                spec_d_operand(
                    instr.args[instr.args.len() - 1],
                    self.unknown,
                    self.callbacks,
                    self.offsets,
                ).unwrap(),
                spec_d_dst(instr.dst, self.offsets),
                fresh,
            );
        }
    }

    /// The rule for the derivative of `instr`, with its temporaries
    /// numbered from `fresh`.
    pub open spec fn rule(self, instr: InstructionView, fresh: int) -> Seq<InstructionView> {
        spec_rule(
            instr.op,
            instr.args[0],
            instr.args[instr.args.len() - 1],
            spec_d_operand(instr.args[0], self.unknown, self.callbacks, self.offsets).unwrap(),
            spec_d_operand(
                instr.args[instr.args.len() - 1],
                self.unknown,
                self.callbacks,
                self.offsets,
            ).unwrap(),
            spec_d_dst(instr.dst, self.offsets),
            fresh,
        )
    }
}

impl Ad {
    /// The phi gets a phi for its derivative: it was not made for a
    /// derivative itself.
    pub open spec fn differentiates_phi(self, phi: PhiView) -> bool {
        phi.dst < self.originals
    }

    /// The phis that are made for the first `k` phis are the beginning of
    /// those that are made for the first `n`.
    pub proof fn lemma_phis_prefix(self, phis: Seq<PhiView>, k: nat, n: nat)
        requires
            k <= n,
            self.phis(phis, n) is Some,
        ensures
            self.phis(phis, k) is Some,
            self.phi_len(phis, k) <= self.phi_len(phis, n),
            forall|q: int|
                0 <= q < self.phi_len(phis, k) ==> #[trigger] self.phis(phis, n).unwrap()[q]
                    == self.phis(phis, k).unwrap()[q],
        decreases n - k,
    {
        if k < n {
            self.lemma_phis_prefix(phis, k, (n - 1) as nat);
        }
    }

    /// The phi that is made for phi `j` stands behind those that are made
    /// for the phis before it.
    pub proof fn lemma_phi_made_at(self, phis: Seq<PhiView>, n: nat, j: nat)
        requires
            j < n,
            self.phis(phis, n) is Some,
        ensures
            self.phis(phis, j) is Some,
            self.phis(phis, j + 1) is Some,
            0 <= self.phi_len(phis, j) <= self.phi_len(phis, j + 1) <= self.phi_len(phis, n),
            !self.differentiates_phi(phis[j as int]) ==> self.phi_len(phis, j + 1) == self.phi_len(
                phis,
                j,
            ),
            self.differentiates_phi(phis[j as int]) ==> {
                &&& self.phi_len(phis, j + 1) == self.phi_len(phis, j) + 1
                &&& spec_phi_fits(phis[j as int], self.offsets)
                &&& self.phis(phis, n).unwrap()[self.phi_len(phis, j)] == spec_d_phi(
                    phis[j as int],
                    self.offsets,
                )
            },
    {
        self.lemma_phis_prefix(phis, j + 1, n);
        self.lemma_phis_prefix(phis, j, j + 1);
        if self.differentiates_phi(phis[j as int]) {
            let upto = self.phis(phis, j + 1).unwrap();
            assert(self.phis(phis, n).unwrap()[self.phi_len(phis, j)] == upto[self.phi_len(
                phis,
                j,
            )]);
        }
    }

    /// Every phi that was made is the phi for the derivative of one of
    /// the phis.
    pub proof fn lemma_phi_owner(self, phis: Seq<PhiView>, n: nat, q: int)
        requires
            self.phis(phis, n) is Some,
            0 <= q < self.phi_len(phis, n),
        ensures
            0 <= self.phi_owner(phis, n, q) < n,
            self.differentiates_phi(phis[self.phi_owner(phis, n, q)]),
            self.phis(phis, self.phi_owner(phis, n, q) as nat) is Some,
            self.phi_len(phis, self.phi_owner(phis, n, q) as nat) == q,
        decreases n,
    {
        if n > 0 {
            if q < self.phi_len(phis, (n - 1) as nat) {
                self.lemma_phi_owner(phis, (n - 1) as nat, q);
            }
        }
    }

    /// The first `n` of `blocks` with the derivatives.
    pub open spec fn blocks(self, blocks: Seq<BasicBlockView>, fresh: int, n: nat) -> Result<
        Step<Seq<BasicBlockView>>,
        AdError,
    > {
        spec_d_blocks(
            blocks,
            self.unknown,
            self.callbacks,
            self.offsets,
            self.originals,
            fresh,
            n,
        )
    }

    /// The number of the next temporary after the first `n` of `blocks`.
    pub open spec fn block_fresh(self, blocks: Seq<BasicBlockView>, fresh: int, n: nat) -> int {
        self.blocks(blocks, fresh, n)->Ok_0.fresh
    }

    /// What the first `k` blocks become is the beginning of what the
    /// first `n` become, and the number of the next temporary only rises.
    pub proof fn lemma_blocks_prefix(self, blocks: Seq<BasicBlockView>, fresh: int, k: nat, n: nat)
        requires
            k <= n <= blocks.len(),
            self.blocks(blocks, fresh, n) is Ok,
        ensures
            self.blocks(blocks, fresh, k) is Ok,
            self.blocks(blocks, fresh, k)->Ok_0.made.len() == k,
            self.block_fresh(blocks, fresh, k) <= self.block_fresh(blocks, fresh, n),
            forall|b: int|
                0 <= b < k ==> #[trigger] self.blocks(blocks, fresh, n)->Ok_0.made[b] == self.blocks(
                    blocks,
                    fresh,
                    k,
                )->Ok_0.made[b],
        decreases n,
    {
        if n > 0 {
            let before = self.blocks(blocks, fresh, (n - 1) as nat)->Ok_0;
            self.lemma_instrs_prefix(
                blocks[n - 1].instructions,
                before.fresh,
                0,
                blocks[n - 1].instructions.len(),
            );
            self.lemma_blocks_prefix(blocks, fresh, (n - 1) as nat, (n - 1) as nat);
            assert(before.made.len() == n - 1);
            if k < n {
                self.lemma_blocks_prefix(blocks, fresh, k, (n - 1) as nat);
                assert forall|b: int| 0 <= b < k implies #[trigger] self.blocks(
                    blocks,
                    fresh,
                    n,
                )->Ok_0.made[b] == self.blocks(blocks, fresh, k)->Ok_0.made[b] by {
                    assert(self.blocks(blocks, fresh, n)->Ok_0.made[b] == before.made[b]);
                }
            }
        }
    }

    /// The numbers of the temporaries fit.
    pub proof fn lemma_blocks_fit(self, blocks: Seq<BasicBlockView>, fresh: int, n: nat)
        requires
            n <= blocks.len(),
            self.blocks(blocks, fresh, n) is Ok,
            fresh <= u32::MAX,
        ensures
            self.block_fresh(blocks, fresh, n) <= u32::MAX,
        decreases n,
    {
        if n > 0 {
            self.lemma_blocks_fit(blocks, fresh, (n - 1) as nat);
            self.lemma_fresh_fits(
                blocks[n - 1].instructions,
                self.block_fresh(blocks, fresh, (n - 1) as nat),
                blocks[n - 1].instructions.len(),
            );
        }
    }

    /// What block `b` becomes: its phis and behind them those of the
    /// derivatives, what its instructions become, and its terminator.
    pub proof fn lemma_block_at(self, blocks: Seq<BasicBlockView>, fresh: int, n: nat, b: nat)
        requires
            b < n <= blocks.len(),
            self.blocks(blocks, fresh, n) is Ok,
        ensures
            self.blocks(blocks, fresh, b) is Ok,
            self.blocks(blocks, fresh, b + 1) is Ok,
            self.blocks(blocks, fresh, n)->Ok_0.made.len() == n,
            fresh <= self.block_fresh(blocks, fresh, b),
            self.block_fresh(blocks, fresh, b + 1) <= self.block_fresh(blocks, fresh, n),
            self.phis(blocks[b as int].phis, blocks[b as int].phis.len()) is Some,
            self.instrs(
                blocks[b as int].instructions,
                self.block_fresh(blocks, fresh, b),
                blocks[b as int].instructions.len(),
            ) is Ok,
            self.block_fresh(blocks, fresh, b + 1) == self.fresh(
                blocks[b as int].instructions,
                self.block_fresh(blocks, fresh, b),
                blocks[b as int].instructions.len(),
            ),
            self.blocks(blocks, fresh, n)->Ok_0.made[b as int] == (BasicBlockView {
                phis: blocks[b as int].phis + self.phis(
                    blocks[b as int].phis,
                    blocks[b as int].phis.len(),
                ).unwrap(),
                instructions: self.instrs(
                    blocks[b as int].instructions,
                    self.block_fresh(blocks, fresh, b),
                    blocks[b as int].instructions.len(),
                )->Ok_0.made,
                terminator: blocks[b as int].terminator,
            }),
    {
        self.lemma_blocks_prefix(blocks, fresh, n, n);
        self.lemma_blocks_prefix(blocks, fresh, b + 1, n);
        self.lemma_blocks_prefix(blocks, fresh, b, b + 1);
        self.lemma_blocks_prefix(blocks, fresh, 0, b);
        let upto = self.blocks(blocks, fresh, b + 1)->Ok_0;
        assert(self.blocks(blocks, fresh, n)->Ok_0.made[b as int] == upto.made[b as int]);
    }
}

/// A rule has one instruction for each of its temporaries, and one more.
pub proof fn lemma_rule_len(
    op: Op,
    a: Operand,
    b: Operand,
    da: Operand,
    db: Operand,
    dst: InstrDst,
    fresh: int,
)
    ensures
        spec_rule(op, a, b, da, db, dst, fresh).len() == spec_rule_temps(op) + 1,
{
}

/// The instructions of a rule write its temporaries in their order, and
/// the last of them writes the derivative. Each reads only the operands,
/// their derivatives, and temporaries that were written before it.
pub proof fn lemma_rule(
    op: Op,
    a: Operand,
    b: Operand,
    da: Operand,
    db: Operand,
    dst: InstrDst,
    fresh: int,
)
    requires
        0 <= fresh,
        fresh + spec_rule_temps(op) <= u32::MAX,
    ensures
        ({
            let rule = spec_rule(op, a, b, da, db, dst, fresh);
            let temps = spec_rule_temps(op) as int;
            &&& rule.len() == temps + 1
            &&& rule[temps].dst == dst
            &&& forall|i: int|
                0 <= i < temps ==> (#[trigger] rule[i]).dst == InstrDst::Local((fresh + i) as u32)
            &&& forall|i: int, j: int|
                0 <= i <= temps && 0 <= j < rule[i].args.len() ==> spec_rule_reads(
                    #[trigger] rule[i].args[j],
                    a,
                    b,
                    da,
                    db,
                    fresh,
                    i,
                )
        }),
{
    let rule = spec_rule(op, a, b, da, db, dst, fresh);
    let temps = spec_rule_temps(op) as int;
    assert forall|i: int, j: int| 0 <= i <= temps && 0 <= j < rule[i].args.len() implies spec_rule_reads(
        #[trigger] rule[i].args[j],
        a,
        b,
        da,
        db,
        fresh,
        i,
    ) by {
        assert(0 <= i <= 6);
        assert(rule[i].args.len() <= 2);
        let arg = rule[i].args[j];
        if i == 0 {
            assert(j == 0 || j == 1);
            assert(spec_rule_reads(arg, a, b, da, db, fresh, i));
        } else if i == 1 {
            assert(j == 0 || j == 1);
            assert(spec_rule_reads(arg, a, b, da, db, fresh, i));
        } else if i == 2 {
            assert(j == 0 || j == 1);
            assert(spec_rule_reads(arg, a, b, da, db, fresh, i));
        } else if i == 3 {
            assert(j == 0 || j == 1);
            assert(spec_rule_reads(arg, a, b, da, db, fresh, i));
        } else if i == 4 {
            assert(j == 0 || j == 1);
            assert(spec_rule_reads(arg, a, b, da, db, fresh, i));
        } else if i == 5 {
            assert(j == 0 || j == 1);
            assert(spec_rule_reads(arg, a, b, da, db, fresh, i));
        } else {
            assert(j == 0 || j == 1);
            assert(spec_rule_reads(arg, a, b, da, db, fresh, i));
        }
    }
}

/// What instruction `i` of a rule may read: a literal, an operand, the
/// derivative of one, or a temporary of the rule that was written before.
pub open spec fn spec_rule_reads(
    arg: Operand,
    a: Operand,
    b: Operand,
    da: Operand,
    db: Operand,
    fresh: int,
    i: int,
) -> bool {
    ||| arg is Const
    ||| arg == a
    ||| arg == b
    ||| arg == da
    ||| arg == db
    ||| arg matches Operand::Local(x) && fresh <= x < fresh + i
}

/// A graph with what it is differentiated by.
pub struct Derived {
    pub cfg: CfgView,
    pub ad: Ad,
}

impl Derived {
    /// `cfg`, to be differentiated by `unknown`.
    pub open spec fn of(cfg: CfgView, unknown: u32, callbacks: Seq<CallBackKind>, originals: u32)
        -> Derived {
        Derived {
            cfg,
            ad: Ad {
                unknown,
                callbacks,
                offsets: Offsets { local: cfg.next_local, place: cfg.next_place },
                originals,
            },
        }
    }

    /// The graph with the derivatives, if it can be differentiated.
    pub open spec fn result(self) -> Result<CfgView, AdError> {
        spec_differentiate(self.cfg, self.ad.unknown, self.ad.callbacks, self.ad.originals)
    }

    /// The graph can be differentiated, and the derivatives are numbered
    /// behind what the graph has.
    pub open spec fn ok(self) -> bool {
        &&& self.result() is Ok
        &&& self.ad.offsets == (Offsets { local: self.cfg.next_local, place: self.cfg.next_place })
    }

    /// The graph with the derivatives.
    pub open spec fn made(self) -> CfgView {
        self.result().unwrap()
    }

    /// The number of the first temporary.
    pub open spec fn first(self) -> int {
        2 * self.cfg.next_local
    }

    /// The number of the first temporary of block `b`.
    pub open spec fn fresh_at(self, b: int) -> int {
        self.ad.block_fresh(self.cfg.blocks, self.first(), b as nat)
    }

    /// The number of phis of block `b`.
    pub open spec fn own(self, b: int) -> int {
        self.cfg.blocks[b].phis.len() as int
    }

    /// The number of phis that are made for block `b`.
    pub open spec fn more(self, b: int) -> int {
        self.ad.phi_len(self.cfg.blocks[b].phis, self.cfg.blocks[b].phis.len())
    }

    /// The number of instructions that the first `k` instructions of
    /// block `b` become.
    pub open spec fn len(self, b: int, k: int) -> int {
        self.ad.len(self.cfg.blocks[b].instructions, self.fresh_at(b), k as nat)
    }

    /// The number of the next temporary after the first `k` instructions
    /// of block `b`.
    pub open spec fn fresh(self, b: int, k: int) -> int {
        self.ad.fresh(self.cfg.blocks[b].instructions, self.fresh_at(b), k as nat)
    }

    /// Where the instructions that are made for position `pos` of block
    /// `b` begin, for the position of an instruction or of the terminator.
    pub open spec fn start(self, b: int, pos: int) -> int {
        self.own(b) + self.more(b) + self.len(b, pos - self.own(b))
    }

    /// Where the phi or instruction at position `pos` of block `b`
    /// stands in the graph with the derivatives.
    pub open spec fn at(self, b: int, pos: int) -> int {
        if pos < self.own(b) {
            pos
        } else {
            self.start(b, pos + 1) - 1
        }
    }

    /// Where the phi or instruction stands that writes the derivative of
    /// what the phi or instruction at position `pos` of block `b` writes.
    pub open spec fn d_at(self, b: int, pos: int) -> int {
        if pos < self.own(b) {
            self.own(b) + self.ad.phi_len(self.cfg.blocks[b].phis, pos as nat)
        } else {
            self.start(b, pos + 1) - 2
        }
    }

    /// The phi or instruction at position `pos` of block `b` gets a
    /// derivative.
    pub open spec fn original_at(self, b: int, pos: int) -> bool {
        if pos < self.own(b) {
            self.ad.differentiates_phi(self.cfg.blocks[b].phis[pos])
        } else {
            self.cfg.blocks[b].instructions[pos - self.own(b)].src >= 0
        }
    }

    /// What block `b` becomes.
    pub proof fn lemma_block(self, b: int)
        requires
            self.ok(),
            0 <= b < self.cfg.blocks.len(),
        ensures
            self.first() <= u32::MAX,
            self.made().blocks.len() == self.cfg.blocks.len(),
            self.first() <= self.fresh_at(b),
            self.fresh_at(b + 1) == self.fresh(b, self.cfg.blocks[b].instructions.len() as int),
            self.fresh_at(b + 1) <= self.fresh_at(self.cfg.blocks.len() as int) <= u32::MAX,
            self.ad.phis(self.cfg.blocks[b].phis, self.cfg.blocks[b].phis.len()) is Some,
            self.ad.instrs(
                self.cfg.blocks[b].instructions,
                self.fresh_at(b),
                self.cfg.blocks[b].instructions.len(),
            ) is Ok,
            self.made().blocks[b].phis == self.cfg.blocks[b].phis + self.ad.phis(
                self.cfg.blocks[b].phis,
                self.cfg.blocks[b].phis.len(),
            ).unwrap(),
            self.made().blocks[b].phis.len() == self.own(b) + self.more(b),
            self.made().blocks[b].instructions == self.ad.instrs(
                self.cfg.blocks[b].instructions,
                self.fresh_at(b),
                self.cfg.blocks[b].instructions.len(),
            )->Ok_0.made,
            self.made().blocks[b].instructions.len() == self.len(
                b,
                self.cfg.blocks[b].instructions.len() as int,
            ),
            self.made().blocks[b].terminator == self.cfg.blocks[b].terminator,
    {
        self.ad.lemma_block_at(self.cfg.blocks, self.first(), self.cfg.blocks.len(), b as nat);
        self.ad.lemma_blocks_fit(self.cfg.blocks, self.first(), self.cfg.blocks.len());
    }

    /// The graph with the derivatives has the edges of the graph, and so
    /// a block dominates another in the one when it does in the other.
    pub proof fn lemma_same_dominance(self)
        requires
            self.ok(),
        ensures
            forall|from: int, to: int| self.cfg.has_edge(from, to) == self.made().has_edge(from, to),
            forall|path: Seq<int>| self.cfg.is_path(path) == self.made().is_path(path),
            forall|a: int, b: int| self.cfg.dominates(a, b) == self.made().dominates(a, b),
    {
        let cfg = self.cfg;
        let made = self.made();
        if cfg.blocks.len() > 0 {
            self.lemma_block(0);
        } else {
            assert(made.blocks.len() == 0);
        }
        assert forall|from: int, to: int| cfg.has_edge(from, to) == made.has_edge(from, to) by {
            if 0 <= from < cfg.blocks.len() {
                self.lemma_block(from);
            }
        }
        assert forall|path: Seq<int>| cfg.is_path(path) == made.is_path(path) by {
            if cfg.is_path(path) {
                assert forall|i: int| 0 <= i < path.len() - 1 implies made.has_edge(
                    #[trigger] path[i],
                    path[i + 1],
                ) by {
                    assert(cfg.has_edge(path[i], path[i + 1]));
                }
            }
            if made.is_path(path) {
                assert forall|i: int| 0 <= i < path.len() - 1 implies cfg.has_edge(
                    #[trigger] path[i],
                    path[i + 1],
                ) by {
                    assert(made.has_edge(path[i], path[i + 1]));
                }
            }
        }
        assert forall|a: int, b: int| cfg.dominates(a, b) == made.dominates(a, b) by {
            if cfg.dominates(a, b) {
                assert forall|path: Seq<int>| #[trigger]
                    made.is_path(path) && path.last() == b implies path.contains(a) by {
                    assert(cfg.is_path(path));
                }
            }
            if made.dominates(a, b) {
                assert forall|path: Seq<int>| #[trigger]
                    cfg.is_path(path) && path.last() == b implies path.contains(a) by {
                    assert(made.is_path(path));
                }
            }
        }
    }

    /// What the graph defines, the graph with the derivatives defines at
    /// the place where the phi or instruction now stands.
    pub proof fn lemma_has_original(self, b: int, pos: int, x: u32)
        requires
            self.ok(),
            self.cfg.defines(b, pos, x),
        ensures
            self.made().defines(b, self.at(b, pos), x),
            0 <= self.at(b, pos),
            pos >= self.own(b) ==> self.own(b) + self.more(b) <= self.at(b, pos) < self.start(
                b,
                pos + 1,
            ),
    {
        self.lemma_block(b);
        let block = self.cfg.blocks[b];
        if pos >= self.own(b) {
            let k = (pos - self.own(b)) as nat;
            self.ad.lemma_made_at(
                block.instructions,
                self.fresh_at(b),
                block.instructions.len(),
                k,
            );
            let step = self.ad.instr(block.instructions[k as int], self.fresh(b, k as int))->Ok_0;
            self.ad.lemma_step(block.instructions[k as int], self.fresh(b, k as int));
            assert(step.made[step.made.len() - 1] == block.instructions[k as int]);
        } else {
            assert(self.made().blocks[b].phis[pos] == block.phis[pos]);
        }
    }

    /// Of what the graph defines by a phi or an instruction that gets a
    /// derivative, the graph with the derivatives defines the derivative.
    pub proof fn lemma_has_derivative(self, b: int, pos: int, l: u32)
        requires
            self.ok(),
            self.cfg.defines(b, pos, l),
            self.original_at(b, pos),
        ensures
            l + self.cfg.next_local <= u32::MAX,
            self.made().defines(b, self.d_at(b, pos), (l + self.cfg.next_local) as u32),
            self.own(b) <= self.d_at(b, pos),
            pos < self.own(b) ==> self.d_at(b, pos) < self.own(b) + self.more(b),
            pos >= self.own(b) ==> self.own(b) + self.more(b) <= self.d_at(b, pos) < self.start(
                b,
                pos + 1,
            ),
    {
        self.lemma_block(b);
        let block = self.cfg.blocks[b];
        if pos >= self.own(b) {
            let k = (pos - self.own(b)) as nat;
            let instr = block.instructions[k as int];
            self.ad.lemma_made_at(
                block.instructions,
                self.fresh_at(b),
                block.instructions.len(),
                k,
            );
            let fresh = self.fresh(b, k as int);
            let step = self.ad.instr(instr, fresh)->Ok_0;
            self.ad.lemma_step(instr, fresh);
            let temps = spec_rule_temps(instr.op) as int;
            lemma_rule(
                instr.op,
                instr.args[0],
                instr.args[instr.args.len() - 1],
                spec_d_operand(
                    instr.args[0],
                    self.ad.unknown,
                    self.ad.callbacks,
                    self.ad.offsets,
                ).unwrap(),
                spec_d_operand(
                    instr.args[instr.args.len() - 1],
                    self.ad.unknown,
                    self.ad.callbacks,
                    self.ad.offsets,
                ).unwrap(),
                spec_d_dst(instr.dst, self.ad.offsets),
                fresh,
            );
            assert(step.made[temps] == self.ad.rule(instr, fresh)[temps]);
        } else {
            self.ad.lemma_phi_made_at(block.phis, block.phis.len(), pos as nat);
            let more = self.ad.phis(block.phis, block.phis.len()).unwrap();
            let q = self.ad.phi_len(block.phis, pos as nat);
            assert(self.made().blocks[b].phis[self.own(b) + q] == more[q]);
        }
    }
}

/// Where a phi or instruction of the graph with the derivatives comes
/// from.
pub enum Origin {
    /// It stood at position `pos` of the block.
    Original { pos: int },
    /// It writes the derivative of what the phi or instruction at position
    /// `pos` of the block writes.
    Derivative { pos: int },
    /// It is instruction `i` of the rule for instruction `k` of the
    /// block, and writes a temporary.
    Temporary { k: int, i: int },
}

impl Derived {
    /// Where the phi or instruction at position `p` of block `b` of the
    /// graph with the derivatives comes from.
    pub open spec fn origin(self, b: int, p: int) -> Origin {
        let block = self.cfg.blocks[b];
        if p < self.own(b) {
            Origin::Original { pos: p }
        } else if p < self.own(b) + self.more(b) {
            Origin::Derivative {
                pos: self.ad.phi_owner(block.phis, block.phis.len(), p - self.own(b)),
            }
        } else {
            let q = p - self.own(b) - self.more(b);
            let k = self.ad.owner(
                block.instructions,
                self.fresh_at(b),
                block.instructions.len(),
                q,
            );
            if q == self.len(b, k + 1) - 1 {
                Origin::Original { pos: self.own(b) + k }
            } else if q == self.len(b, k + 1) - 2 {
                Origin::Derivative { pos: self.own(b) + k }
            } else {
                Origin::Temporary { k, i: q - self.len(b, k) }
            }
        }
    }

    /// The rule for instruction `k` of block `b`.
    pub open spec fn rule(self, b: int, k: int) -> Seq<InstructionView> {
        self.ad.rule(self.cfg.blocks[b].instructions[k], self.fresh(b, k))
    }

    /// What instruction `k` of block `b` becomes stands where
    /// [`Self::start`] says: the rule for it, if it gets a derivative, and
    /// itself.
    pub proof fn lemma_segment(self, b: int, k: int)
        requires
            self.ok(),
            0 <= b < self.cfg.blocks.len(),
            0 <= k < self.cfg.blocks[b].instructions.len(),
        ensures
            ({
                let instr = self.cfg.blocks[b].instructions[k];
                let made = self.made().blocks[b].instructions;
                let temps = spec_rule_temps(instr.op) as int;
                &&& 0 <= self.len(b, k) < self.len(b, k + 1) <= made.len()
                &&& self.first() <= self.fresh_at(b) <= self.fresh(b, k) <= self.fresh(b, k + 1)
                    <= self.fresh_at(b + 1)
                &&& self.fresh(b, k + 1) <= u32::MAX
                &&& made[self.len(b, k + 1) - 1] == instr
                &&& !self.ad.differentiates(instr) ==> self.len(b, k + 1) == self.len(b, k) + 1
                &&& self.ad.differentiates(instr) ==> {
                    &&& instr.args.len() == instr.op.arity()
                    &&& self.len(b, k + 1) == self.len(b, k) + temps + 2
                    &&& self.fresh(b, k + 1) == self.fresh(b, k) + temps
                    &&& self.rule(b, k).len() == temps + 1
                    &&& self.rule(b, k)[temps].dst == spec_d_dst(instr.dst, self.ad.offsets)
                    &&& spec_operand_fits(instr.args[0], self.ad.offsets)
                    &&& spec_operand_fits(instr.args[instr.args.len() - 1], self.ad.offsets)
                    &&& spec_d_operand(
                        instr.args[0],
                        self.ad.unknown,
                        self.ad.callbacks,
                        self.ad.offsets,
                    ) is Some
                    &&& spec_d_operand(
                        instr.args[instr.args.len() - 1],
                        self.ad.unknown,
                        self.ad.callbacks,
                        self.ad.offsets,
                    ) is Some
                    &&& forall|i: int|
                        0 <= i <= temps ==> made[self.len(b, k) + i] == #[trigger] self.rule(
                            b,
                            k,
                        )[i]
                    &&& forall|i: int|
                        0 <= i < temps ==> (#[trigger] self.rule(b, k)[i]).dst == InstrDst::Local(
                            (self.fresh(b, k) + i) as u32,
                        )
                    &&& forall|i: int, j: int|
                        0 <= i <= temps && 0 <= j < self.rule(b, k)[i].args.len()
                            ==> spec_rule_reads(
                            #[trigger] self.rule(b, k)[i].args[j],
                            instr.args[0],
                            instr.args[instr.args.len() - 1],
                            spec_d_operand(
                                instr.args[0],
                                self.ad.unknown,
                                self.ad.callbacks,
                                self.ad.offsets,
                            ).unwrap(),
                            spec_d_operand(
                                instr.args[instr.args.len() - 1],
                                self.ad.unknown,
                                self.ad.callbacks,
                                self.ad.offsets,
                            ).unwrap(),
                            self.fresh(b, k),
                            i,
                        )
                }
            }),
    {
        self.lemma_block(b);
        let block = self.cfg.blocks[b];
        let instr = block.instructions[k];
        let count = block.instructions.len();
        self.ad.lemma_made_at(block.instructions, self.fresh_at(b), count, k as nat);
        self.ad.lemma_instrs_prefix(block.instructions, self.fresh_at(b), (k + 1) as nat, count);
        let fresh = self.fresh(b, k);
        let step = self.ad.instr(instr, fresh)->Ok_0;
        self.ad.lemma_step(instr, fresh);
        assert(step.made[step.made.len() - 1] == instr);
        if self.ad.differentiates(instr) {
            lemma_rule(
                instr.op,
                instr.args[0],
                instr.args[instr.args.len() - 1],
                spec_d_operand(
                    instr.args[0],
                    self.ad.unknown,
                    self.ad.callbacks,
                    self.ad.offsets,
                ).unwrap(),
                spec_d_operand(
                    instr.args[instr.args.len() - 1],
                    self.ad.unknown,
                    self.ad.callbacks,
                    self.ad.offsets,
                ).unwrap(),
                spec_d_dst(instr.dst, self.ad.offsets),
                fresh,
            );
            let made = self.made().blocks[b].instructions;
            let temps = spec_rule_temps(instr.op) as int;
            assert forall|i: int| 0 <= i <= temps implies made[self.len(b, k) + i]
                == #[trigger] self.rule(b, k)[i] by {
                assert(step.made[i] == self.ad.rule(instr, fresh)[i]);
            }
        }
    }

    /// What the instructions before an instruction become stands before
    /// what the instruction becomes.
    pub proof fn lemma_start_order(self, b: int, first: int, second: int)
        requires
            self.ok(),
            0 <= b < self.cfg.blocks.len(),
            self.own(b) <= first <= second <= self.own(b) + self.cfg.blocks[b].instructions.len(),
        ensures
            self.own(b) + self.more(b) <= self.start(b, first) <= self.start(b, second)
                <= self.made().blocks[b].phis.len() + self.made().blocks[b].instructions.len(),
            self.fresh_at(b) <= self.fresh(b, first - self.own(b)) <= self.fresh(
                b,
                second - self.own(b),
            ) <= self.fresh_at(b + 1),
    {
        self.lemma_block(b);
        let block = self.cfg.blocks[b];
        let count = block.instructions.len();
        self.ad.lemma_instrs_prefix(
            block.instructions,
            self.fresh_at(b),
            (second - self.own(b)) as nat,
            count,
        );
        self.ad.lemma_instrs_prefix(
            block.instructions,
            self.fresh_at(b),
            (first - self.own(b)) as nat,
            (second - self.own(b)) as nat,
        );
    }

    /// The temporaries of a block come behind those of the blocks before
    /// it.
    pub proof fn lemma_block_order(self, first: int, second: int)
        requires
            self.ok(),
            0 <= first <= second <= self.cfg.blocks.len(),
        ensures
            self.first() <= self.fresh_at(first) <= self.fresh_at(second),
    {
        self.ad.lemma_blocks_prefix(
            self.cfg.blocks,
            self.first(),
            second as nat,
            self.cfg.blocks.len(),
        );
        self.ad.lemma_blocks_prefix(self.cfg.blocks, self.first(), first as nat, second as nat);
        self.ad.lemma_blocks_prefix(self.cfg.blocks, self.first(), 0, first as nat);
    }

    /// Every phi and instruction of the graph with the derivatives comes
    /// from the graph as [`Self::origin`] says.
    pub proof fn lemma_origin(self, b: int, p: int)
        requires
            self.ok(),
            0 <= b < self.cfg.blocks.len(),
            0 <= p < self.made().blocks[b].phis.len() + self.made().blocks[b].instructions.len(),
        ensures
            ({
                let block = self.cfg.blocks[b];
                let made = self.made().blocks[b];
                let q = p - self.own(b) - self.more(b);
                match self.origin(b, p) {
                    Origin::Original { pos } => {
                        &&& 0 <= pos < block.phis.len() + block.instructions.len()
                        &&& p == self.at(b, pos)
                        &&& pos < self.own(b) ==> p < made.phis.len() && made.phis[p]
                            == block.phis[pos]
                        &&& pos >= self.own(b) ==> p >= made.phis.len() && made.instructions[q]
                            == block.instructions[pos - self.own(b)]
                    },
                    Origin::Derivative { pos } => {
                        &&& 0 <= pos < block.phis.len() + block.instructions.len()
                        &&& p == self.d_at(b, pos)
                        &&& pos < self.own(b) ==> {
                            &&& p < made.phis.len()
                            &&& self.ad.differentiates_phi(block.phis[pos])
                            &&& made.phis[p] == spec_d_phi(block.phis[pos], self.ad.offsets)
                        }
                        &&& pos >= self.own(b) ==> {
                            &&& p >= made.phis.len()
                            &&& self.ad.differentiates(block.instructions[pos - self.own(b)])
                            &&& made.instructions[q] == self.rule(b, pos - self.own(b))[spec_rule_temps(
                                block.instructions[pos - self.own(b)].op,
                            ) as int]
                        }
                    },
                    Origin::Temporary { k, i } => {
                        &&& 0 <= k < block.instructions.len()
                        &&& self.ad.differentiates(block.instructions[k])
                        &&& 0 <= i < spec_rule_temps(block.instructions[k].op)
                        &&& p >= made.phis.len()
                        &&& q == self.len(b, k) + i
                        &&& made.instructions[q] == self.rule(b, k)[i]
                    },
                }
            }),
    {
        self.lemma_block(b);
        let block = self.cfg.blocks[b];
        let made = self.made().blocks[b];
        if p < self.own(b) {
            assert(made.phis[p] == block.phis[p]);
        } else if p < self.own(b) + self.more(b) {
            let j = self.ad.phi_owner(block.phis, block.phis.len(), p - self.own(b));
            self.ad.lemma_phi_owner(block.phis, block.phis.len(), p - self.own(b));
            self.ad.lemma_phi_made_at(block.phis, block.phis.len(), j as nat);
            let more = self.ad.phis(block.phis, block.phis.len()).unwrap();
            assert(made.phis[p] == more[p - self.own(b)]);
        } else {
            let q = p - self.own(b) - self.more(b);
            let count = block.instructions.len();
            let k = self.ad.owner(block.instructions, self.fresh_at(b), count, q);
            self.ad.lemma_owner(block.instructions, self.fresh_at(b), count, q);
            self.lemma_segment(b, k);
            let instr = block.instructions[k];
            if self.ad.differentiates(instr) {
                let i = q - self.len(b, k);
                let temps = spec_rule_temps(instr.op) as int;
                if i <= temps {
                    assert(made.instructions[self.len(b, k) + i] == self.rule(b, k)[i]);
                }
            }
        }
    }
}

impl Derived {
    /// Instruction `k` of block `b` gets a derivative, and `l` is its
    /// first or its last operand.
    pub open spec fn operand_of(self, b: int, k: int, l: u32) -> bool {
        &&& 0 <= b < self.cfg.blocks.len()
        &&& 0 <= k < self.cfg.blocks[b].instructions.len()
        &&& self.ad.differentiates(self.cfg.blocks[b].instructions[k])
        &&& {
            let args = self.cfg.blocks[b].instructions[k].args;
            args.len() > 0 && (args[0] == Operand::Local(l) || args[args.len() - 1]
                == Operand::Local(l))
        }
    }

    /// Phi `j` of block `b` gets a phi for its derivative, and `l` is its
    /// source `s`.
    pub open spec fn source_of(self, b: int, j: int, s: int, l: u32) -> bool {
        &&& 0 <= b < self.cfg.blocks.len()
        &&& 0 <= j < self.cfg.blocks[b].phis.len()
        &&& self.ad.differentiates_phi(self.cfg.blocks[b].phis[j])
        &&& 0 <= s < self.cfg.blocks[b].phis[j].sources.len()
        &&& self.cfg.blocks[b].phis[j].sources[s].1 == l
    }

    /// Every local of the graph is below the number of its locals, and
    /// what a phi or an instruction that gets a derivative reads is
    /// written by a phi or an instruction that gets one.
    pub open spec fn closed(self) -> bool {
        &&& forall|d: int, dp: int, l: u32| #[trigger]
            self.cfg.defines(d, dp, l) ==> l < self.cfg.next_local
        &&& forall|b: int, k: int, l: u32, d: int, dp: int|
            #![trigger self.operand_of(b, k, l), self.cfg.defines(d, dp, l)]
            self.operand_of(b, k, l) && self.cfg.defines(d, dp, l) ==> self.original_at(d, dp)
        &&& forall|b: int, j: int, s: int, l: u32, d: int, dp: int|
            #![trigger self.source_of(b, j, s, l), self.cfg.defines(d, dp, l)]
            self.source_of(b, j, s, l) && self.cfg.defines(d, dp, l) ==> self.original_at(d, dp)
    }

    /// What a definition of the graph with the derivatives defines: a
    /// local of the graph, the derivative of one, or a temporary.
    pub proof fn lemma_definition(self, b: int, p: int, x: u32)
        requires
            self.ok(),
            self.closed(),
            self.made().defines(b, p, x),
        ensures
            0 <= b < self.cfg.blocks.len(),
            match self.origin(b, p) {
                Origin::Original { pos } => {
                    &&& self.cfg.defines(b, pos, x)
                    &&& p == self.at(b, pos)
                    &&& x < self.cfg.next_local
                },
                Origin::Derivative { pos } => {
                    &&& self.cfg.next_local <= x < self.first()
                    &&& self.cfg.defines(b, pos, (x - self.cfg.next_local) as u32)
                    &&& self.original_at(b, pos)
                    &&& p == self.d_at(b, pos)
                },
                Origin::Temporary { k, i } => {
                    &&& 0 <= k < self.cfg.blocks[b].instructions.len()
                    &&& 0 <= i
                    &&& x == self.fresh(b, k) + i
                    &&& x < self.fresh(b, k + 1)
                    &&& self.first() <= self.fresh_at(b) <= self.fresh(b, k)
                    &&& self.fresh(b, k + 1) <= self.fresh_at(b + 1)
                    &&& p == self.own(b) + self.more(b) + self.len(b, k) + i
                },
            },
    {
        if self.cfg.blocks.len() > 0 {
            self.lemma_block(0);
        }
        self.lemma_block(b);
        self.lemma_origin(b, p);
        let block = self.cfg.blocks[b];
        match self.origin(b, p) {
            Origin::Original { pos } => {
                assert(self.cfg.defines(b, pos, x));
            },
            Origin::Derivative { pos } => {
                if pos >= self.own(b) {
                    let k = pos - self.own(b);
                    self.lemma_segment(b, k);
                    let instr = block.instructions[k];
                    assert(instr.dst is Local);
                    let l = instr.dst->Local_0;
                    assert(self.cfg.defines(b, pos, l));
                } else {
                    self.ad.lemma_phi_made_at(block.phis, block.phis.len(), pos as nat);
                    assert(self.cfg.defines(b, pos, block.phis[pos].dst));
                }
            },
            Origin::Temporary { k, i } => {
                self.lemma_segment(b, k);
                assert(self.rule(b, k)[i].dst == InstrDst::Local((self.fresh(b, k) + i) as u32));
            },
        }
    }

    /// The graph with the derivatives defines every local once.
    pub proof fn lemma_defined_once(self, b1: int, p1: int, b2: int, p2: int, x: u32)
        requires
            self.ok(),
            self.closed(),
            self.cfg.ssa_dominance(),
            self.made().defines(b1, p1, x),
            self.made().defines(b2, p2, x),
        ensures
            b1 == b2,
            p1 == p2,
    {
        self.lemma_definition(b1, p1, x);
        self.lemma_definition(b2, p2, x);
        match (self.origin(b1, p1), self.origin(b2, p2)) {
            (Origin::Original { pos: pos1 }, Origin::Original { pos: pos2 }) => {
                assert(self.cfg.defines(b1, pos1, x) && self.cfg.defines(b2, pos2, x));
            },
            (Origin::Derivative { pos: pos1 }, Origin::Derivative { pos: pos2 }) => {
                let l = (x - self.cfg.next_local) as u32;
                assert(self.cfg.defines(b1, pos1, l) && self.cfg.defines(b2, pos2, l));
            },
            (Origin::Temporary { k: k1, i: i1 }, Origin::Temporary { k: k2, i: i2 }) => {
                if b1 < b2 {
                    self.lemma_block_order(b1 + 1, b2);
                } else if b2 < b1 {
                    self.lemma_block_order(b2 + 1, b1);
                } else if k1 < k2 {
                    self.lemma_start_order(b1, self.own(b1) + k1 + 1, self.own(b1) + k2);
                } else if k2 < k1 {
                    self.lemma_start_order(b1, self.own(b1) + k2 + 1, self.own(b1) + k1);
                }
            },
            _ => {},
        }
    }

    /// A definition of the graph that comes before position `pos` of
    /// block `b`, or in a block that dominates `b`, comes in the graph
    /// with the derivatives before everything that is made for `pos`.
    pub proof fn lemma_original_reaches(self, d: int, dp: int, x: u32, b: int, pos: int, p: int)
        requires
            self.ok(),
            self.cfg.defines(d, dp, x),
            0 <= b < self.cfg.blocks.len(),
            self.own(b) <= pos <= self.own(b) + self.cfg.blocks[b].instructions.len(),
            self.start(b, pos) <= p,
            if d == b {
                dp < pos
            } else {
                self.cfg.dominates(d, b)
            },
        ensures
            self.made().defines(d, self.at(d, dp), x),
            if d == b {
                self.at(d, dp) < p
            } else {
                self.made().dominates(d, b)
            },
    {
        self.lemma_has_original(d, dp, x);
        self.lemma_same_dominance();
        if d == b {
            if dp >= self.own(b) {
                self.lemma_start_order(b, dp + 1, pos);
            } else {
                self.lemma_start_order(b, pos, pos);
            }
        }
    }

    /// The derivative of what the graph defines before position `pos` of
    /// block `b`, or in a block that dominates `b`, is defined in the
    /// graph with the derivatives before everything that is made for
    /// `pos`.
    pub proof fn lemma_derivative_reaches(self, d: int, dp: int, l: u32, b: int, pos: int, p: int)
        requires
            self.ok(),
            self.cfg.defines(d, dp, l),
            self.original_at(d, dp),
            0 <= b < self.cfg.blocks.len(),
            self.own(b) <= pos <= self.own(b) + self.cfg.blocks[b].instructions.len(),
            self.start(b, pos) <= p,
            if d == b {
                dp < pos
            } else {
                self.cfg.dominates(d, b)
            },
        ensures
            l + self.cfg.next_local <= u32::MAX,
            self.made().defines(d, self.d_at(d, dp), (l + self.cfg.next_local) as u32),
            if d == b {
                self.d_at(d, dp) < p
            } else {
                self.made().dominates(d, b)
            },
    {
        self.lemma_has_derivative(d, dp, l);
        self.lemma_same_dominance();
        if d == b {
            if dp >= self.own(b) {
                self.lemma_start_order(b, dp + 1, pos);
            } else {
                self.lemma_start_order(b, pos, pos);
            }
        }
    }

    /// What the rule for instruction `k` of block `b` reads is defined
    /// before it.
    proof fn lemma_rule_reads(self, b: int, k: int, i: int, j: int, x: u32)
        requires
            self.ok(),
            self.closed(),
            self.cfg.ssa_dominance(),
            0 <= b < self.cfg.blocks.len(),
            0 <= k < self.cfg.blocks[b].instructions.len(),
            self.ad.differentiates(self.cfg.blocks[b].instructions[k]),
            0 <= i <= spec_rule_temps(self.cfg.blocks[b].instructions[k].op),
            0 <= j < self.rule(b, k)[i].args.len(),
            self.rule(b, k)[i].args[j] == Operand::Local(x),
        ensures
            exists|d: int, dp: int| #[trigger]
                self.made().defines(d, dp, x) && if d == b {
                    dp < self.start(b, self.own(b) + k) + i
                } else {
                    self.made().dominates(d, b)
                },
    {
        self.lemma_block(b);
        self.lemma_segment(b, k);
        let block = self.cfg.blocks[b];
        let instr = block.instructions[k];
        let pos = self.own(b) + k;
        let p = self.start(b, pos) + i;
        let a = instr.args[0];
        let c = instr.args[instr.args.len() - 1];
        let da = spec_d_operand(a, self.ad.unknown, self.ad.callbacks, self.ad.offsets).unwrap();
        let dc = spec_d_operand(c, self.ad.unknown, self.ad.callbacks, self.ad.offsets).unwrap();
        let arg = self.rule(b, k)[i].args[j];
        assert(spec_rule_reads(arg, a, c, da, dc, self.fresh(b, k), i));
        if arg == a || arg == c {
            assert(instr.args.contains(Operand::Local(x)));
            assert(self.cfg.reads(b, pos, x));
            let (d, dp) = choose|d: int, dp: int| #[trigger]
                self.cfg.defines(d, dp, x) && if d == b {
                    dp < pos
                } else {
                    self.cfg.dominates(d, b)
                };
            self.lemma_original_reaches(d, dp, x, b, pos, p);
            assert(self.made().defines(d, self.at(d, dp), x));
        } else if arg == da || arg == dc {
            let from = if arg == da {
                a
            } else {
                c
            };
            assert(from is Local);
            let l = from->Local_0;
            assert(x == l + self.cfg.next_local);
            assert(instr.args.contains(Operand::Local(l)));
            assert(self.cfg.reads(b, pos, l));
            let (d, dp) = choose|d: int, dp: int| #[trigger]
                self.cfg.defines(d, dp, l) && if d == b {
                    dp < pos
                } else {
                    self.cfg.dominates(d, b)
                };
            assert(self.operand_of(b, k, l));
            assert(self.original_at(d, dp));
            self.lemma_derivative_reaches(d, dp, l, b, pos, p);
            assert(self.made().defines(d, self.d_at(d, dp), x));
        } else {
            let t = x - self.fresh(b, k);
            assert(0 <= t < i);
            assert(self.rule(b, k)[t].dst == InstrDst::Local(x));
            let made = self.made().blocks[b];
            assert(made.instructions[self.len(b, k) + t] == self.rule(b, k)[t]);
            assert(self.made().defines(b, self.start(b, pos) + t, x));
        }
    }

    /// In the graph with the derivatives every read of a local comes
    /// after its definition.
    pub proof fn lemma_read_after_definition(self, b: int, p: int, x: u32)
        requires
            self.ok(),
            self.closed(),
            self.cfg.ssa_dominance(),
            self.made().reads(b, p, x),
        ensures
            exists|d: int, dp: int| #[trigger]
                self.made().defines(d, dp, x) && if d == b {
                    dp < p
                } else {
                    self.made().dominates(d, b)
                },
    {
        if self.cfg.blocks.len() > 0 {
            self.lemma_block(0);
        }
        self.lemma_block(b);
        let block = self.cfg.blocks[b];
        let made = self.made().blocks[b];
        let first = made.phis.len() as int;
        let end = first + made.instructions.len();
        let count = block.instructions.len() as int;
        if p == end {
            let pos = self.own(b) + count;
            assert(self.cfg.reads(b, pos, x));
            let (d, dp) = choose|d: int, dp: int| #[trigger]
                self.cfg.defines(d, dp, x) && if d == b {
                    dp < pos
                } else {
                    self.cfg.dominates(d, b)
                };
            self.lemma_original_reaches(d, dp, x, b, pos, p);
            assert(self.made().defines(d, self.at(d, dp), x));
        } else {
            let q = p - first;
            let j = choose|j: int|
                0 <= j < made.instructions[q].args.len() && made.instructions[q].args[j]
                    == Operand::Local(x);
            self.lemma_origin(b, p);
            match self.origin(b, p) {
                Origin::Original { pos } => {
                    assert(block.instructions[pos - self.own(b)].args.contains(Operand::Local(x)));
                    assert(self.cfg.reads(b, pos, x));
                    let (d, dp) = choose|d: int, dp: int| #[trigger]
                        self.cfg.defines(d, dp, x) && if d == b {
                            dp < pos
                        } else {
                            self.cfg.dominates(d, b)
                        };
                    self.lemma_segment(b, pos - self.own(b));
                    self.lemma_original_reaches(d, dp, x, b, pos, p);
                    assert(self.made().defines(d, self.at(d, dp), x));
                },
                Origin::Derivative { pos } => {
                    let k = pos - self.own(b);
                    let i = spec_rule_temps(block.instructions[k].op) as int;
                    self.lemma_segment(b, k);
                    self.lemma_rule_reads(b, k, i, j, x);
                },
                Origin::Temporary { k, i } => {
                    self.lemma_segment(b, k);
                    self.lemma_rule_reads(b, k, i, j, x);
                },
            }
        }
    }

    /// In the graph with the derivatives, what a phi reads on an edge is
    /// defined in a block that dominates the block the edge comes from.
    pub proof fn lemma_phi_read_after_definition(self, pred: int, x: u32)
        requires
            self.ok(),
            self.closed(),
            self.cfg.ssa_dominance(),
            self.made().phi_reads(pred, x),
        ensures
            exists|d: int, dp: int| #[trigger]
                self.made().defines(d, dp, x) && self.made().dominates(d, pred),
    {
        if self.cfg.blocks.len() > 0 {
            self.lemma_block(0);
        }
        self.lemma_same_dominance();
        let made = self.made();
        let (b, kk, j) = choose|b: int, kk: int, j: int|
            0 <= b < made.blocks.len() && 0 <= kk < made.blocks[b].phis.len() && 0 <= j
                < made.blocks[b].phis[kk].sources.len() && (
            #[trigger] made.blocks[b].phis[kk].sources[j]) == (pred as u32, x) && 0 <= pred
                <= u32::MAX;
        self.lemma_block(b);
        self.lemma_origin(b, kk);
        let block = self.cfg.blocks[b];
        match self.origin(b, kk) {
            Origin::Original { pos } => {
                assert(block.phis[pos].sources[j] == (pred as u32, x));
                assert(self.cfg.phi_reads(pred, x));
                let (d, dp) = choose|d: int, dp: int| #[trigger]
                    self.cfg.defines(d, dp, x) && self.cfg.dominates(d, pred);
                self.lemma_has_original(d, dp, x);
                assert(made.defines(d, self.at(d, dp), x));
            },
            Origin::Derivative { pos } => {
                self.ad.lemma_phi_made_at(block.phis, block.phis.len(), pos as nat);
                let l = block.phis[pos].sources[j].1;
                assert(block.phis[pos].sources[j] == (pred as u32, l));
                assert(x == l + self.cfg.next_local);
                assert(self.cfg.phi_reads(pred, l));
                let (d, dp) = choose|d: int, dp: int| #[trigger]
                    self.cfg.defines(d, dp, l) && self.cfg.dominates(d, pred);
                assert(self.source_of(b, pos, j, l));
                assert(self.original_at(d, dp));
                self.lemma_has_derivative(d, dp, l);
                assert(made.defines(d, self.d_at(d, dp), x));
            },
            Origin::Temporary { k, i } => {},
        }
    }
}

/// A graph in which every phi and every instruction gets a derivative,
/// and every local is below the number of its locals, is one in which
/// what a phi or an instruction that gets a derivative reads is written by
/// a phi or an instruction that gets one.
pub proof fn lemma_all_original_is_closed(
    cfg: CfgView,
    unknown: u32,
    callbacks: Seq<CallBackKind>,
    originals: u32,
)
    requires
        forall|d: int, dp: int, l: u32| #[trigger] cfg.defines(d, dp, l) ==> l < cfg.next_local,
        forall|b: int, j: int|
            0 <= b < cfg.blocks.len() && 0 <= j < cfg.blocks[b].phis.len() ==> (
            #[trigger] cfg.blocks[b].phis[j]).dst < originals,
        forall|b: int, k: int|
            0 <= b < cfg.blocks.len() && 0 <= k < cfg.blocks[b].instructions.len() ==> (
            #[trigger] cfg.blocks[b].instructions[k]).src >= 0,
    ensures
        Derived::of(cfg, unknown, callbacks, originals).closed(),
{
    let derived = Derived::of(cfg, unknown, callbacks, originals);
    assert forall|d: int, dp: int, l: u32| #[trigger] cfg.defines(d, dp, l) implies derived.original_at(
        d,
        dp,
    ) by {
        let block = cfg.blocks[d];
        if dp < block.phis.len() {
            assert(block.phis[dp].dst < originals);
        } else {
            assert(block.instructions[dp - block.phis.len()].src >= 0);
        }
    }
}

/// Differentiating keeps SSA dominance. Let every local of a graph be
/// below the number of its locals, and let what a phi or an instruction
/// that gets a derivative reads be written by a phi or an instruction that
/// gets one. If every read of a local comes after its one definition in the
/// graph, then it does so in the graph with the derivatives.
pub proof fn lemma_differentiate_keeps_ssa_dominance(
    cfg: CfgView,
    unknown: u32,
    callbacks: Seq<CallBackKind>,
    originals: u32,
)
    requires
        cfg.ssa_dominance(),
        Derived::of(cfg, unknown, callbacks, originals).closed(),
        spec_differentiate(cfg, unknown, callbacks, originals) is Ok,
    ensures
        spec_differentiate(cfg, unknown, callbacks, originals).unwrap().ssa_dominance(),
{
    let derived = Derived::of(cfg, unknown, callbacks, originals);
    let made = derived.made();
    assert forall|b1: int, p1: int, b2: int, p2: int, local: u32|
        #![trigger made.defines(b1, p1, local), made.defines(b2, p2, local)]
        made.defines(b1, p1, local) && made.defines(b2, p2, local) implies b1 == b2 && p1 == p2 by {
        derived.lemma_defined_once(b1, p1, b2, p2, local);
    }
    assert forall|b: int, pos: int, local: u32| #[trigger]
        made.reads(b, pos, local) implies exists|d: int, dp: int| #[trigger]
        made.defines(d, dp, local) && if d == b {
            dp < pos
        } else {
            made.dominates(d, b)
        } by {
        derived.lemma_read_after_definition(b, pos, local);
    }
    assert forall|pred: int, local: u32| #[trigger]
        made.phi_reads(pred, local) implies exists|d: int, dp: int| #[trigger]
        made.defines(d, dp, local) && made.dominates(d, pred) by {
        derived.lemma_phi_read_after_definition(pred, local);
    }
}

/// A graph as it comes from lowering stays in SSA form when it is
/// differentiated, by whatever parameter.
pub proof fn lemma_plain_differentiates_in_ssa(
    cfg: CfgView,
    unknown: u32,
    callbacks: Seq<CallBackKind>,
    originals: u32,
)
    requires
        cfg.ssa_dominance(),
        spec_plain(cfg),
        spec_differentiate(cfg, unknown, callbacks, originals) is Ok,
    ensures
        spec_differentiate(cfg, unknown, callbacks, originals).unwrap().ssa_dominance(),
{
    lemma_all_original_is_closed(cfg, unknown, callbacks, originals);
    lemma_differentiate_keeps_ssa_dominance(cfg, unknown, callbacks, originals);
}

} // verus!
