use ahash::AHashMap;
use std::cell::Cell;
use va_midend::data_flow::{iterate_to_fixpoint, write_back_consts, Results};
use va_midend::eval::{Answers, Asked, EvalCtx, NoRealArith, RealArith};
use va_midend::graph::{
    BasicBlockData, Const, ControlFlowGraph, InstrDst, Instruction, Op, Operand, Phi, Terminator,
};
use va_midend::lattice::{FlatSet, SparseFlatSetMap};
use va_midend::propagation::ConditionalConstPropagation;
use va_midend::runs::settled;
use va_midend::ssa_constants::SsaConstants;

/// Adds reals, and counts how often it is asked.
struct Counting {
    asked: Cell<u32>,
}

impl RealArith for Counting {
    fn eval(&self, op: Op, lhs: Const, rhs: Const) -> Option<Const> {
        self.asked.set(self.asked.get() + 1);
        match (op, lhs, rhs) {
            (Op::RealAdd, Const::Real(a), Const::Real(b)) => {
                Some(Const::Real((f64::from_bits(a) + f64::from_bits(b)).to_bits()))
            }
            _ => None,
        }
    }
}

/// Answers each question with the number of questions before it.
struct Fickle {
    asked: Cell<i32>,
}

impl RealArith for Fickle {
    fn eval(&self, _op: Op, _lhs: Const, _rhs: Const) -> Option<Const> {
        let n = self.asked.get();
        self.asked.set(n + 1);
        Some(Const::Int(n))
    }
}

fn number(x: f64) -> Const {
    Const::Real(x.to_bits())
}

fn make(op: Op, args: Vec<Operand>, dst: InstrDst) -> Instruction {
    Instruction { op, args, dst, src: 0 }
}

fn plain(instructions: Vec<Instruction>, terminator: Terminator) -> BasicBlockData {
    BasicBlockData { phis: vec![], instructions, terminator }
}

fn branch(condition: Operand, then_block: u32, else_block: u32) -> Terminator {
    Terminator::Split { condition, then_block, else_block, loop_head: false }
}

fn folded_branch() -> ControlFlowGraph {
    ControlFlowGraph {
        blocks: vec![
            plain(
                vec![
                    make(
                        Op::RealAdd,
                        vec![Operand::Const(number(3.141)), Operand::Const(number(2.0))],
                        InstrDst::Local(0),
                    ),
                    make(
                        Op::RealLe,
                        vec![Operand::Local(0), Operand::Const(number(10.0))],
                        InstrDst::Local(1),
                    ),
                    make(Op::Copy, vec![Operand::Local(0)], InstrDst::Place(0)),
                ],
                branch(Operand::Local(1), 1, 2),
            ),
            plain(vec![], Terminator::Goto { target: 3 }),
            plain(
                vec![make(Op::Copy, vec![Operand::Const(Const::Int(7))], InstrDst::Place(0))],
                Terminator::Goto { target: 3 },
            ),
            plain(vec![], Terminator::Return),
        ],
        next_local: 2,
        next_place: 1,
    }
}

#[test]
fn a_folded_branch_is_settled() {
    let cfg = folded_branch();
    let known = AHashMap::new();
    let arith = Counting { asked: Cell::new(0) };
    let mut analysis = ConditionalConstPropagation {
        ssa_consts: SsaConstants::new(2),
        known_params: &known,
        real_arith: &arith,
    };
    let results = iterate_to_fixpoint(&mut analysis, &cfg);
    assert_eq!(results.entry_sets[3].constants.get_flat_set(0), FlatSet::Elem(number(3.141 + 2.0)));
    let mut answers = Answers::new();
    assert!(settled(&cfg, &analysis, &results, &mut answers));
    assert_eq!(
        answers.asked,
        vec![Asked {
            op: Op::RealAdd,
            lhs: number(3.141),
            rhs: number(2.0),
            answer: Some(number(3.141 + 2.0)),
        }]
    );
    // Looking again puts no new question.
    let before = arith.asked.get();
    assert!(settled(&cfg, &analysis, &results, &mut answers));
    assert_eq!(arith.asked.get(), before);
    assert_eq!(answers.asked.len(), 1);
}

#[test]
fn a_lowered_temporary_is_not_settled() {
    let cfg = folded_branch();
    let known = AHashMap::new();
    let arith = Counting { asked: Cell::new(0) };
    let mut analysis = ConditionalConstPropagation {
        ssa_consts: SsaConstants::new(2),
        known_params: &known,
        real_arith: &arith,
    };
    let results = iterate_to_fixpoint(&mut analysis, &cfg);
    // The temporaries as they were before anything was evaluated.
    let fresh = ConditionalConstPropagation {
        ssa_consts: SsaConstants::new(2),
        known_params: &known,
        real_arith: &arith,
    };
    assert!(!settled(&cfg, &fresh, &results, &mut Answers::new()));
}

#[test]
fn an_edge_that_was_not_followed_is_not_settled() {
    let cfg = folded_branch();
    let known = AHashMap::new();
    let arith = Counting { asked: Cell::new(0) };
    let mut analysis = ConditionalConstPropagation {
        ssa_consts: SsaConstants::new(2),
        known_params: &known,
        real_arith: &arith,
    };
    let mut results = iterate_to_fixpoint(&mut analysis, &cfg);
    assert!(settled(&cfg, &analysis, &results, &mut Answers::new()));
    // The join no longer holds what the first block wrote.
    results.entry_sets[3].constants = SparseFlatSetMap::new_empty(1);
    assert!(!settled(&cfg, &analysis, &results, &mut Answers::new()));
    // A state is missing.
    let short = Results { entry_sets: vec![] };
    assert!(!settled(&cfg, &analysis, &short, &mut Answers::new()));
}

/// The value of a phi at the head of a loop rises when the loop comes
/// round. The block after the head is looked at again; the block after
/// that one is not, since nothing changed on its entry, and what it
/// computed from the first value of the phi stays.
#[test]
fn a_use_two_blocks_after_a_phi_is_left_behind() {
    let cfg = ControlFlowGraph {
        blocks: vec![
            plain(
                vec![make(Op::Copy, vec![Operand::Const(Const::Int(1))], InstrDst::Local(0))],
                Terminator::Goto { target: 1 },
            ),
            BasicBlockData {
                phis: vec![Phi { dst: 1, sources: vec![(0, 0), (3, 3)] }],
                instructions: vec![],
                terminator: Terminator::Goto { target: 2 },
            },
            plain(vec![], Terminator::Goto { target: 3 }),
            plain(
                vec![
                    make(
                        Op::IntAdd,
                        vec![Operand::Local(1), Operand::Const(Const::Int(1))],
                        InstrDst::Local(2),
                    ),
                    make(Op::Copy, vec![Operand::Const(Const::Int(2))], InstrDst::Local(3)),
                ],
                branch(Operand::Param(0), 1, 4),
            ),
            plain(vec![], Terminator::Return),
        ],
        next_local: 4,
        next_place: 0,
    };
    assert!(cfg.targets_exist());
    assert!(cfg.phis_well_formed());
    let known = AHashMap::new();
    let arith = NoRealArith;
    let mut analysis = ConditionalConstPropagation {
        ssa_consts: SsaConstants::new(4),
        known_params: &known,
        real_arith: &arith,
    };
    let results = iterate_to_fixpoint(&mut analysis, &cfg);
    assert_eq!(analysis.ssa_consts.get(1), FlatSet::Top);
    assert_eq!(analysis.ssa_consts.get(2), FlatSet::Elem(Const::Int(2)));
    assert!(!settled(&cfg, &analysis, &results, &mut Answers::new()));
}

#[test]
fn a_loop_with_its_use_at_the_head_is_settled() {
    let cfg = ControlFlowGraph {
        blocks: vec![
            plain(
                vec![make(Op::Copy, vec![Operand::Const(Const::Int(0))], InstrDst::Local(0))],
                Terminator::Goto { target: 1 },
            ),
            BasicBlockData {
                phis: vec![Phi { dst: 1, sources: vec![(0, 0), (2, 2)] }],
                instructions: vec![make(
                    Op::IntLt,
                    vec![Operand::Local(1), Operand::Const(Const::Int(10))],
                    InstrDst::Local(3),
                )],
                terminator: Terminator::Split {
                    condition: Operand::Local(3),
                    then_block: 2,
                    else_block: 3,
                    loop_head: true,
                },
            },
            plain(
                vec![make(
                    Op::IntAdd,
                    vec![Operand::Local(1), Operand::Const(Const::Int(1))],
                    InstrDst::Local(2),
                )],
                Terminator::Goto { target: 1 },
            ),
            plain(vec![], Terminator::Return),
        ],
        next_local: 4,
        next_place: 0,
    };
    let known = AHashMap::new();
    let arith = NoRealArith;
    let mut analysis = ConditionalConstPropagation {
        ssa_consts: SsaConstants::new(4),
        known_params: &known,
        real_arith: &arith,
    };
    let results = iterate_to_fixpoint(&mut analysis, &cfg);
    assert!(settled(&cfg, &analysis, &results, &mut Answers::new()));
}

#[test]
fn an_answer_is_given_again() {
    let arith = Fickle { asked: Cell::new(0) };
    let mut answers = Answers::new();
    assert_eq!(answers.find(Op::RealAdd, number(1.0), number(2.0)), None);
    assert_eq!(answers.ask(&arith, Op::RealAdd, number(1.0), number(2.0)), Some(Const::Int(0)));
    assert_eq!(answers.ask(&arith, Op::RealAdd, number(2.0), number(1.0)), Some(Const::Int(1)));
    assert_eq!(answers.ask(&arith, Op::RealAdd, number(1.0), number(2.0)), Some(Const::Int(0)));
    assert_eq!(answers.ask(&arith, Op::RealSub, number(1.0), number(2.0)), Some(Const::Int(2)));
    assert_eq!(
        answers.find(Op::RealAdd, number(2.0), number(1.0)),
        Some(Some(Const::Int(1)))
    );
    assert_eq!(answers.asked.len(), 3);
    assert_eq!(arith.asked.get(), 3);
}

#[test]
fn a_recorded_evaluation_asks_once() {
    let places = SparseFlatSetMap::new_empty(0);
    let mut ssa = SsaConstants::new(1);
    ssa.set(0, FlatSet::Elem(number(1.5)));
    let known = AHashMap::new();
    let ctx = EvalCtx { const_places: &places, ssa_consts: &ssa, known_params: &known };
    let arith = Fickle { asked: Cell::new(40) };
    let mut answers = Answers::new();
    let args = vec![Operand::Local(0), Operand::Const(number(2.5))];
    let first = ctx.eval_op_recorded(&mut answers, &arith, Op::RealAdd, &args, 0);
    let second = ctx.eval_op_recorded(&mut answers, &arith, Op::RealAdd, &args, 0);
    assert_eq!(first, FlatSet::Elem(Const::Int(40)));
    assert_eq!(second, first);
    // An operator that is folded without the arithmetic puts no question.
    let sum = ctx.eval_op_recorded(
        &mut answers,
        &arith,
        Op::IntAdd,
        &vec![Operand::Const(Const::Int(2)), Operand::Const(Const::Int(3))],
        0,
    );
    assert_eq!(sum, FlatSet::Elem(Const::Int(5)));
    // An operand that is unknown puts none either.
    let open = ctx.eval_op_recorded(
        &mut answers,
        &arith,
        Op::RealAdd,
        &vec![Operand::Param(0), Operand::Const(number(2.5))],
        0,
    );
    assert_eq!(open, FlatSet::Top);
    assert_eq!(answers.asked.len(), 1);
}

#[test]
fn writing_back_asks_what_was_asked_again() {
    let mut cfg = folded_branch();
    let known = AHashMap::new();
    let arith = Counting { asked: Cell::new(0) };
    let mut analysis = ConditionalConstPropagation {
        ssa_consts: SsaConstants::new(2),
        known_params: &known,
        real_arith: &arith,
    };
    let results = iterate_to_fixpoint(&mut analysis, &cfg);
    let mut answers = Answers::new();
    assert!(settled(&cfg, &analysis, &results, &mut answers));
    let asked = arith.asked.get();
    write_back_consts(&analysis, &mut cfg, &results, &mut answers);
    assert_eq!(arith.asked.get(), asked);
    assert_eq!(answers.asked.len(), 1);
    let sum = Operand::Const(number(3.141 + 2.0));
    let first = &cfg.blocks[0];
    assert_eq!(first.instructions[0].op, Op::Copy);
    assert_eq!(first.instructions[0].args, vec![sum]);
    assert_eq!(first.instructions[1].op, Op::Copy);
    assert_eq!(first.instructions[1].args, vec![Operand::Const(Const::Bool(true))]);
    // The place holds the sum after the copy.
    assert_eq!(first.instructions[2].op, Op::Copy);
    assert_eq!(first.instructions[2].args, vec![sum]);
    assert_eq!(first.instructions[2].dst, InstrDst::Place(0));
    assert_eq!(
        first.terminator,
        Terminator::Split {
            condition: Operand::Const(Const::Bool(true)),
            then_block: 1,
            else_block: 2,
            loop_head: false,
        }
    );
    // The block that is not reached stays as it is.
    assert_eq!(cfg.blocks[2].instructions[0].args, vec![Operand::Const(Const::Int(7))]);
    assert_eq!(cfg.blocks[2].instructions[0].op, Op::Copy);
    assert_eq!(cfg.blocks[2].terminator, Terminator::Goto { target: 3 });
}

#[test]
fn writing_back_without_states_changes_nothing() {
    let mut cfg = folded_branch();
    let known = AHashMap::new();
    let arith = Counting { asked: Cell::new(0) };
    let analysis = ConditionalConstPropagation {
        ssa_consts: SsaConstants::new(2),
        known_params: &known,
        real_arith: &arith,
    };
    let none = Results { entry_sets: vec![] };
    write_back_consts(&analysis, &mut cfg, &none, &mut Answers::new());
    assert_eq!(cfg.blocks[0].instructions[0].op, Op::RealAdd);
    assert_eq!(cfg.blocks[0].instructions[1].op, Op::RealLe);
    assert_eq!(arith.asked.get(), 0);
}
