use ahash::AHashMap;
use va_midend::data_flow::{iterate_to_fixpoint, write_back_consts};
use va_midend::eval::{combine, fold, Answers, EvalCtx, NoRealArith, RealArith};
use va_midend::graph::{
    BasicBlockData, Const, ControlFlowGraph, InstrDst, Instruction, Op, Operand, Phi, Terminator,
};
use va_midend::lattice::{FlatSet, SparseFlatSetMap};
use va_midend::propagation::{
    BasicBlockConstants, ConditionalConstPropagation, SplitEdges,
};
use va_midend::ssa_constants::SsaConstants;

/// Arithmetic of the machine.
struct Machine;

impl RealArith for Machine {
    fn eval(&self, op: Op, lhs: Const, rhs: Const) -> Option<Const> {
        let a = match lhs {
            Const::Real(bits) => f64::from_bits(bits),
            Const::Int(i) => return Some(Const::Real((i as f64).to_bits())),
            _ => return None,
        };
        let b = match rhs {
            Const::Real(bits) => f64::from_bits(bits),
            _ => return None,
        };
        let res = match op {
            Op::RealAdd => a + b,
            Op::RealSub => a - b,
            Op::RealMul => a * b,
            Op::RealDiv => a / b,
            Op::Sqrt => a.sqrt(),
            Op::Exp => a.exp(),
            Op::Ln => a.ln(),
            Op::Sin => a.sin(),
            Op::Cos => a.cos(),
            Op::Pow => a.powf(b),
            Op::RealToInt => return Some(Const::Int(a.round() as i32)),
            _ => return None,
        };
        Some(Const::Real(res.to_bits()))
    }
}

fn lit(x: f64) -> Operand {
    Operand::Const(Const::Real(x.to_bits()))
}

fn instr(op: Op, args: Vec<Operand>, dst: InstrDst, src: i32) -> Instruction {
    Instruction { op, args, dst, src }
}

fn block(instructions: Vec<Instruction>, terminator: Terminator) -> BasicBlockData {
    BasicBlockData { phis: vec![], instructions, terminator }
}

fn goto(target: u32) -> Terminator {
    Terminator::Goto { target }
}

fn split(condition: Operand, then_block: u32, else_block: u32) -> Terminator {
    Terminator::Split { condition, then_block, else_block, loop_head: false }
}

/// The branch on `3.141 + 2.0 <= 10.0` is folded.
#[test]
fn constant_branch_is_folded() {
    let mut cfg = ControlFlowGraph {
        blocks: vec![
            block(
                vec![
                    instr(Op::RealAdd, vec![lit(3.141), lit(2.0)], InstrDst::Local(0), 0),
                    instr(Op::RealLe, vec![Operand::Local(0), lit(10.0)], InstrDst::Local(1), 0),
                ],
                split(Operand::Local(1), 1, 2),
            ),
            block(vec![], goto(3)),
            block(vec![], goto(3)),
            block(vec![], Terminator::Return),
        ],
        next_local: 2,
        next_place: 0,
    };
    assert!(cfg.targets_exist());
    let known = AHashMap::new();
    let machine = Machine;
    let mut analysis = ConditionalConstPropagation {
        ssa_consts: SsaConstants::new(2),
        known_params: &known,
        real_arith: &machine,
    };
    let results = iterate_to_fixpoint(&mut analysis, &cfg);
    assert_eq!(results.entry_sets.len(), 4);
    assert!(results.entry_sets[0].reachable);
    assert!(results.entry_sets[1].reachable);
    assert!(!results.entry_sets[2].reachable);
    assert!(results.entry_sets[3].reachable);
    assert_eq!(analysis.ssa_consts.get(0), FlatSet::Elem(Const::Real((3.141f64 + 2.0).to_bits())));
    assert_eq!(analysis.ssa_consts.get(1), FlatSet::Elem(Const::Bool(true)));

    write_back_consts(&analysis, &mut cfg, &results, &mut Answers::new());
    let first = &cfg.blocks[0];
    assert_eq!(first.instructions[1].op, Op::Copy);
    assert_eq!(first.instructions[1].args, vec![Operand::Const(Const::Bool(true))]);
    assert_eq!(first.instructions[1].dst, InstrDst::Local(1));
    assert_eq!(first.instructions[0].op, Op::Copy);
    assert_eq!(first.instructions[0].args, vec![lit(3.141 + 2.0)]);
    assert_eq!(first.terminator, split(Operand::Const(Const::Bool(true)), 1, 2));
    assert_eq!(cfg.blocks[1].terminator, goto(3));
    assert_eq!(cfg.blocks[2].terminator, goto(3));
}

/// A write in a block that is never reached does not reach the join.
#[test]
fn unreachable_write_does_not_reach_the_join() {
    let one = Operand::Const(Const::Int(1));
    let two = Operand::Const(Const::Int(2));
    let cfg = ControlFlowGraph {
        blocks: vec![
            block(
                vec![instr(Op::Copy, vec![one], InstrDst::Place(0), 0)],
                split(Operand::Const(Const::Bool(true)), 1, 2),
            ),
            block(vec![], goto(3)),
            block(vec![instr(Op::Copy, vec![two], InstrDst::Place(0), 0)], goto(3)),
            block(vec![], Terminator::Return),
        ],
        next_local: 0,
        next_place: 1,
    };
    let known = AHashMap::new();
    let arith = NoRealArith;
    let mut analysis = ConditionalConstPropagation {
        ssa_consts: SsaConstants::new(0),
        known_params: &known,
        real_arith: &arith,
    };
    let results = iterate_to_fixpoint(&mut analysis, &cfg);
    assert!(!results.entry_sets[2].reachable);
    assert_eq!(results.entry_sets[0].constants.get_flat_set(0), FlatSet::Top);
    assert_eq!(results.entry_sets[1].constants.get_flat_set(0), FlatSet::Elem(Const::Int(1)));
    assert_eq!(results.entry_sets[3].constants.get_flat_set(0), FlatSet::Elem(Const::Int(1)));
    assert_eq!(results.entry_sets[2].constants.get_flat_set(0), FlatSet::Bottom);
}

/// With an unknown condition both writes reach the join and disagree.
#[test]
fn writes_on_both_paths_meet_at_top() {
    let one = Operand::Const(Const::Int(1));
    let two = Operand::Const(Const::Int(2));
    let cfg = ControlFlowGraph {
        blocks: vec![
            block(vec![], split(Operand::Param(0), 1, 2)),
            block(vec![instr(Op::Copy, vec![one], InstrDst::Place(0), 0)], goto(3)),
            block(vec![instr(Op::Copy, vec![two], InstrDst::Place(0), 0)], goto(3)),
            block(vec![], Terminator::Return),
        ],
        next_local: 0,
        next_place: 1,
    };
    let known = AHashMap::new();
    let arith = NoRealArith;
    let mut analysis = ConditionalConstPropagation {
        ssa_consts: SsaConstants::new(0),
        known_params: &known,
        real_arith: &arith,
    };
    let results = iterate_to_fixpoint(&mut analysis, &cfg);
    assert!(results.entry_sets[1].reachable && results.entry_sets[2].reachable);
    assert_eq!(results.entry_sets[3].constants.get_flat_set(0), FlatSet::Top);

    // with the parameter fixed, only one path is left
    let mut known = AHashMap::new();
    known.insert(0u32, Const::Bool(false));
    let mut analysis = ConditionalConstPropagation {
        ssa_consts: SsaConstants::new(0),
        known_params: &known,
        real_arith: &arith,
    };
    let results = iterate_to_fixpoint(&mut analysis, &cfg);
    assert!(!results.entry_sets[1].reachable && results.entry_sets[2].reachable);
    assert_eq!(results.entry_sets[3].constants.get_flat_set(0), FlatSet::Elem(Const::Int(2)));
}

/// A counter in a loop: the phi at the head joins 0 with the incremented value.
#[test]
fn loop_counter_rises_to_top() {
    let cfg = ControlFlowGraph {
        blocks: vec![
            block(
                vec![instr(Op::Copy, vec![Operand::Const(Const::Int(0))], InstrDst::Local(0), 0)],
                goto(1),
            ),
            BasicBlockData {
                phis: vec![Phi { dst: 1, sources: vec![(0, 0), (2, 2)] }],
                instructions: vec![instr(
                    Op::IntLt,
                    vec![Operand::Local(1), Operand::Const(Const::Int(10))],
                    InstrDst::Local(3),
                    0,
                )],
                terminator: Terminator::Split {
                    condition: Operand::Local(3),
                    then_block: 2,
                    else_block: 3,
                    loop_head: true,
                },
            },
            block(
                vec![instr(
                    Op::IntAdd,
                    vec![Operand::Local(1), Operand::Const(Const::Int(1))],
                    InstrDst::Local(2),
                    0,
                )],
                goto(1),
            ),
            block(vec![], Terminator::Return),
        ],
        next_local: 4,
        next_place: 0,
    };
    assert!(cfg.phis_well_formed());
    let known = AHashMap::new();
    let arith = NoRealArith;
    let mut analysis = ConditionalConstPropagation {
        ssa_consts: SsaConstants::new(4),
        known_params: &known,
        real_arith: &arith,
    };
    let results = iterate_to_fixpoint(&mut analysis, &cfg);
    assert_eq!(analysis.ssa_consts.get(0), FlatSet::Elem(Const::Int(0)));
    assert_eq!(analysis.ssa_consts.get(1), FlatSet::Top);
    assert_eq!(analysis.ssa_consts.get(2), FlatSet::Top);
    assert_eq!(analysis.ssa_consts.get(3), FlatSet::Top);
    assert!(results.entry_sets.iter().all(|state| state.reachable));
}

#[test]
fn phis_without_a_source_per_predecessor_are_found() {
    let mut cfg = ControlFlowGraph {
        blocks: vec![
            block(vec![], split(Operand::Param(0), 1, 2)),
            block(vec![], goto(2)),
            BasicBlockData {
                phis: vec![Phi { dst: 0, sources: vec![(0, 5), (1, 6)] }],
                instructions: vec![],
                terminator: Terminator::Return,
            },
        ],
        next_local: 7,
        next_place: 0,
    };
    assert_eq!(cfg.predecessors(2), vec![0, 1]);
    assert_eq!(cfg.predecessors(0), Vec::<u32>::new());
    assert!(cfg.phis_well_formed());
    cfg.blocks[2].phis[0].sources = vec![(1, 6), (0, 5)];
    assert!(!cfg.phis_well_formed());
    cfg.blocks[2].phis[0].sources = vec![(0, 5)];
    assert!(!cfg.phis_well_formed());
    cfg.blocks[1].terminator = goto(9);
    assert!(!cfg.targets_exist());
}

#[test]
fn split_edges_follow_the_condition() {
    let known = AHashMap::new();
    let arith = NoRealArith;
    let mut analysis = ConditionalConstPropagation {
        ssa_consts: SsaConstants::new(1),
        known_params: &known,
        real_arith: &arith,
    };
    let cfg = ControlFlowGraph { blocks: vec![], next_local: 1, next_place: 2 };
    let mut state = analysis.bottom_value(&cfg);
    assert!(!state.reachable);
    assert_eq!(state.constants.domain_size(), 2);
    assert_eq!(state.constants.get_flat_set(1), FlatSet::Bottom);
    let cond = Operand::Local(0);
    assert_eq!(
        analysis.apply_split_edge_effects(&cfg, 0, &cond, &state),
        SplitEdges { then_edge: false, else_edge: false }
    );
    analysis.initialize_start_block(&cfg, &mut state);
    assert!(state.reachable);
    assert_eq!(state.constants.get_flat_set(0), FlatSet::Top);
    assert_eq!(state.constants.get_flat_set(1), FlatSet::Top);
    assert!(analysis.apply_edge_effects(&cfg, 0, &state));
    // Local 0 is still Bottom: it is no constant, so both edges are followed
    assert_eq!(
        analysis.apply_split_edge_effects(&cfg, 0, &cond, &state),
        SplitEdges { then_edge: true, else_edge: true }
    );
    analysis.ssa_consts.set(0, FlatSet::Elem(Const::Bool(false)));
    assert_eq!(
        analysis.apply_split_edge_effects(&cfg, 0, &cond, &state),
        SplitEdges { then_edge: false, else_edge: true }
    );
    analysis.ssa_consts.set(0, FlatSet::Elem(Const::Bool(true)));
    assert_eq!(analysis.ssa_consts.get(0), FlatSet::Top);
    assert_eq!(
        analysis.apply_split_edge_effects(&cfg, 0, &cond, &state),
        SplitEdges { then_edge: true, else_edge: true }
    );
}

#[test]
fn join_is_componentwise() {
    let mut a = BasicBlockConstants {
        reachable: false,
        constants: SparseFlatSetMap::new_empty(3),
        temporaries_changed: false,
    };
    let mut b = BasicBlockConstants {
        reachable: true,
        constants: SparseFlatSetMap::new_empty(3),
        temporaries_changed: false,
    };
    a.constants.set_flat_set(0, FlatSet::Elem(Const::Int(1)));
    a.constants.set_flat_set(1, FlatSet::Elem(Const::Int(1)));
    b.constants.set_flat_set(0, FlatSet::Elem(Const::Int(1)));
    b.constants.set_flat_set(1, FlatSet::Elem(Const::Int(2)));
    b.constants.set_flat_set(2, FlatSet::Elem(Const::Int(3)));
    assert!(a.join(&b));
    assert!(a.reachable);
    assert_eq!(a.constants.get_flat_set(0), FlatSet::Elem(Const::Int(1)));
    assert_eq!(a.constants.get_flat_set(1), FlatSet::Top);
    assert_eq!(a.constants.get_flat_set(2), FlatSet::Elem(Const::Int(3)));
    assert_eq!(a.constants.get_element(2), Some(Const::Int(3)));
    assert_eq!(a.constants.get_element(1), None);
    // joining the same state again changes nothing
    assert!(!a.join(&b));
    let c = a.clone();
    assert_eq!(c, a);
    let mut d = b.clone();
    d.clone_from(&a);
    assert_eq!(d, a);
    // once reachable, always reachable; once Top, always Top
    let unreachable = BasicBlockConstants {
        reachable: false,
        constants: SparseFlatSetMap::new_empty(3),
        temporaries_changed: false,
    };
    assert!(!a.join(&unreachable));
    assert!(a.reachable);
    assert_eq!(a.constants.get_flat_set(1), FlatSet::Top);
    // a key outside the domain is not tracked
    assert_eq!(a.constants.get_flat_set(3), FlatSet::Top);
    assert!(!a.constants.set_flat_set(3, FlatSet::Bottom));
}

#[test]
fn folding_of_integers_and_comparisons() {
    let int = |i: i32| Const::Int(i);
    assert_eq!(fold(Op::IntAdd, int(i32::MAX), int(1)), Some(int(i32::MIN)));
    assert_eq!(fold(Op::IntSub, int(3), int(5)), Some(int(-2)));
    assert_eq!(fold(Op::IntMul, int(-4), int(6)), Some(int(-24)));
    assert_eq!(fold(Op::IntDiv, int(7), int(2)), Some(int(3)));
    assert_eq!(fold(Op::IntDiv, int(-7), int(2)), Some(int(-3)));
    assert_eq!(fold(Op::IntDiv, int(7), int(0)), None);
    assert_eq!(fold(Op::IntDiv, int(i32::MIN), int(-1)), None);
    assert_eq!(fold(Op::IntRem, int(-7), int(2)), Some(int(-1)));
    assert_eq!(fold(Op::IntRem, int(7), int(0)), None);
    assert_eq!(fold(Op::IntArithNeg, int(5), int(5)), Some(int(-5)));
    assert_eq!(fold(Op::IntArithNeg, int(i32::MIN), int(0)), Some(int(i32::MIN)));
    assert_eq!(fold(Op::IntLt, int(1), int(2)), Some(Const::Bool(true)));
    assert_eq!(fold(Op::IntGe, int(1), int(2)), Some(Const::Bool(false)));
    assert_eq!(fold(Op::IntAdd, int(1), Const::Bool(true)), None);
    assert_eq!(fold(Op::BoolNot, Const::Bool(true), Const::Bool(true)), Some(Const::Bool(false)));
    assert_eq!(fold(Op::BoolToInt, Const::Bool(true), int(0)), Some(int(1)));
    assert_eq!(
        fold(Op::BoolToReal, Const::Bool(true), int(0)),
        Some(Const::Real(1.0f64.to_bits()))
    );
    assert_eq!(fold(Op::RealAdd, Const::Real(0), Const::Real(0)), None);

    let samples =
        [0.0, -0.0, 1.0, -1.0, 2.5, -2.5, 1e300, -1e300, f64::INFINITY, f64::NEG_INFINITY, f64::NAN,
            f64::MIN_POSITIVE, 5e-324, -5e-324];
    for &a in samples.iter() {
        for &b in samples.iter() {
            let (x, y) = (Const::Real(a.to_bits()), Const::Real(b.to_bits()));
            assert_eq!(fold(Op::RealLt, x, y), Some(Const::Bool(a < b)), "{a} < {b}");
            assert_eq!(fold(Op::RealLe, x, y), Some(Const::Bool(a <= b)), "{a} <= {b}");
            assert_eq!(fold(Op::RealGt, x, y), Some(Const::Bool(a > b)), "{a} > {b}");
            assert_eq!(fold(Op::RealGe, x, y), Some(Const::Bool(a >= b)), "{a} >= {b}");
            assert_eq!(fold(Op::RealEq, x, y), Some(Const::Bool(a == b)), "{a} == {b}");
            assert_eq!(fold(Op::RealNe, x, y), Some(Const::Bool(a != b)), "{a} != {b}");
        }
        let x = Const::Real(a.to_bits());
        assert_eq!(fold(Op::RealArithNeg, x, x), Some(Const::Real((-a).to_bits())));
        assert_eq!(fold(Op::RealToBool, x, x), Some(Const::Bool(a.to_bits() << 1 != 0)));
    }
}

#[test]
fn product_with_zero_is_zero_in_generated_code_only() {
    let zero = FlatSet::Elem(Const::Real(0.0f64.to_bits()));
    let neg_zero = FlatSet::Elem(Const::Real((-0.0f64).to_bits()));
    assert_eq!(combine(Op::RealMul, -1, zero, FlatSet::Top, None), zero);
    assert_eq!(combine(Op::RealMul, -1, FlatSet::Bottom, neg_zero, None), zero);
    assert_eq!(combine(Op::RealMul, 0, zero, FlatSet::Top, None), FlatSet::Top);
    assert_eq!(combine(Op::RealAdd, -1, zero, FlatSet::Top, None), FlatSet::Top);
    assert_eq!(combine(Op::IntAdd, 0, FlatSet::Bottom, FlatSet::Elem(Const::Int(1)), None), FlatSet::Bottom);
    assert_eq!(combine(Op::IntAdd, 0, FlatSet::Top, FlatSet::Bottom, None), FlatSet::Top);
    let two = FlatSet::Elem(Const::Real(2.0f64.to_bits()));
    let answer = Some(Const::Real(4.0f64.to_bits()));
    assert_eq!(combine(Op::RealMul, 0, two, two, answer), FlatSet::Elem(Const::Real(4.0f64.to_bits())));
    assert_eq!(combine(Op::RealMul, 0, two, two, None), FlatSet::Top);
    // an answer is not used where the operands have the wrong type
    assert_eq!(combine(Op::RealMul, 0, two, FlatSet::Elem(Const::Int(2)), answer), FlatSet::Top);
}

#[test]
fn operands_are_looked_up() {
    let mut known = AHashMap::new();
    known.insert(7u32, Const::Int(42));
    let mut ssa = SsaConstants::new(2);
    ssa.set(1, FlatSet::Elem(Const::Bool(true)));
    let mut places = SparseFlatSetMap::new_empty(2);
    places.set_flat_set(0, FlatSet::Elem(Const::Str(3)));
    let ctx = EvalCtx { const_places: &places, ssa_consts: &ssa, known_params: &known };
    assert_eq!(ctx.get_operand(&Operand::Const(Const::Int(1))), FlatSet::Elem(Const::Int(1)));
    assert_eq!(ctx.get_operand(&Operand::Local(0)), FlatSet::Bottom);
    assert_eq!(ctx.get_operand(&Operand::Local(1)), FlatSet::Elem(Const::Bool(true)));
    assert_eq!(ctx.get_operand(&Operand::Local(2)), FlatSet::Top);
    assert_eq!(ctx.get_operand(&Operand::Place(0)), FlatSet::Elem(Const::Str(3)));
    assert_eq!(ctx.get_operand(&Operand::Place(1)), FlatSet::Bottom);
    assert_eq!(ctx.get_operand(&Operand::Param(7)), FlatSet::Elem(Const::Int(42)));
    assert_eq!(ctx.get_operand(&Operand::Param(8)), FlatSet::Top);
    assert_eq!(ctx.get_operand(&Operand::CallBack(0)), FlatSet::Top);
    let args = vec![Operand::Param(7), Operand::Const(Const::Int(1))];
    assert_eq!(ctx.eval_op(&NoRealArith, Op::IntAdd, &args, 0), FlatSet::Elem(Const::Int(43)));
    assert_eq!(ctx.eval_op(&NoRealArith, Op::IntArithNeg, &args, 0), FlatSet::Top);
    let reals = vec![lit(1.5), lit(2.0)];
    assert_eq!(ctx.eval_op(&NoRealArith, Op::RealAdd, &reals, 0), FlatSet::Top);
    assert_eq!(ctx.eval_op(&Machine, Op::RealAdd, &reals, 0), FlatSet::Elem(Const::Real(3.5f64.to_bits())));
    assert_eq!(ctx.eval_op(&Machine, Op::RealAdd, &args, 0), FlatSet::Top);
}
