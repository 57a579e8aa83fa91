use ahash::AHashMap;
use va_midend::autodiff::{differentiate, Offsets, GENERATED};
use va_midend::behaviour::{lower, Access, Behaviour, Builder, Expr, Stmt};
use va_midend::data_flow::iterate_to_fixpoint;
use va_midend::eval::{Answers, NoRealArith};
use va_midend::graph::{
    BasicBlockData, Const, InstrDst, Op, Operand, Terminator,
};
use va_midend::intern::{ParamKind, PlaceKind};
use va_midend::lattice::FlatSet;
use va_midend::netlist::{BranchKind, Netlist};
use va_midend::propagation::ConditionalConstPropagation;
use va_midend::runs::settled;
use va_midend::ssa_constants::SsaConstants;

fn number(x: f64) -> Const {
    Const::Real(x.to_bits())
}

fn no_nets() -> Netlist {
    Netlist { nodes: vec![], branches: vec![] }
}

fn code(block: &BasicBlockData) -> Vec<(Op, Vec<Operand>, InstrDst, i32)> {
    block.instructions.iter().map(|i| (i.op, i.args.clone(), i.dst, i.src)).collect()
}

/// `v3 = p7 * p8 + p7`
fn product_plus() -> Behaviour {
    Behaviour {
        exprs: vec![
            Expr::Parameter(7),
            Expr::Parameter(8),
            Expr::Binary { op: Op::RealMul, lhs: 0, rhs: 1 },
            Expr::Binary { op: Op::RealAdd, lhs: 2, rhs: 0 },
        ],
        stmts: vec![Stmt::Assign { var: 3, value: 3 }],
        root: 0,
    }
}

#[test]
fn an_assignment_becomes_instructions_in_one_block() {
    let behaviour = product_plus();
    let netlist = no_nets();
    assert!(behaviour.well_formed(&netlist));
    let lowered = lower(&behaviour, &netlist).unwrap();
    assert_eq!(lowered.params, vec![ParamKind::Param(7), ParamKind::Param(8)]);
    assert_eq!(lowered.places, vec![PlaceKind::Var(3)]);
    assert_eq!(lowered.exit, 1);
    let cfg = &lowered.cfg;
    assert_eq!(cfg.next_local, 2);
    assert_eq!(cfg.next_place, 1);
    assert_eq!(cfg.blocks.len(), 2);
    assert!(cfg.blocks[0].instructions.is_empty());
    assert_eq!(cfg.blocks[0].terminator, Terminator::Goto { target: 1 });
    assert_eq!(
        code(&cfg.blocks[1]),
        vec![
            (Op::RealMul, vec![Operand::Param(0), Operand::Param(1)], InstrDst::Local(0), 2),
            (Op::RealAdd, vec![Operand::Local(0), Operand::Param(0)], InstrDst::Local(1), 3),
            (Op::Copy, vec![Operand::Local(1)], InstrDst::Place(0), 3),
        ]
    );
    assert_eq!(cfg.blocks[1].terminator, Terminator::Return);
    assert!(cfg.targets_exist());
    assert!(cfg.phis_well_formed());
}

#[test]
fn a_condition_becomes_a_split_and_a_join() {
    let behaviour = Behaviour {
        exprs: vec![
            Expr::Variable(0),
            Expr::Literal(number(1.0)),
            Expr::Literal(number(2.0)),
        ],
        stmts: vec![
            Stmt::Assign { var: 1, value: 1 },
            Stmt::Assign { var: 1, value: 2 },
            Stmt::If { cond: 0, then_branch: 0, else_branch: 1 },
        ],
        root: 2,
    };
    let netlist = no_nets();
    assert!(behaviour.well_formed(&netlist));
    let lowered = lower(&behaviour, &netlist).unwrap();
    assert_eq!(lowered.places, vec![PlaceKind::Var(0), PlaceKind::Var(1)]);
    assert_eq!(lowered.exit, 4);
    let blocks = &lowered.cfg.blocks;
    assert_eq!(blocks.len(), 5);
    assert_eq!(
        blocks[1].terminator,
        Terminator::Split {
            condition: Operand::Place(0),
            then_block: 2,
            else_block: 3,
            loop_head: false,
        }
    );
    assert_eq!(
        code(&blocks[2]),
        vec![(Op::Copy, vec![Operand::Const(number(1.0))], InstrDst::Place(1), 1)]
    );
    assert_eq!(blocks[2].terminator, Terminator::Goto { target: 4 });
    assert_eq!(
        code(&blocks[3]),
        vec![(Op::Copy, vec![Operand::Const(number(2.0))], InstrDst::Place(1), 2)]
    );
    assert_eq!(blocks[3].terminator, Terminator::Goto { target: 4 });
    assert!(blocks[4].instructions.is_empty());
    assert_eq!(blocks[4].terminator, Terminator::Return);
    // One block returns, and no other.
    let returns =
        blocks.iter().filter(|block| block.terminator == Terminator::Return).count();
    assert_eq!(returns, 1);

    // Both writes reach the join, so the propagation knows no constant
    // there.
    let known = AHashMap::new();
    let arith = NoRealArith;
    let mut analysis = ConditionalConstPropagation {
        ssa_consts: SsaConstants::new(lowered.cfg.next_local as usize),
        known_params: &known,
        real_arith: &arith,
    };
    let results = iterate_to_fixpoint(&mut analysis, &lowered.cfg);
    assert_eq!(results.entry_sets[4].constants.get_flat_set(1), FlatSet::Top);
    assert!(settled(&lowered.cfg, &analysis, &results, &mut Answers::new()));
}

/// `while (v0 < 10) v0 = v0 + 1;`
#[test]
fn a_loop_gets_a_head_that_is_marked() {
    let behaviour = Behaviour {
        exprs: vec![
            Expr::Variable(0),
            Expr::Literal(Const::Int(10)),
            Expr::Binary { op: Op::IntLt, lhs: 0, rhs: 1 },
            Expr::Literal(Const::Int(1)),
            Expr::Binary { op: Op::IntAdd, lhs: 0, rhs: 3 },
        ],
        stmts: vec![Stmt::Assign { var: 0, value: 4 }, Stmt::While { cond: 2, body: 0 }],
        root: 1,
    };
    let netlist = no_nets();
    assert!(behaviour.well_formed(&netlist));
    let lowered = lower(&behaviour, &netlist).unwrap();
    let blocks = &lowered.cfg.blocks;
    assert_eq!(blocks.len(), 5);
    assert_eq!(lowered.exit, 4);
    assert_eq!(lowered.cfg.next_local, 2);
    assert_eq!(blocks[1].terminator, Terminator::Goto { target: 2 });
    assert_eq!(
        code(&blocks[2]),
        vec![(
            Op::IntLt,
            vec![Operand::Place(0), Operand::Const(Const::Int(10))],
            InstrDst::Local(0),
            2
        )]
    );
    assert_eq!(
        blocks[2].terminator,
        Terminator::Split {
            condition: Operand::Local(0),
            then_block: 3,
            else_block: 4,
            loop_head: true,
        }
    );
    assert_eq!(
        code(&blocks[3]),
        vec![
            (
                Op::IntAdd,
                vec![Operand::Place(0), Operand::Const(Const::Int(1))],
                InstrDst::Local(1),
                4
            ),
            (Op::Copy, vec![Operand::Local(1)], InstrDst::Place(0), 4),
        ]
    );
    assert_eq!(blocks[3].terminator, Terminator::Goto { target: 2 });
    assert_eq!(blocks[4].terminator, Terminator::Return);
    assert_eq!(lowered.cfg.reverse_postorder(), vec![0, 1, 2, 4, 3]);

    let known = AHashMap::new();
    let arith = NoRealArith;
    let mut analysis = ConditionalConstPropagation {
        ssa_consts: SsaConstants::new(2),
        known_params: &known,
        real_arith: &arith,
    };
    let results = iterate_to_fixpoint(&mut analysis, &lowered.cfg);
    assert!(results.entry_sets.iter().all(|state| state.reachable));
    assert!(settled(&lowered.cfg, &analysis, &results, &mut Answers::new()));
}

/// `I(b0) <+ V(b0) / p5; I(b0) <+ V(b1);`
#[test]
fn contributions_add_up_from_zero() {
    let netlist = Netlist {
        nodes: vec![],
        branches: vec![BranchKind::Nodes(0, 1), BranchKind::NodeGnd(0), BranchKind::PortFlow(2)],
    };
    let behaviour = Behaviour {
        exprs: vec![
            Expr::BranchAccess { access: Access::Potential, branch: 0 },
            Expr::Parameter(5),
            Expr::Binary { op: Op::RealDiv, lhs: 0, rhs: 1 },
            Expr::BranchAccess { access: Access::Flow, branch: 2 },
            Expr::BranchAccess { access: Access::Potential, branch: 1 },
        ],
        stmts: vec![
            Stmt::Contribute { access: Access::Flow, branch: 0, value: 2 },
            Stmt::Contribute { access: Access::Flow, branch: 0, value: 4 },
            Stmt::Sequence { first: 0, then: 1 },
        ],
        root: 2,
    };
    assert!(behaviour.well_formed(&netlist));
    let lowered = lower(&behaviour, &netlist).unwrap();
    assert_eq!(
        lowered.params,
        vec![
            ParamKind::Voltage { hi: 0, lo: Some(1) },
            ParamKind::Param(5),
            ParamKind::Voltage { hi: 0, lo: None },
        ]
    );
    assert_eq!(lowered.places, vec![PlaceKind::BranchCurrent(0)]);
    let blocks = &lowered.cfg.blocks;
    assert_eq!(
        code(&blocks[0]),
        vec![(Op::Copy, vec![Operand::Const(number(0.0))], InstrDst::Place(0), 0)]
    );
    assert_eq!(blocks[0].terminator, Terminator::Goto { target: 1 });
    assert_eq!(
        code(&blocks[1]),
        vec![
            (Op::RealDiv, vec![Operand::Param(0), Operand::Param(1)], InstrDst::Local(0), 2),
            (Op::RealAdd, vec![Operand::Place(0), Operand::Local(0)], InstrDst::Place(0), 2),
            (Op::RealAdd, vec![Operand::Place(0), Operand::Param(2)], InstrDst::Place(0), 4),
        ]
    );
    assert_eq!(blocks[1].terminator, Terminator::Return);
}

#[test]
fn accesses_become_parameters() {
    let netlist = Netlist {
        nodes: vec![],
        branches: vec![BranchKind::Nodes(3, 4), BranchKind::PortFlow(9)],
    };
    let behaviour = Behaviour {
        exprs: vec![
            Expr::BranchAccess { access: Access::Flow, branch: 1 },
            Expr::Temperature,
            Expr::BranchAccess { access: Access::Flow, branch: 0 },
            Expr::Temperature,
        ],
        stmts: vec![
            Stmt::Assign { var: 0, value: 0 },
            Stmt::Assign { var: 1, value: 1 },
            Stmt::Sequence { first: 0, then: 1 },
            Stmt::Assign { var: 0, value: 2 },
            Stmt::Sequence { first: 2, then: 3 },
            Stmt::Contribute { access: Access::Potential, branch: 0, value: 3 },
            Stmt::Sequence { first: 4, then: 5 },
        ],
        root: 6,
    };
    assert!(behaviour.well_formed(&netlist));
    let lowered = lower(&behaviour, &netlist).unwrap();
    assert_eq!(
        lowered.params,
        vec![ParamKind::Current(1), ParamKind::Temperature, ParamKind::Current(0)]
    );
    assert_eq!(
        lowered.places,
        vec![PlaceKind::Var(0), PlaceKind::Var(1), PlaceKind::BranchVoltage(0)]
    );
    assert_eq!(
        code(&lowered.cfg.blocks[0]),
        vec![(Op::Copy, vec![Operand::Const(number(0.0))], InstrDst::Place(2), 0)]
    );
    assert_eq!(
        code(&lowered.cfg.blocks[1]),
        vec![
            (Op::Copy, vec![Operand::Param(0)], InstrDst::Place(0), 0),
            (Op::Copy, vec![Operand::Param(1)], InstrDst::Place(1), 1),
            (Op::Copy, vec![Operand::Param(2)], InstrDst::Place(0), 2),
            (Op::RealAdd, vec![Operand::Place(2), Operand::Param(1)], InstrDst::Place(2), 3),
        ]
    );
}

#[test]
fn an_empty_behaviour_returns_at_once() {
    let behaviour = Behaviour { exprs: vec![], stmts: vec![Stmt::Empty], root: 0 };
    let netlist = no_nets();
    assert!(behaviour.well_formed(&netlist));
    let lowered = lower(&behaviour, &netlist).unwrap();
    assert_eq!(lowered.cfg.blocks.len(), 2);
    assert_eq!(lowered.cfg.blocks[0].terminator, Terminator::Goto { target: 1 });
    assert_eq!(lowered.cfg.blocks[1].terminator, Terminator::Return);
    assert_eq!(lowered.cfg.next_local, 0);
    assert_eq!(lowered.cfg.next_place, 0);
    assert_eq!(lowered.exit, 1);
}

#[test]
fn what_names_something_later_is_not_well_formed() {
    let netlist = Netlist { nodes: vec![], branches: vec![BranchKind::PortFlow(0)] };
    let fine = Behaviour {
        exprs: vec![Expr::Temperature, Expr::Unary { op: Op::Sqrt, arg: 0 }],
        stmts: vec![Stmt::Assign { var: 0, value: 1 }],
        root: 0,
    };
    assert!(fine.well_formed(&netlist));
    let with = |exprs: Vec<Expr>, stmts: Vec<Stmt>, root: u32| {
        Behaviour { exprs, stmts, root }.well_formed(&netlist)
    };
    // An operand that comes later, or is the expression itself.
    assert!(!with(vec![Expr::Unary { op: Op::Sqrt, arg: 0 }], vec![Stmt::Empty], 0));
    assert!(!with(
        vec![Expr::Temperature, Expr::Binary { op: Op::RealAdd, lhs: 0, rhs: 2 }, Expr::Temperature],
        vec![Stmt::Empty],
        0
    ));
    // An operator with the wrong number of operands.
    assert!(!with(
        vec![Expr::Temperature, Expr::Unary { op: Op::RealAdd, arg: 0 }],
        vec![Stmt::Empty],
        0
    ));
    assert!(!with(
        vec![Expr::Temperature, Expr::Binary { op: Op::Sqrt, lhs: 0, rhs: 0 }],
        vec![Stmt::Empty],
        0
    ));
    // A branch that does not exist, and the potential of the flow through
    // a port.
    assert!(!with(
        vec![Expr::BranchAccess { access: Access::Flow, branch: 1 }],
        vec![Stmt::Empty],
        0
    ));
    assert!(!with(
        vec![Expr::BranchAccess { access: Access::Potential, branch: 0 }],
        vec![Stmt::Empty],
        0
    ));
    assert!(with(
        vec![Expr::BranchAccess { access: Access::Flow, branch: 0 }],
        vec![Stmt::Empty],
        0
    ));
    // A statement that names an expression that does not exist, a
    // statement that comes later, or no statement at all.
    assert!(!with(vec![], vec![Stmt::Assign { var: 0, value: 0 }], 0));
    assert!(!with(
        vec![Expr::Temperature],
        vec![Stmt::While { cond: 0, body: 0 }],
        0
    ));
    assert!(!with(
        vec![Expr::Temperature],
        vec![Stmt::Empty, Stmt::If { cond: 0, then_branch: 0, else_branch: 1 }],
        1
    ));
    assert!(!with(vec![], vec![Stmt::Empty, Stmt::Sequence { first: 1, then: 0 }], 1));
    assert!(!with(
        vec![Expr::Temperature],
        vec![Stmt::Contribute { access: Access::Potential, branch: 0, value: 0 }],
        0
    ));
    assert!(!with(vec![], vec![Stmt::Empty], 1));
    assert!(!with(vec![], vec![], 0));
}

#[test]
fn the_builder_numbers_what_it_is_asked_for_once() {
    let mut builder = Builder {
        blocks: vec![BasicBlockData {
            phis: vec![],
            instructions: vec![],
            terminator: Terminator::Goto { target: 0 },
        }],
        cursor: 0,
        next_local: 0,
        places: vec![],
        params: vec![],
    };
    assert_eq!(builder.place_of(PlaceKind::Var(4)), Some(0));
    assert_eq!(builder.place_of(PlaceKind::BranchVoltage(4)), Some(1));
    assert_eq!(builder.place_of(PlaceKind::Var(4)), Some(0));
    assert_eq!(builder.param_of(ParamKind::Temperature), Some(0));
    assert_eq!(builder.param_of(ParamKind::Param(0)), Some(1));
    assert_eq!(builder.param_of(ParamKind::Temperature), Some(0));
    assert_eq!(builder.places, vec![PlaceKind::Var(4), PlaceKind::BranchVoltage(4)]);
    assert_eq!(builder.params, vec![ParamKind::Temperature, ParamKind::Param(0)]);

    assert_eq!(builder.emit_local(Op::Copy, vec![Operand::Param(0)], 0), Some(0));
    assert_eq!(builder.new_block(), Some(1));
    assert_eq!(builder.blocks[1].terminator, Terminator::Goto { target: 1 });
    builder.leave(Terminator::Goto { target: 1 }, 1);
    assert_eq!(builder.cursor, 1);
    assert_eq!(builder.blocks[0].terminator, Terminator::Goto { target: 1 });
    assert_eq!(builder.emit_local(Op::Copy, vec![Operand::Param(1)], 0), Some(1));
    assert_eq!(builder.blocks[0].instructions.len(), 1);
    assert_eq!(builder.blocks[1].instructions.len(), 1);

    // No temporary is left.
    builder.next_local = u32::MAX;
    assert_eq!(builder.emit_local(Op::Copy, vec![Operand::Param(1)], 0), None);
}

/// The derivative of `p7 * p8 + p7` by the first parameter of the graph.
#[test]
fn a_lowered_graph_is_differentiated() {
    let behaviour = product_plus();
    let mut cfg = lower(&behaviour, &no_nets()).unwrap().cfg;
    let originals = cfg.next_local;
    let offsets = differentiate(&mut cfg, 0, &vec![], originals).unwrap();
    assert_eq!(offsets, Offsets { local: 2, place: 1 });
    let one = Operand::Const(number(1.0));
    let zero = Operand::Const(number(0.0));
    let local = Operand::Local;
    assert_eq!(
        code(&cfg.blocks[1]),
        vec![
            (Op::RealMul, vec![one, Operand::Param(1)], InstrDst::Local(4), GENERATED),
            (Op::RealMul, vec![Operand::Param(0), zero], InstrDst::Local(5), GENERATED),
            (Op::RealAdd, vec![local(4), local(5)], InstrDst::Local(2), GENERATED),
            (Op::RealMul, vec![Operand::Param(0), Operand::Param(1)], InstrDst::Local(0), 2),
            (Op::RealAdd, vec![local(2), one], InstrDst::Local(3), GENERATED),
            (Op::RealAdd, vec![local(0), Operand::Param(0)], InstrDst::Local(1), 3),
            (Op::Copy, vec![local(3)], InstrDst::Place(1), GENERATED),
            (Op::Copy, vec![local(1)], InstrDst::Place(0), 3),
        ]
    );
    assert_eq!(cfg.next_place, 2);
}

/// `I(n3, n4) <+ V(n3, n4); V(n3) <+ V(n3); I(n3, n4) <+ V(n3);`
#[test]
fn nodes_without_a_branch_get_places_of_their_own() {
    let behaviour = Behaviour {
        exprs: vec![
            Expr::NodeAccess { hi: 3, lo: Some(4) },
            Expr::NodeAccess { hi: 3, lo: None },
        ],
        stmts: vec![
            Stmt::ContributeNodes { access: Access::Flow, hi: 3, lo: Some(4), value: 0 },
            Stmt::ContributeNodes { access: Access::Potential, hi: 3, lo: None, value: 1 },
            Stmt::Sequence { first: 0, then: 1 },
            Stmt::ContributeNodes { access: Access::Flow, hi: 3, lo: Some(4), value: 1 },
            Stmt::Sequence { first: 2, then: 3 },
        ],
        root: 4,
    };
    let netlist = no_nets();
    assert!(behaviour.well_formed(&netlist));
    let lowered = lower(&behaviour, &netlist).unwrap();
    assert_eq!(
        lowered.params,
        vec![ParamKind::Voltage { hi: 3, lo: Some(4) }, ParamKind::Voltage { hi: 3, lo: None }]
    );
    assert_eq!(
        lowered.places,
        vec![
            PlaceKind::ImplicitBranchCurrent { hi: 3, lo: Some(4) },
            PlaceKind::ImplicitBranchVoltage { hi: 3, lo: None },
        ]
    );
    let zero = Operand::Const(number(0.0));
    assert_eq!(
        code(&lowered.cfg.blocks[0]),
        vec![
            (Op::Copy, vec![zero], InstrDst::Place(0), 0),
            (Op::Copy, vec![zero], InstrDst::Place(1), 0),
        ]
    );
    assert_eq!(
        code(&lowered.cfg.blocks[1]),
        vec![
            (Op::RealAdd, vec![Operand::Place(0), Operand::Param(0)], InstrDst::Place(0), 0),
            (Op::RealAdd, vec![Operand::Place(1), Operand::Param(1)], InstrDst::Place(1), 1),
            (Op::RealAdd, vec![Operand::Place(0), Operand::Param(1)], InstrDst::Place(0), 1),
        ]
    );
}
