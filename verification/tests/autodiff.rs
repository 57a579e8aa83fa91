use ahash::AHashMap;
use va_midend::autodiff::{differentiate, AdError, AutoDiff, Offsets, GENERATED};
use va_midend::data_flow::{iterate_to_fixpoint, write_back_consts};
use va_midend::eval::{Answers, NoRealArith};
use va_midend::graph::{
    BasicBlockData, Const, ControlFlowGraph, InstrDst, Instruction, Op, Operand, Phi, Terminator,
};
use va_midend::intern::CallBackKind;
use va_midend::propagation::ConditionalConstPropagation;
use va_midend::ssa_constants::SsaConstants;

const A: Operand = Operand::Param(0);
const B: Operand = Operand::Param(1);

fn lit(x: f64) -> Operand {
    Operand::Const(Const::Real(x.to_bits()))
}

fn user(op: Op, args: Vec<Operand>, dst: u32) -> Instruction {
    Instruction { op, args, dst: InstrDst::Local(dst), src: 0 }
}

fn made(op: Op, args: Vec<Operand>, dst: u32) -> (Op, Vec<Operand>, InstrDst, i32) {
    (op, args, InstrDst::Local(dst), GENERATED)
}

fn shape(block: &BasicBlockData) -> Vec<(Op, Vec<Operand>, InstrDst, i32)> {
    block.instructions.iter().map(|i| (i.op, i.args.clone(), i.dst, i.src)).collect()
}

/// `_0 = a * b; _1 = _0 + a`
fn product_plus() -> ControlFlowGraph {
    ControlFlowGraph {
        blocks: vec![BasicBlockData {
            phis: vec![],
            instructions: vec![
                user(Op::RealMul, vec![A, B], 0),
                user(Op::RealAdd, vec![Operand::Local(0), A], 1),
            ],
            terminator: Terminator::Return,
        }],
        next_local: 2,
        next_place: 0,
    }
}

/// The derivative of `a*b + a` by `a` is `1*b + a*0 + 1`, and `b + 1` once
/// the constants are propagated.
#[test]
fn derivative_of_a_product_plus_the_unknown() {
    let mut cfg = product_plus();
    let offsets = differentiate(&mut cfg, 0, &vec![], 2).unwrap();
    assert_eq!(offsets, Offsets { local: 2, place: 0 });
    assert_eq!(cfg.next_local, 6);
    let l = Operand::Local;
    assert_eq!(
        shape(&cfg.blocks[0]),
        vec![
            made(Op::RealMul, vec![lit(1.0), B], 4),
            made(Op::RealMul, vec![A, lit(0.0)], 5),
            made(Op::RealAdd, vec![l(4), l(5)], 2),
            (Op::RealMul, vec![A, B], InstrDst::Local(0), 0),
            made(Op::RealAdd, vec![l(2), lit(1.0)], 3),
            (Op::RealAdd, vec![l(0), A], InstrDst::Local(1), 0),
        ]
    );

    let known = AHashMap::new();
    let arith = NoRealArith;
    let mut analysis = ConditionalConstPropagation {
        ssa_consts: SsaConstants::new(cfg.next_local as usize),
        known_params: &known,
        real_arith: &arith,
    };
    let results = iterate_to_fixpoint(&mut analysis, &cfg);
    write_back_consts(&analysis, &mut cfg, &results, &mut Answers::new());
    assert_eq!(
        shape(&cfg.blocks[0]),
        vec![
            // 1 * b is b
            made(Op::Copy, vec![B], 4),
            // a * 0 is 0
            made(Op::Copy, vec![lit(0.0)], 5),
            // b + 0 is b
            made(Op::Copy, vec![l(4)], 2),
            (Op::RealMul, vec![A, B], InstrDst::Local(0), 0),
            // b + 1
            made(Op::RealAdd, vec![l(2), lit(1.0)], 3),
            (Op::RealAdd, vec![l(0), A], InstrDst::Local(1), 0),
        ]
    );
}

/// d[a + b] = d[a] + d[b], and d[c * a] = c * d[a] after the constants are
/// propagated.
#[test]
fn differentiation_is_linear() {
    // _0 = a * a; _1 = b * b; _2 = _0 + _1; _3 = 3 * _0
    let mut cfg = ControlFlowGraph {
        blocks: vec![BasicBlockData {
            phis: vec![],
            instructions: vec![
                user(Op::RealMul, vec![A, A], 0),
                user(Op::RealMul, vec![B, B], 1),
                user(Op::RealAdd, vec![Operand::Local(0), Operand::Local(1)], 2),
                user(Op::RealMul, vec![lit(3.0), Operand::Local(0)], 3),
            ],
            terminator: Terminator::Return,
        }],
        next_local: 4,
        next_place: 0,
    };
    differentiate(&mut cfg, 0, &vec![], 4).unwrap();
    let l = Operand::Local;
    let block = shape(&cfg.blocks[0]);
    // the derivative of the sum: one instruction that adds the derivatives
    assert!(block.contains(&made(Op::RealAdd, vec![l(4), l(5)], 6)));
    assert_eq!(block.iter().filter(|i| i.2 == InstrDst::Local(6)).count(), 1);

    let known = AHashMap::new();
    let arith = NoRealArith;
    let mut analysis = ConditionalConstPropagation {
        ssa_consts: SsaConstants::new(cfg.next_local as usize),
        known_params: &known,
        real_arith: &arith,
    };
    let results = iterate_to_fixpoint(&mut analysis, &cfg);
    write_back_consts(&analysis, &mut cfg, &results, &mut Answers::new());
    let block = shape(&cfg.blocks[0]);
    // d_3 is a copy of the temporary that holds 3 * d_0
    let d3 = block.iter().find(|i| i.2 == InstrDst::Local(7)).unwrap();
    assert_eq!(d3.0, Op::Copy);
    let Operand::Local(t) = d3.1[0] else { panic!("{d3:?}") };
    assert!(block.contains(&made(Op::RealMul, vec![lit(3.0), l(4)], t)));
}

#[test]
fn derivatives_are_made_once_for_each_unknown() {
    let mut cfg = product_plus();
    let callbacks = vec![CallBackKind::Derivative(0), CallBackKind::Intrinsic(3)];
    let mut ad = AutoDiff::new(&cfg);
    assert_eq!(ad.derivative(&mut cfg, &callbacks, 1, 0), Ok(Operand::Local(3)));
    let after_first = shape(&cfg.blocks[0]);
    assert_eq!(after_first.len(), 6);
    // asked again, the graph stays as it is
    assert_eq!(ad.derivative(&mut cfg, &callbacks, 0, 0), Ok(Operand::Local(2)));
    assert_eq!(shape(&cfg.blocks[0]), after_first);
    // another unknown: only what the user wrote is differentiated again
    assert_eq!(ad.derivative(&mut cfg, &callbacks, 1, 1), Ok(Operand::Local(1 + 6)));
    assert_eq!(cfg.blocks[0].instructions.len(), 10);
    assert_eq!(cfg.next_local, 12 + 2);
    assert_eq!(ad.done.len(), 2);
    assert_eq!(ad.derivative(&mut cfg, &callbacks, u32::MAX, 1), Err(AdError::OutOfRange));
}

#[test]
fn what_cannot_be_differentiated() {
    let callbacks = vec![CallBackKind::Derivative(1), CallBackKind::Intrinsic(3)];
    let mut cfg = product_plus();
    cfg.blocks[0].instructions.push(user(Op::RealAdd, vec![Operand::CallBack(1), A], 1));
    let before = shape(&cfg.blocks[0]);
    assert_eq!(
        differentiate(&mut cfg, 0, &callbacks, 2),
        Err(AdError::Unsupported { block: 0, index: 2 })
    );
    assert_eq!(shape(&cfg.blocks[0]), before);
    assert_eq!(cfg.next_local, 2);

    // the request for a derivative is one for the unknown and zero for any other
    cfg.blocks[0].instructions[2] = user(Op::Copy, vec![Operand::CallBack(0)], 1);
    differentiate(&mut cfg, 1, &callbacks, 2).unwrap();
    assert_eq!(shape(&cfg.blocks[0])[6], made(Op::Copy, vec![lit(1.0)], 3));

    let mut cfg = product_plus();
    cfg.blocks[0].instructions[0].args.pop();
    assert_eq!(
        differentiate(&mut cfg, 0, &callbacks, 2),
        Err(AdError::Unsupported { block: 0, index: 0 })
    );
    let mut cfg = product_plus();
    cfg.next_local = u32::MAX / 2 + 1;
    assert_eq!(differentiate(&mut cfg, 0, &callbacks, 2), Err(AdError::OutOfRange));
}

#[test]
fn places_and_phis_have_derivatives_too() {
    // p0 = a / b in the first block; _1 = phi(_0); _2 = exp(p0)
    let mut cfg = ControlFlowGraph {
        blocks: vec![
            BasicBlockData {
                phis: vec![],
                instructions: vec![
                    Instruction {
                        op: Op::RealDiv,
                        args: vec![A, B],
                        dst: InstrDst::Place(0),
                        src: 0,
                    },
                    user(Op::IntToReal, vec![Operand::Const(Const::Int(1))], 0),
                    Instruction { op: Op::Sin, args: vec![A], dst: InstrDst::Ignore, src: 0 },
                ],
                terminator: Terminator::Goto { target: 1 },
            },
            BasicBlockData {
                phis: vec![Phi { dst: 1, sources: vec![(0, 0)] }],
                instructions: vec![user(Op::Exp, vec![Operand::Place(0)], 2)],
                terminator: Terminator::Return,
            },
        ],
        next_local: 3,
        next_place: 1,
    };
    differentiate(&mut cfg, 1, &vec![], 3).unwrap();
    assert_eq!(cfg.next_place, 2);
    let l = Operand::Local;
    assert_eq!(
        shape(&cfg.blocks[0]),
        vec![
            made(Op::RealMul, vec![lit(0.0), B], 6),
            made(Op::RealMul, vec![A, lit(1.0)], 7),
            made(Op::RealSub, vec![l(6), l(7)], 8),
            made(Op::RealMul, vec![B, B], 9),
            (Op::RealDiv, vec![l(8), l(9)], InstrDst::Place(1), GENERATED),
            (Op::RealDiv, vec![A, B], InstrDst::Place(0), 0),
            made(Op::Copy, vec![lit(0.0)], 3),
            (Op::IntToReal, vec![Operand::Const(Const::Int(1))], InstrDst::Local(0), 0),
            (Op::Sin, vec![A], InstrDst::Ignore, 0),
        ]
    );
    assert_eq!(cfg.blocks[1].phis.len(), 2);
    assert_eq!(cfg.blocks[1].phis[1].dst, 4);
    assert_eq!(cfg.blocks[1].phis[1].sources, vec![(0, 3)]);
    assert_eq!(
        shape(&cfg.blocks[1]),
        vec![
            made(Op::Exp, vec![Operand::Place(0)], 10),
            made(Op::RealMul, vec![l(10), Operand::Place(1)], 5),
            (Op::Exp, vec![Operand::Place(0)], InstrDst::Local(2), 0),
        ]
    );
    assert!(cfg.phis_well_formed() && cfg.targets_exist());
}
