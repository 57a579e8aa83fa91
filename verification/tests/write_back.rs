use ahash::AHashMap;
use va_midend::eval::NoRealArith;
use va_midend::graph::{Const, InstrDst, Instruction, Op, Operand, Terminator};
use va_midend::lattice::{FlatSet, SparseFlatSetMap};
use va_midend::propagation::{BasicBlockConstants, ConditionalConstPropagation, WriteBackConsts};
use va_midend::ssa_constants::SsaConstants;

fn real_lit(x: f64) -> Operand {
    Operand::Const(Const::Real(x.to_bits()))
}

fn state(places: usize) -> BasicBlockConstants {
    BasicBlockConstants {
        reachable: true,
        constants: SparseFlatSetMap::new_empty(places),
        temporaries_changed: false,
    }
}

#[test]
fn float_identity_is_applied_to_generated_code_only() {
    let known = AHashMap::new();
    let arith = NoRealArith;
    let analysis = ConditionalConstPropagation {
        ssa_consts: SsaConstants::new(4),
        known_params: &known,
        real_arith: &arith,
    };
    let st = state(0);

    let mut user = Instruction {
        op: Op::RealMul,
        args: vec![Operand::Param(0), real_lit(1.0)],
        dst: InstrDst::Local(1),
        src: 0,
    };
    WriteBackConsts(&analysis).visit_instruction_after_effect(&st, &mut user, 0, 0);
    assert_eq!(user.op, Op::RealMul);
    assert_eq!(user.args, vec![Operand::Param(0), real_lit(1.0)]);

    let mut generated = Instruction {
        op: Op::RealMul,
        args: vec![Operand::Param(0), real_lit(1.0)],
        dst: InstrDst::Local(1),
        src: -1,
    };
    WriteBackConsts(&analysis).visit_instruction_after_effect(&st, &mut generated, 0, 0);
    assert_eq!(generated.op, Op::Copy);
    assert_eq!(generated.args, vec![Operand::Param(0)]);
    assert_eq!(generated.dst, InstrDst::Local(1));
    assert_eq!(generated.src, -1);
}

#[test]
fn known_condition_becomes_a_literal() {
    let known = AHashMap::new();
    let arith = NoRealArith;
    let mut analysis = ConditionalConstPropagation {
        ssa_consts: SsaConstants::new(2),
        known_params: &known,
        real_arith: &arith,
    };
    analysis.ssa_consts.set(1, FlatSet::Elem(Const::Bool(true)));
    let st = state(0);
    let mut term = Terminator::Split {
        condition: Operand::Local(1),
        then_block: 1,
        else_block: 2,
        loop_head: false,
    };
    WriteBackConsts(&analysis).visit_terminator_before_effect(&st, &mut term, 0);
    assert_eq!(
        term,
        Terminator::Split {
            condition: Operand::Const(Const::Bool(true)),
            then_block: 1,
            else_block: 2,
            loop_head: false,
        }
    );
}
