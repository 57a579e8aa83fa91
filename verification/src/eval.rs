//! Evaluation of operands and operators over the constant lattice.
//!
//! Integer, boolean and comparison operators are folded here. Real numbers
//! are held by their bit patterns: comparing them and flipping their sign
//! needs no floating-point hardware and is done here too, while the
//! arithmetic proper is asked of a [`RealArith`] that the caller brings.

use vstd::prelude::*;
use crate::collections::{known_param_get, known_param_values};
use crate::graph::{Const, Op, Operand, REAL_NEG_ZERO, REAL_ONE, REAL_ZERO};
use crate::lattice::{spec_value_in, FlatSet, SparseFlatSetMap};
use crate::ssa_constants::SsaConstants;

verus! {

/// The sign bit of a real number's bit pattern.
pub const REAL_SIGN: u64 = 0x8000_0000_0000_0000;

/// Bit pattern of positive infinity; every pattern whose magnitude is above
/// it is a NaN.
pub const REAL_INFINITY: u64 = 0x7FF0_0000_0000_0000;

/// The bit pattern without its sign bit.
pub open spec fn real_magnitude(bits: u64) -> int {
    if bits >= REAL_SIGN {
        bits - REAL_SIGN
    } else {
        bits as int
    }
}

/// The bit pattern is not a number.
pub open spec fn real_is_nan(bits: u64) -> bool {
    real_magnitude(bits) > REAL_INFINITY
}

/// An integer that orders the numbers as IEEE-754 does: the magnitude,
/// negated where the sign bit is set. Both zeros get 0.
pub open spec fn real_key(bits: u64) -> int {
    if bits >= REAL_SIGN {
        -real_magnitude(bits)
    } else {
        real_magnitude(bits)
    }
}

/// `a < b` on real numbers; false when either is a NaN.
pub open spec fn real_lt(a: u64, b: u64) -> bool {
    !real_is_nan(a) && !real_is_nan(b) && real_key(a) < real_key(b)
}

/// `a == b` on real numbers; false when either is a NaN.
pub open spec fn real_eq(a: u64, b: u64) -> bool {
    !real_is_nan(a) && !real_is_nan(b) && real_key(a) == real_key(b)
}

/// `-x`: the same bit pattern with the sign bit flipped.
pub open spec fn real_neg(bits: u64) -> u64 {
    if bits >= REAL_SIGN {
        (bits - REAL_SIGN) as u64
    } else {
        (bits + REAL_SIGN) as u64
    }
}

fn real_magnitude_exec(bits: u64) -> (m: u64)
    ensures
        m == real_magnitude(bits),
{
    if bits >= REAL_SIGN {
        bits - REAL_SIGN
    } else {
        bits
    }
}

fn real_is_nan_exec(bits: u64) -> (res: bool)
    ensures
        res == real_is_nan(bits),
{
    real_magnitude_exec(bits) > REAL_INFINITY
}

fn real_lt_exec(a: u64, b: u64) -> (res: bool)
    ensures
        res == real_lt(a, b),
{
    if real_is_nan_exec(a) || real_is_nan_exec(b) {
        return false;
    }
    let ma = real_magnitude_exec(a);
    let mb = real_magnitude_exec(b);
    if a >= REAL_SIGN {
        if b >= REAL_SIGN {
            ma > mb
        } else {
            ma > 0 || mb > 0
        }
    } else {
        b < REAL_SIGN && ma < mb
    }
}

fn real_eq_exec(a: u64, b: u64) -> (res: bool)
    ensures
        res == real_eq(a, b),
{
    if real_is_nan_exec(a) || real_is_nan_exec(b) {
        return false;
    }
    let ma = real_magnitude_exec(a);
    let mb = real_magnitude_exec(b);
    a == b || (ma == 0 && mb == 0)
}

fn real_neg_exec(bits: u64) -> (res: u64)
    ensures
        res == real_neg(bits),
{
    if bits >= REAL_SIGN {
        bits - REAL_SIGN
    } else {
        bits + REAL_SIGN
    }
}

/// The operand types that `op` is defined on. For an operator of one
/// operand only `lhs` counts.
pub open spec fn spec_well_typed(op: Op, lhs: Const, rhs: Const) -> bool {
    match op {
        Op::Copy => true,
        Op::IntAdd | Op::IntSub | Op::IntMul | Op::IntDiv | Op::IntRem | Op::IntLt | Op::IntLe
        | Op::IntGt | Op::IntGe | Op::IntEq | Op::IntNe => lhs is Int && rhs is Int,
        Op::IntArithNeg | Op::IntToReal | Op::IntToBool => lhs is Int,
        Op::RealAdd | Op::RealSub | Op::RealMul | Op::RealDiv | Op::Pow | Op::RealLt | Op::RealLe
        | Op::RealGt | Op::RealGe | Op::RealEq | Op::RealNe => lhs is Real && rhs is Real,
        Op::RealArithNeg | Op::Sqrt | Op::Exp | Op::Ln | Op::Sin | Op::Cos | Op::RealToInt
        | Op::RealToBool => lhs is Real,
        Op::BoolEq | Op::BoolNe => lhs is Bool && rhs is Bool,
        Op::BoolNot | Op::BoolToInt | Op::BoolToReal => lhs is Bool,
    }
}

#[verifier::when_used_as_spec(spec_well_typed)]
pub fn well_typed(op: Op, lhs: Const, rhs: Const) -> (res: bool)
    ensures
        res == spec_well_typed(op, lhs, rhs),
{
    let l_int = match lhs {
        Const::Int(_) => true,
        _ => false,
    };
    let r_int = match rhs {
        Const::Int(_) => true,
        _ => false,
    };
    let l_real = match lhs {
        Const::Real(_) => true,
        _ => false,
    };
    let r_real = match rhs {
        Const::Real(_) => true,
        _ => false,
    };
    let l_bool = match lhs {
        Const::Bool(_) => true,
        _ => false,
    };
    let r_bool = match rhs {
        Const::Bool(_) => true,
        _ => false,
    };
    match op {
        Op::Copy => true,
        Op::IntAdd | Op::IntSub | Op::IntMul | Op::IntDiv | Op::IntRem | Op::IntLt | Op::IntLe
        | Op::IntGt | Op::IntGe | Op::IntEq | Op::IntNe => l_int && r_int,
        Op::IntArithNeg | Op::IntToReal | Op::IntToBool => l_int,
        Op::RealAdd | Op::RealSub | Op::RealMul | Op::RealDiv | Op::Pow | Op::RealLt | Op::RealLe
        | Op::RealGt | Op::RealGe | Op::RealEq | Op::RealNe => l_real && r_real,
        Op::RealArithNeg | Op::Sqrt | Op::Exp | Op::Ln | Op::Sin | Op::Cos | Op::RealToInt
        | Op::RealToBool => l_real,
        Op::BoolEq | Op::BoolNe => l_bool && r_bool,
        Op::BoolNot | Op::BoolToInt | Op::BoolToReal => l_bool,
    }
}

/// The constant that `op` gives on constant operands, for the operators
/// that are folded here. `None` where the operands have the wrong type,
/// where an integer division has no result, and for the operators that
/// need a [`RealArith`]. For an operator of one operand only `lhs` counts.
pub open spec fn spec_fold(op: Op, lhs: Const, rhs: Const) -> Option<Const> {
    match (op, lhs, rhs) {
        (Op::Copy, c, _) => Some(c),
        (Op::IntAdd, Const::Int(a), Const::Int(b)) => Some(Const::Int(a.wrapping_add(b))),
        (Op::IntSub, Const::Int(a), Const::Int(b)) => Some(Const::Int(a.wrapping_sub(b))),
        (Op::IntMul, Const::Int(a), Const::Int(b)) => Some(Const::Int(a.wrapping_mul(b))),
        (Op::IntDiv, Const::Int(a), Const::Int(b)) => match a.checked_div(b) {
            Some(q) => Some(Const::Int(q)),
            None => None,
        },
        (Op::IntRem, Const::Int(a), Const::Int(b)) => match a.checked_rem(b) {
            Some(r) => Some(Const::Int(r)),
            None => None,
        },
        (Op::IntArithNeg, Const::Int(a), _) => Some(Const::Int(0i32.wrapping_sub(a))),
        (Op::IntLt, Const::Int(a), Const::Int(b)) => Some(Const::Bool(a < b)),
        (Op::IntLe, Const::Int(a), Const::Int(b)) => Some(Const::Bool(a <= b)),
        (Op::IntGt, Const::Int(a), Const::Int(b)) => Some(Const::Bool(a > b)),
        (Op::IntGe, Const::Int(a), Const::Int(b)) => Some(Const::Bool(a >= b)),
        (Op::IntEq, Const::Int(a), Const::Int(b)) => Some(Const::Bool(a == b)),
        (Op::IntNe, Const::Int(a), Const::Int(b)) => Some(Const::Bool(a != b)),
        (Op::RealLt, Const::Real(a), Const::Real(b)) => Some(Const::Bool(real_lt(a, b))),
        (Op::RealLe, Const::Real(a), Const::Real(b)) => Some(
            Const::Bool(real_lt(a, b) || real_eq(a, b)),
        ),
        (Op::RealGt, Const::Real(a), Const::Real(b)) => Some(Const::Bool(real_lt(b, a))),
        (Op::RealGe, Const::Real(a), Const::Real(b)) => Some(
            Const::Bool(real_lt(b, a) || real_eq(a, b)),
        ),
        (Op::RealEq, Const::Real(a), Const::Real(b)) => Some(Const::Bool(real_eq(a, b))),
        (Op::RealNe, Const::Real(a), Const::Real(b)) => Some(Const::Bool(!real_eq(a, b))),
        (Op::RealArithNeg, Const::Real(a), _) => Some(Const::Real(real_neg(a))),
        (Op::BoolEq, Const::Bool(a), Const::Bool(b)) => Some(Const::Bool(a == b)),
        (Op::BoolNe, Const::Bool(a), Const::Bool(b)) => Some(Const::Bool(a != b)),
        (Op::BoolNot, Const::Bool(a), _) => Some(Const::Bool(!a)),
        (Op::BoolToInt, Const::Bool(a), _) => Some(
            Const::Int(
                if a {
                    1i32
                } else {
                    0i32
                },
            ),
        ),
        (Op::IntToBool, Const::Int(a), _) => Some(Const::Bool(a != 0)),
        (Op::BoolToReal, Const::Bool(a), _) => Some(
            Const::Real(
                if a {
                    REAL_ONE
                } else {
                    REAL_ZERO
                },
            ),
        ),
        (Op::RealToBool, Const::Real(a), _) => Some(
            Const::Bool(a != REAL_ZERO && a != REAL_NEG_ZERO),
        ),
        _ => None,
    }
}

pub fn fold(op: Op, lhs: Const, rhs: Const) -> (res: Option<Const>)
    ensures
        res == spec_fold(op, lhs, rhs),
{
    match (op, lhs, rhs) {
        (Op::Copy, c, _) => Some(c),
        (Op::IntAdd, Const::Int(a), Const::Int(b)) => Some(Const::Int(a.wrapping_add(b))),
        (Op::IntSub, Const::Int(a), Const::Int(b)) => Some(Const::Int(a.wrapping_sub(b))),
        (Op::IntMul, Const::Int(a), Const::Int(b)) => Some(Const::Int(a.wrapping_mul(b))),
        (Op::IntDiv, Const::Int(a), Const::Int(b)) => match a.checked_div(b) {
            Some(q) => Some(Const::Int(q)),
            None => None,
        },
        (Op::IntRem, Const::Int(a), Const::Int(b)) => match a.checked_rem(b) {
            Some(r) => Some(Const::Int(r)),
            None => None,
        },
        (Op::IntArithNeg, Const::Int(a), _) => Some(Const::Int(0i32.wrapping_sub(a))),
        (Op::IntLt, Const::Int(a), Const::Int(b)) => Some(Const::Bool(a < b)),
        (Op::IntLe, Const::Int(a), Const::Int(b)) => Some(Const::Bool(a <= b)),
        (Op::IntGt, Const::Int(a), Const::Int(b)) => Some(Const::Bool(a > b)),
        (Op::IntGe, Const::Int(a), Const::Int(b)) => Some(Const::Bool(a >= b)),
        (Op::IntEq, Const::Int(a), Const::Int(b)) => Some(Const::Bool(a == b)),
        (Op::IntNe, Const::Int(a), Const::Int(b)) => Some(Const::Bool(a != b)),
        (Op::RealLt, Const::Real(a), Const::Real(b)) => Some(Const::Bool(real_lt_exec(a, b))),
        (Op::RealLe, Const::Real(a), Const::Real(b)) => Some(
            Const::Bool(real_lt_exec(a, b) || real_eq_exec(a, b)),
        ),
        (Op::RealGt, Const::Real(a), Const::Real(b)) => Some(Const::Bool(real_lt_exec(b, a))),
        (Op::RealGe, Const::Real(a), Const::Real(b)) => Some(
            Const::Bool(real_lt_exec(b, a) || real_eq_exec(a, b)),
        ),
        (Op::RealEq, Const::Real(a), Const::Real(b)) => Some(Const::Bool(real_eq_exec(a, b))),
        (Op::RealNe, Const::Real(a), Const::Real(b)) => Some(Const::Bool(!real_eq_exec(a, b))),
        (Op::RealArithNeg, Const::Real(a), _) => Some(Const::Real(real_neg_exec(a))),
        (Op::BoolEq, Const::Bool(a), Const::Bool(b)) => Some(Const::Bool(a == b)),
        (Op::BoolNe, Const::Bool(a), Const::Bool(b)) => Some(Const::Bool(a != b)),
        (Op::BoolNot, Const::Bool(a), _) => Some(Const::Bool(!a)),
        (Op::BoolToInt, Const::Bool(a), _) => Some(
            Const::Int(
                if a {
                    1i32
                } else {
                    0i32
                },
            ),
        ),
        (Op::IntToBool, Const::Int(a), _) => Some(Const::Bool(a != 0)),
        (Op::BoolToReal, Const::Bool(a), _) => Some(
            Const::Real(
                if a {
                    REAL_ONE
                } else {
                    REAL_ZERO
                },
            ),
        ),
        (Op::RealToBool, Const::Real(a), _) => Some(
            Const::Bool(a != REAL_ZERO && a != REAL_NEG_ZERO),
        ),
        _ => None,
    }
}

/// Floating-point arithmetic on constants, which this library leaves to its
/// caller.
pub trait RealArith {
    /// The constant that `op` gives on `lhs` and `rhs`, or `None` to leave
    /// the instruction unfolded. It is asked only for operators that
    /// [`Op::needs_real_arith`] names, on operands of the operator's types;
    /// for an operator of one operand `rhs` repeats `lhs`.
    fn eval(&self, op: Op, lhs: Const, rhs: Const) -> (res: Option<Const>)
        requires
            op.needs_real_arith(),
            well_typed(op, lhs, rhs),
    ;
}

/// A [`RealArith`] that folds nothing.
pub struct NoRealArith;

impl RealArith for NoRealArith {
    fn eval(&self, op: Op, lhs: Const, rhs: Const) -> (res: Option<Const>)
        ensures
            res is None,
    {
        None
    }
}

/// A question that was put to a [`RealArith`], with its answer.
#[derive(Clone, Copy, Debug, PartialEq, Eq, Structural)]
pub struct Asked {
    pub op: Op,
    pub lhs: Const,
    pub rhs: Const,
    pub answer: Option<Const>,
}

/// The questions that were put to a [`RealArith`] in the course of an
/// analysis, each with its answer. A question is put once: when it comes
/// up again, the answer that was given is given again. So the analysis
/// folds an operator on the same constants to the same constant, whatever
/// the [`RealArith`] does.
#[derive(Debug)]
pub struct Answers {
    pub asked: Vec<Asked>,
}

/// The answer to the question among the first `n` of `asked`: `None` if it
/// was not put.
pub open spec fn spec_answer_below(asked: Seq<Asked>, op: Op, lhs: Const, rhs: Const, n: nat)
    -> Option<Option<Const>>
    decreases n,
{
    if n == 0 {
        None
    } else {
        match spec_answer_below(asked, op, lhs, rhs, (n - 1) as nat) {
            Some(answer) => Some(answer),
            None => if asked[n - 1].op == op && asked[n - 1].lhs == lhs && asked[n - 1].rhs == rhs {
                Some(asked[n - 1].answer)
            } else {
                None
            },
        }
    }
}

/// The answer to the question among `asked`: `None` if it was not put.
pub open spec fn spec_answer(asked: Seq<Asked>, op: Op, lhs: Const, rhs: Const) -> Option<
    Option<Const>,
> {
    spec_answer_below(asked, op, lhs, rhs, asked.len())
}

/// Every question that was put in `before` has the same answer in
/// `after`.
pub open spec fn spec_answers_extend(before: Seq<Asked>, after: Seq<Asked>) -> bool {
    forall|op: Op, lhs: Const, rhs: Const| #[trigger]
        spec_answer(before, op, lhs, rhs) is Some ==> spec_answer(after, op, lhs, rhs)
            == spec_answer(before, op, lhs, rhs)
}

proof fn lemma_answer_found(asked: Seq<Asked>, op: Op, lhs: Const, rhs: Const, n: nat, m: nat)
    requires
        n <= m,
        spec_answer_below(asked, op, lhs, rhs, n) is Some,
    ensures
        spec_answer_below(asked, op, lhs, rhs, m) == spec_answer_below(asked, op, lhs, rhs, n),
    decreases m - n,
{
    if n < m {
        lemma_answer_found(asked, op, lhs, rhs, n, (m - 1) as nat);
    }
}

proof fn lemma_answer_prefix(asked: Seq<Asked>, more: Asked, op: Op, lhs: Const, rhs: Const, n: nat)
    requires
        n <= asked.len(),
    ensures
        spec_answer_below(asked.push(more), op, lhs, rhs, n) == spec_answer_below(
            asked,
            op,
            lhs,
            rhs,
            n,
        ),
    decreases n,
{
    if n > 0 {
        lemma_answer_prefix(asked, more, op, lhs, rhs, (n - 1) as nat);
    }
}

/// One more question keeps the answers to the questions before it.
pub proof fn lemma_answers_extend_by_one(asked: Seq<Asked>, more: Asked)
    ensures
        spec_answers_extend(asked, asked.push(more)),
        spec_answer(asked, more.op, more.lhs, more.rhs) is None ==> spec_answer(
            asked.push(more),
            more.op,
            more.lhs,
            more.rhs,
        ) == Some(more.answer),
{
    let after = asked.push(more);
    assert forall|op: Op, lhs: Const, rhs: Const| #[trigger]
        spec_answer(asked, op, lhs, rhs) is Some implies spec_answer(after, op, lhs, rhs)
        == spec_answer(asked, op, lhs, rhs) by {
        lemma_answer_prefix(asked, more, op, lhs, rhs, asked.len());
    }
    lemma_answer_prefix(asked, more, more.op, more.lhs, more.rhs, asked.len());
}

impl View for Answers {
    type V = Seq<Asked>;

    open spec fn view(&self) -> Seq<Asked> {
        self.asked@
    }
}

impl Answers {
    /// No question put yet.
    pub fn new() -> (res: Answers)
        ensures
            res@.len() == 0,
    {
        Answers { asked: Vec::new() }
    }

    /// The answer that was given to the question, if it was put.
    pub fn find(&self, op: Op, lhs: Const, rhs: Const) -> (res: Option<Option<Const>>)
        ensures
            res == spec_answer(self@, op, lhs, rhs),
    {
        let mut i: usize = 0;
        while i < self.asked.len()
            invariant
                i <= self.asked@.len(),
                spec_answer_below(self@, op, lhs, rhs, i as nat) is None,
            decreases self.asked@.len() - i,
        {
            let q = self.asked[i];
            if q.op == op && q.lhs == lhs && q.rhs == rhs {
                proof {
                    lemma_answer_found(self@, op, lhs, rhs, (i + 1) as nat, self@.len());
                }
                return Some(q.answer);
            }
            i += 1;
        }
        None
    }

    /// The answer to the question: the one that was given before, or, if
    /// the question is new, the one that `arith` gives now.
    pub fn ask<A: RealArith>(&mut self, arith: &A, op: Op, lhs: Const, rhs: Const) -> (res: Option<
        Const,
    >)
        requires
            op.needs_real_arith(),
            well_typed(op, lhs, rhs),
        ensures
            spec_answers_extend(old(self)@, final(self)@),
            spec_answer(final(self)@, op, lhs, rhs) == Some(res),
    {
        if let Some(answer) = self.find(op, lhs, rhs) {
            assert(spec_answers_extend(self@, self@));
            return answer;
        }
        let answer = arith.eval(op, lhs, rhs);
        proof {
            lemma_answers_extend_by_one(self@, Asked { op, lhs, rhs, answer });
        }
        self.asked.push(Asked { op, lhs, rhs, answer });
        answer
    }
}

/// The lattice value is a known real zero.
pub open spec fn spec_is_zero_elem(v: FlatSet) -> bool {
    v matches FlatSet::Elem(c) && c.is_real_zero()
}

#[verifier::when_used_as_spec(spec_is_zero_elem)]
pub fn is_zero_elem(v: FlatSet) -> (res: bool)
    ensures
        res == spec_is_zero_elem(v),
{
    match v {
        FlatSet::Elem(c) => c.is_real_zero(),
        _ => false,
    }
}

/// A product of generated code with a factor that is known to be zero: it
/// is folded to zero whatever the other factor is.
pub open spec fn spec_absorbs(op: Op, src: i32, lhs: FlatSet, rhs: FlatSet) -> bool {
    op == Op::RealMul && src < 0 && (is_zero_elem(lhs) || is_zero_elem(rhs))
}

/// Whether evaluating `op` on these operand values asks the [`RealArith`].
pub open spec fn spec_asks_real_arith(op: Op, src: i32, lhs: FlatSet, rhs: FlatSet) -> bool {
    &&& !spec_absorbs(op, src, lhs, rhs)
    &&& op.needs_real_arith()
    &&& lhs matches FlatSet::Elem(a)
    &&& rhs matches FlatSet::Elem(b)
    &&& well_typed(op, a, b)
}

/// The lattice value of `op` applied to operands with the values `lhs` and
/// `rhs`, where `answer` is what the [`RealArith`] answered if it was asked.
/// For an operator of one operand `rhs` repeats `lhs`.
pub open spec fn spec_combine(
    op: Op,
    src: i32,
    lhs: FlatSet,
    rhs: FlatSet,
    answer: Option<Const>,
) -> FlatSet {
    if spec_absorbs(op, src, lhs, rhs) {
        FlatSet::Elem(Const::Real(REAL_ZERO))
    } else {
        match (lhs, rhs) {
            (FlatSet::Top, _) | (_, FlatSet::Top) => FlatSet::Top,
            (FlatSet::Bottom, _) | (_, FlatSet::Bottom) => FlatSet::Bottom,
            (FlatSet::Elem(a), FlatSet::Elem(b)) => {
                let folded = if op.needs_real_arith() {
                    if well_typed(op, a, b) {
                        answer
                    } else {
                        None
                    }
                } else {
                    spec_fold(op, a, b)
                };
                match folded {
                    Some(c) => FlatSet::Elem(c),
                    None => FlatSet::Top,
                }
            },
        }
    }
}

/// See [`spec_combine`].
pub fn combine(op: Op, src: i32, lhs: FlatSet, rhs: FlatSet, answer: Option<Const>) -> (res:
    FlatSet)
    ensures
        res == spec_combine(op, src, lhs, rhs, answer),
{
    let absorbs = match op {
        Op::RealMul => src < 0 && (is_zero_elem(lhs) || is_zero_elem(rhs)),
        _ => false,
    };
    if absorbs {
        return FlatSet::Elem(Const::Real(REAL_ZERO));
    }
    match (lhs, rhs) {
        (FlatSet::Top, _) => FlatSet::Top,
        (_, FlatSet::Top) => FlatSet::Top,
        (FlatSet::Bottom, _) => FlatSet::Bottom,
        (_, FlatSet::Bottom) => FlatSet::Bottom,
        (FlatSet::Elem(a), FlatSet::Elem(b)) => {
            let folded = if op.needs_real_arith() {
                if well_typed(op, a, b) {
                    answer
                } else {
                    None
                }
            } else {
                fold(op, a, b)
            };
            match folded {
                Some(c) => FlatSet::Elem(c),
                None => FlatSet::Top,
            }
        },
    }
}

/// What an evaluation reads: the values of the places at this point, the
/// values of the SSA temporaries, and the parameters fixed by the caller.
pub struct EvalCtx<'a> {
    pub const_places: &'a SparseFlatSetMap,
    pub ssa_consts: &'a SsaConstants,
    pub known_params: &'a ahash::AHashMap<u32, Const>,
}

/// What an evaluation reads, as a mathematical value.
pub struct EvalView {
    pub places: Seq<FlatSet>,
    pub ssa: Seq<FlatSet>,
    pub known: Map<u32, Const>,
}

impl<'a> View for EvalCtx<'a> {
    type V = EvalView;

    open spec fn view(&self) -> EvalView {
        EvalView {
            places: self.const_places@,
            ssa: self.ssa_consts@,
            known: known_param_values(*self.known_params),
        }
    }
}

impl EvalView {
    /// The lattice value of an operand: a literal is itself, a local and a
    /// place have the value recorded for them, a parameter is known when the
    /// caller fixed it, and a call-back is unknown.
    pub open spec fn get_operand(self, operand: Operand) -> FlatSet {
        match operand {
            Operand::Const(c) => FlatSet::Elem(c),
            Operand::Local(local) => spec_value_in(self.ssa, local),
            Operand::Place(place) => spec_value_in(self.places, place),
            Operand::Param(param) => if self.known.dom().contains(param) {
                FlatSet::Elem(self.known[param])
            } else {
                FlatSet::Top
            },
            Operand::CallBack(_) => FlatSet::Top,
        }
    }

    /// The value of the first operand.
    pub open spec fn lhs(self, args: Seq<Operand>) -> FlatSet {
        self.get_operand(args[0])
    }

    /// The value of the second operand, or of the only one.
    pub open spec fn rhs(self, args: Seq<Operand>) -> FlatSet {
        self.get_operand(args[args.len() - 1])
    }

    /// The lattice value of `op` applied to `args`, where `answer` is what
    /// the [`RealArith`] answered if it was asked. An operator applied to
    /// the wrong number of operands is unknown.
    pub open spec fn eval_op(self, op: Op, args: Seq<Operand>, src: i32, answer: Option<Const>)
        -> FlatSet {
        if args.len() != op.arity() {
            FlatSet::Top
        } else {
            spec_combine(op, src, self.lhs(args), self.rhs(args), answer)
        }
    }

    /// Whether evaluating `op` on `args` asks the [`RealArith`].
    pub open spec fn asks(self, op: Op, args: Seq<Operand>, src: i32) -> bool {
        args.len() == op.arity() && spec_asks_real_arith(op, src, self.lhs(args), self.rhs(args))
    }

    /// The question that evaluating `op` on `args` puts, if it puts one.
    pub open spec fn question(self, op: Op, args: Seq<Operand>, src: i32) -> Option<
        (Op, Const, Const),
    > {
        if self.asks(op, args, src) {
            Some((op, self.lhs(args)->Elem_0, self.rhs(args)->Elem_0))
        } else {
            None
        }
    }

    /// Every question that evaluating `op` on `args` puts is among
    /// `asked`.
    pub open spec fn answered(self, asked: Seq<Asked>, op: Op, args: Seq<Operand>, src: i32)
        -> bool {
        match self.question(op, args, src) {
            Some((op, lhs, rhs)) => spec_answer(asked, op, lhs, rhs) is Some,
            None => true,
        }
    }

    /// The lattice value of `op` applied to `args`, with the answers in
    /// `asked`.
    pub open spec fn eval(self, asked: Seq<Asked>, op: Op, args: Seq<Operand>, src: i32)
        -> FlatSet {
        self.eval_op(
            op,
            args,
            src,
            match self.question(op, args, src) {
                Some((op, lhs, rhs)) => match spec_answer(asked, op, lhs, rhs) {
                    Some(answer) => answer,
                    None => None,
                },
                None => None,
            },
        )
    }

    /// With more answers, what was answered evaluates to the same.
    pub proof fn lemma_eval_stable(
        self,
        before: Seq<Asked>,
        after: Seq<Asked>,
        op: Op,
        args: Seq<Operand>,
        src: i32,
    )
        requires
            spec_answers_extend(before, after),
            self.answered(before, op, args, src),
        ensures
            self.answered(after, op, args, src),
            self.eval(after, op, args, src) == self.eval(before, op, args, src),
    {
        match self.question(op, args, src) {
            Some((op, lhs, rhs)) => {
                assert(spec_answer(before, op, lhs, rhs) is Some);
            },
            None => {},
        }
    }
}

impl<'a> EvalCtx<'a> {
    pub fn get_operand(&self, operand: &Operand) -> (res: FlatSet)
        ensures
            res == self@.get_operand(*operand),
    {
        match *operand {
            Operand::Const(c) => FlatSet::Elem(c),
            Operand::Local(local) => self.ssa_consts.get(local),
            Operand::Place(place) => self.const_places.get_flat_set(place),
            Operand::Param(param) => match known_param_get(self.known_params, param) {
                Some(c) => FlatSet::Elem(c),
                None => FlatSet::Top,
            },
            Operand::CallBack(_) => FlatSet::Top,
        }
    }

    /// Evaluates `op` on `args`, with the answers in `answers`: a question
    /// that was put before gets the answer it got, and a new one is put
    /// to `arith` and written down.
    pub fn eval_op_recorded<A: RealArith>(
        &self,
        answers: &mut Answers,
        arith: &A,
        op: Op,
        args: &Vec<Operand>,
        src: i32,
    ) -> (res: FlatSet)
        ensures
            spec_answers_extend(old(answers)@, final(answers)@),
            self@.answered(final(answers)@, op, args@, src),
            res == self@.eval(final(answers)@, op, args@, src),
    {
        if args.len() != op.arity() {
            assert(spec_answers_extend(answers@, answers@));
            return FlatSet::Top;
        }
        let lhs = self.get_operand(&args[0]);
        let rhs = self.get_operand(&args[args.len() - 1]);
        let absorbs = match op {
            Op::RealMul => src < 0 && (is_zero_elem(lhs) || is_zero_elem(rhs)),
            _ => false,
        };
        let answer = match (lhs, rhs) {
            (FlatSet::Elem(a), FlatSet::Elem(b)) => {
                if !absorbs && op.needs_real_arith() && well_typed(op, a, b) {
                    answers.ask(arith, op, a, b)
                } else {
                    assert(spec_answers_extend(answers@, answers@));
                    None
                }
            },
            _ => {
                assert(spec_answers_extend(answers@, answers@));
                None
            },
        };
        let res = combine(op, src, lhs, rhs, answer);
        proof {
            if !self@.asks(op, args@, src) {
                assert(spec_combine(op, src, lhs, rhs, answer) == spec_combine(
                    op,
                    src,
                    lhs,
                    rhs,
                    None,
                ));
            }
        }
        res
    }

    /// Evaluates `op` on `args`. Where the [`RealArith`] is not asked the
    /// result is fixed; where it is asked, the result is the constant it
    /// answered, or `Top` if it answered none.
    pub fn eval_op<A: RealArith>(&self, arith: &A, op: Op, args: &Vec<Operand>, src: i32) -> (res:
        FlatSet)
        ensures
            !self@.asks(op, args@, src) ==> res == self@.eval_op(op, args@, src, None),
            self@.asks(op, args@, src) ==> exists|answer: Option<Const>|
                res == self@.eval_op(op, args@, src, answer),
    {
        let mut answers = Answers::new();
        let res = self.eval_op_recorded(&mut answers, arith, op, args, src);
        proof {
            if self@.asks(op, args@, src) {
                let q = self@.question(op, args@, src).unwrap();
                let answer = spec_answer(answers@, q.0, q.1, q.2).unwrap();
                assert(res == self@.eval_op(op, args@, src, answer));
            }
        }
        res
    }
}

/// What a run of the program holds at one point: a constant for each local
/// and each place that has been written, and for each parameter.
pub struct Environment {
    pub locals: Map<u32, Const>,
    pub places: Map<u32, Const>,
    pub params: Map<u32, Const>,
}

impl Environment {
    /// The constant that `operand` reads in this run, if it reads one: a
    /// literal is itself; a local, a place and a parameter read what the
    /// run holds for them; what a call-back returns is not part of the run.
    pub open spec fn value(self, operand: Operand) -> Option<Const> {
        match operand {
            Operand::Const(c) => Some(c),
            Operand::Local(local) => if self.locals.dom().contains(local) {
                Some(self.locals[local])
            } else {
                None
            },
            Operand::Place(place) => if self.places.dom().contains(place) {
                Some(self.places[place])
            } else {
                None
            },
            Operand::Param(param) => if self.params.dom().contains(param) {
                Some(self.params[param])
            } else {
                None
            },
            Operand::CallBack(_) => None,
        }
    }
}

impl EvalView {
    /// The lattice values allow what the run holds: the value of each local
    /// and of each place allows the constant that the run holds for it,
    /// and the run gives each parameter that the caller fixed the constant
    /// that the caller fixed.
    pub open spec fn allows(self, env: Environment) -> bool {
        &&& forall|local: u32| #[trigger]
            env.locals.dom().contains(local) ==> spec_value_in(self.ssa, local).describes(
                env.locals[local],
            )
        &&& forall|place: u32| #[trigger]
            env.places.dom().contains(place) ==> spec_value_in(self.places, place).describes(
                env.places[place],
            )
        &&& forall|param: u32|
            env.params.dom().contains(param) && #[trigger] self.known.dom().contains(param)
                ==> self.known[param] == env.params[param]
    }

    /// Soundness of reading an operand: where the lattice values allow
    /// what a run holds, the lattice value of an operand allows the
    /// constant that the operand reads in that run.
    pub proof fn lemma_get_operand_sound(self, env: Environment, operand: Operand, c: Const)
        requires
            self.allows(env),
            env.value(operand) == Some(c),
        ensures
            self.get_operand(operand).describes(c),
    {
    }
}

/// Soundness of folding: for an operator that is folded here, where the
/// values of the operands allow the constants `a` and `b`, the value of the
/// result allows the constant that the operator gives on `a` and `b`.
pub proof fn lemma_combine_sound(
    op: Op,
    src: i32,
    lhs: FlatSet,
    rhs: FlatSet,
    a: Const,
    b: Const,
    r: Const,
    answer: Option<Const>,
)
    requires
        !op.needs_real_arith(),
        lhs.describes(a),
        rhs.describes(b),
        spec_fold(op, a, b) == Some(r),
    ensures
        spec_combine(op, src, lhs, rhs, answer).describes(r),
{
}

} // verus!
