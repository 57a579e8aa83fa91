//! Folding over string expressions: a walk that looks at the kind of an
//! expression and hands it to the method of the fold that is made for that
//! kind.

use vstd::prelude::*;

verus! {

/// A string expression. Its operands are expressions, by their numbers.
#[derive(Clone, Copy, Debug, PartialEq, Eq, Structural)]
pub enum StringExpression {
    /// A literal, by the number of the interned text.
    Literal(u32),
    VariableReference(u32),
    ParameterReference(u32),
    /// An integer expression as the condition, and the string expressions
    /// for true and for false.
    Condition(u32, u32, u32),
    /// A parameter of the simulator, named by a string expression.
    SimParam(u32),
}

/// The table of string expressions.
#[derive(Debug)]
pub struct Mir {
    pub string_expressions: Vec<StringExpression>,
}

impl Mir {
    /// A parameter of the simulator is named by an expression that comes
    /// before it in the table.
    pub open spec fn well_formed(&self) -> bool {
        forall|i: int|
            0 <= i < self.string_expressions@.len() ==> match #[trigger] self.string_expressions@[i] {
                StringExpression::SimParam(name) => name < i,
                _ => true,
            }
    }
}

/// What a fold was handed, and by which of its methods.
pub enum Folded {
    Literal(u32),
    VariableReference(u32),
    ParameterReference(u32),
    Condition(u32, u32, u32),
    StringExpr(u32),
    /// A parameter of the simulator, by the expression that names it.
    SimParameter(u32),
}

/// The method that the walk calls for an expression, with its arguments.
pub open spec fn spec_dispatch(expr: StringExpression) -> Folded {
    match expr {
        StringExpression::Literal(val) => Folded::Literal(val),
        StringExpression::VariableReference(var) => Folded::VariableReference(var),
        StringExpression::ParameterReference(param) => Folded::ParameterReference(param),
        StringExpression::Condition(cond, true_expr, false_expr) => Folded::Condition(
            cond,
            true_expr,
            false_expr,
        ),
        StringExpression::SimParam(name) => Folded::StringExpr(name),
    }
}

/// A fold over string expressions. An implementation says in `folds` what
/// each of its methods does; the walk promises to call the method that
/// [`spec_dispatch`] names.
pub trait StringExprFold: Sized {
    type T;

    /// The table that the fold reads.
    open spec fn spec_mir(&self) -> Mir {
        arbitrary()
    }

    /// Calling the method `call` on `self` may leave `after` behind and
    /// return `res`. Unless an implementation says more, anything may
    /// happen.
    open spec fn folds(&self, call: Folded, after: &Self, res: Self::T) -> bool {
        true
    }

    fn mir(&self) -> (mir: &Mir)
        ensures
            *mir == self.spec_mir(),
    ;

    /// Folds the expression with the number `expr`, whatever its kind. A
    /// fold that has nothing of its own to do here calls
    /// [`walk_string_expression`].
    fn fold_string_expr(&mut self, expr: u32) -> (res: Self::T)
        requires
            old(self).spec_mir().well_formed(),
            expr < old(self).spec_mir().string_expressions@.len(),
        ensures
            old(self).folds(Folded::StringExpr(expr), final(self), res),
    ;

    fn fold_literal(&mut self, val: u32) -> (res: Self::T)
        ensures
            old(self).folds(Folded::Literal(val), final(self), res),
    ;

    fn fold_condition(&mut self, cond: u32, true_expr: u32, false_expr: u32) -> (res: Self::T)
        ensures
            old(self).folds(Folded::Condition(cond, true_expr, false_expr), final(self), res),
    ;

    fn fold_variable_reference(&mut self, var: u32) -> (res: Self::T)
        ensures
            old(self).folds(Folded::VariableReference(var), final(self), res),
    ;

    fn fold_parameter_reference(&mut self, param: u32) -> (res: Self::T)
        ensures
            old(self).folds(Folded::ParameterReference(param), final(self), res),
    ;

    /// Folds the parameter of the simulator that the expression `name`
    /// names. The walk does not call it: it hands a parameter of the
    /// simulator to [`Self::fold_string_expr`], with the expression that
    /// names it.
    fn fold_sim_parameter(&mut self, name: u32) -> (res: Self::T)
        ensures
            old(self).folds(Folded::SimParameter(name), final(self), res),
    ;
}

/// Hands `expr` to the method of `fold` that is made for its kind, and
/// returns what that method returns.
pub fn walk_string_expression<V: StringExprFold>(fold: &mut V, expr: u32) -> (res: V::T)
    requires
        old(fold).spec_mir().well_formed(),
        expr < old(fold).spec_mir().string_expressions@.len(),
    ensures
        old(fold).folds(
            spec_dispatch(old(fold).spec_mir().string_expressions@[expr as int]),
            final(fold),
            res,
        ),
{
    let contents = fold.mir().string_expressions[expr as usize];
    match contents {
        StringExpression::Literal(val) => fold.fold_literal(val),
        StringExpression::VariableReference(var) => fold.fold_variable_reference(var),
        StringExpression::ParameterReference(param) => fold.fold_parameter_reference(param),
        StringExpression::Condition(cond, true_expr, false_expr) => {
            fold.fold_condition(cond, true_expr, false_expr)
        },
        StringExpression::SimParam(name) => fold.fold_string_expr(name),
    }
}

/// A fold that finds the literal that an expression is, if it is one. It
/// looks at the expression itself and not into its operands.
pub struct LiteralFold {
    pub mir: Mir,
}

impl StringExprFold for LiteralFold {
    type T = Option<u32>;

    open spec fn spec_mir(&self) -> Mir {
        self.mir
    }

    open spec fn folds(&self, call: Folded, after: &Self, res: Option<u32>) -> bool {
        &&& *after == *self
        &&& res == match call {
            Folded::Literal(val) => Some(val),
            Folded::StringExpr(expr) => if expr < self.mir.string_expressions@.len() {
                match self.mir.string_expressions@[expr as int] {
                    StringExpression::Literal(val) => Some(val),
                    _ => None,
                }
            } else {
                None
            },
            _ => None,
        }
    }

    fn mir(&self) -> (mir: &Mir) {
        &self.mir
    }

    fn fold_string_expr(&mut self, expr: u32) -> (res: Option<u32>) {
        match self.mir.string_expressions[expr as usize] {
            StringExpression::Literal(val) => Some(val),
            _ => None,
        }
    }

    fn fold_literal(&mut self, val: u32) -> (res: Option<u32>) {
        Some(val)
    }

    fn fold_condition(&mut self, cond: u32, true_expr: u32, false_expr: u32) -> (res: Option<
        u32,
    >) {
        None
    }

    fn fold_variable_reference(&mut self, var: u32) -> (res: Option<u32>) {
        None
    }

    fn fold_parameter_reference(&mut self, param: u32) -> (res: Option<u32>) {
        None
    }

    fn fold_sim_parameter(&mut self, name: u32) -> (res: Option<u32>) {
        None
    }
}

} // verus!
