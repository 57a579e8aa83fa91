use va_midend::body::{
    AnalogBehaviour, AstParam, AstRange, ConstraintKind, DefWithBehaviour, DefWithExpr, Expr,
    ExprBody, ParamBody, ParamBounds, Range, Stmt,
};
use va_midend::string_expressions::{
    walk_string_expression, LiteralFold, Mir, StringExprFold, StringExpression,
};

/// Records which method was called with what.
struct Recorder {
    mir: Mir,
    calls: Vec<String>,
}

impl StringExprFold for Recorder {
    type T = usize;

    fn mir(&self) -> &Mir {
        &self.mir
    }

    fn fold_string_expr(&mut self, expr: u32) -> usize {
        self.calls.push(format!("expr {expr}"));
        walk_string_expression(self, expr)
    }

    fn fold_literal(&mut self, val: u32) -> usize {
        self.calls.push(format!("literal {val}"));
        self.calls.len()
    }

    fn fold_condition(&mut self, cond: u32, true_expr: u32, false_expr: u32) -> usize {
        self.calls.push(format!("condition {cond} {true_expr} {false_expr}"));
        self.calls.len()
    }

    fn fold_variable_reference(&mut self, var: u32) -> usize {
        self.calls.push(format!("variable {var}"));
        self.calls.len()
    }

    fn fold_parameter_reference(&mut self, param: u32) -> usize {
        self.calls.push(format!("parameter {param}"));
        self.calls.len()
    }

    fn fold_sim_parameter(&mut self, name: u32) -> usize {
        self.calls.push(format!("simparam {name}"));
        self.calls.len()
    }
}

fn table() -> Mir {
    Mir {
        string_expressions: vec![
            StringExpression::Literal(7),
            StringExpression::VariableReference(3),
            StringExpression::ParameterReference(4),
            StringExpression::Condition(9, 0, 1),
            StringExpression::SimParam(0),
        ],
    }
}

#[test]
fn walk_calls_the_method_of_the_kind() {
    let mut fold = Recorder { mir: table(), calls: Vec::new() };
    assert_eq!(walk_string_expression(&mut fold, 0), 1);
    assert_eq!(walk_string_expression(&mut fold, 1), 2);
    assert_eq!(walk_string_expression(&mut fold, 2), 3);
    assert_eq!(walk_string_expression(&mut fold, 3), 4);
    assert_eq!(
        fold.calls,
        vec!["literal 7", "variable 3", "parameter 4", "condition 9 0 1"]
    );
}

#[test]
fn walk_folds_the_name_of_a_simulator_parameter() {
    let mut fold = Recorder { mir: table(), calls: Vec::new() };
    assert_eq!(walk_string_expression(&mut fold, 4), 2);
    assert_eq!(fold.calls, vec!["expr 0", "literal 7"]);
}

#[test]
fn literal_fold_finds_literals() {
    let mut fold = LiteralFold { mir: table() };
    assert_eq!(walk_string_expression(&mut fold, 0), Some(7));
    assert_eq!(walk_string_expression(&mut fold, 1), None);
    assert_eq!(walk_string_expression(&mut fold, 3), None);
    assert_eq!(walk_string_expression(&mut fold, 4), Some(7));
}

#[test]
fn literal_fold_finds_nothing_in_a_simulator_parameter() {
    let mut fold = LiteralFold { mir: table() };
    assert_eq!(fold.fold_sim_parameter(0), None);
    assert_eq!(fold.fold_sim_parameter(4), None);
    assert_eq!(fold.mir.string_expressions, table().string_expressions);
}

#[test]
fn parameter_body_lowers_default_then_bounds() {
    let from = AstRange { start: Some(20), start_inclusive: true, end: None, end_inclusive: false };
    let excl =
        AstRange { start: Some(30), start_inclusive: false, end: Some(31), end_inclusive: true };
    let ast = AstParam {
        default: Some(10),
        constraints: vec![
            Some(ConstraintKind::From(from)),
            None,
            Some(ConstraintKind::Exclude(25)),
            Some(ConstraintKind::ExcludeRange(excl)),
        ],
    };
    let (body, map) = ParamBody::body_with_sourcemap_query(&ast);
    assert_eq!(body.default, 0);
    assert_eq!(
        body.body.exprs,
        vec![
            Expr::Syntax(10),
            Expr::Syntax(20),
            Expr::Missing,
            Expr::Syntax(25),
            Expr::Syntax(30),
            Expr::Syntax(31),
        ]
    );
    assert_eq!(
        body.bounds,
        vec![
            ParamBounds::From(Range {
                start: 1,
                start_inclusive: true,
                end: 2,
                end_inclusive: false
            }),
            ParamBounds::Exclud(3),
            ParamBounds::ExcludeRange(Range {
                start: 4,
                start_inclusive: false,
                end: 5,
                end_inclusive: true
            }),
        ]
    );
    assert_eq!(
        map.expr_map_back,
        vec![Some(10), Some(20), None, Some(25), Some(30), Some(31)]
    );
}

#[test]
fn expression_body_holds_one_expression() {
    let (body, map) = ExprBody::body_with_sourcemap_query(DefWithExpr::Var { default: None });
    assert_eq!(body.val, 0);
    assert_eq!(body.body.exprs, vec![Expr::Missing]);
    assert_eq!(map.expr_map_back, vec![None]);
    let (body, _) = ExprBody::body_with_sourcemap_query(DefWithExpr::NatureAttr { val: Some(5) });
    assert_eq!(body.body.exprs, vec![Expr::Syntax(5)]);
    let (body, _) =
        ExprBody::body_with_sourcemap_query(DefWithExpr::DisciplineAttr { val: Some(6) });
    assert_eq!(body.body.exprs, vec![Expr::Syntax(6)]);
}

#[test]
fn behaviour_numbers_its_statements() {
    let def = DefWithBehaviour::Module { analog_behaviour: vec![40, 41, 42] };
    let (behaviour, map) = AnalogBehaviour::body_with_sourcemap_query(&def);
    assert_eq!(behaviour.root_stmts, vec![0, 1, 2]);
    assert_eq!(
        behaviour.body.stmts,
        vec![Stmt::Syntax(40), Stmt::Syntax(41), Stmt::Syntax(42)]
    );
    assert_eq!(map.stmt_map_back, vec![Some(40), Some(41), Some(42)]);
    let def = DefWithBehaviour::Function { body: vec![] };
    let (behaviour, _) = AnalogBehaviour::body_with_sourcemap_query(&def);
    assert!(behaviour.root_stmts.is_empty());
}
