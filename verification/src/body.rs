//! The bodies of items: the expressions and statements that an item is made
//! of, lowered from the syntax tree into tables, with a map back to the
//! syntax that each came from.

use vstd::prelude::*;

verus! {

/// An expression of a body: the syntax node it was lowered from, by its
/// number, or a hole where the syntax had none.
#[derive(Clone, Copy, Debug, PartialEq, Eq, Structural)]
pub enum Expr {
    Missing,
    Syntax(u32),
}

/// A statement of a body: the syntax node it was lowered from, or a hole.
#[derive(Clone, Copy, Debug, PartialEq, Eq, Structural)]
pub enum Stmt {
    Missing,
    Syntax(u32),
}

/// The body of an item.
#[derive(Debug, PartialEq, Eq)]
pub struct Body {
    pub exprs: Vec<Expr>,
    pub stmts: Vec<Stmt>,
}

/// For each expression and statement of a body, the syntax node it came
/// from.
#[derive(Debug, PartialEq, Eq)]
pub struct BodySourceMap {
    pub expr_map_back: Vec<Option<u32>>,
    pub stmt_map_back: Vec<Option<u32>>,
}

/// A body and its source map while they are filled.
pub struct LowerCtx {
    pub body: Body,
    pub source_map: BodySourceMap,
}

/// The table `exprs` after the optional syntax node `ast` was lowered into
/// it.
pub open spec fn spec_with_expr(exprs: Seq<Expr>, ast: Option<u32>) -> Seq<Expr> {
    exprs.push(
        match ast {
            Some(node) => Expr::Syntax(node),
            None => Expr::Missing,
        },
    )
}

impl LowerCtx {
    /// Body and source map go together: the map has one entry for each
    /// expression and statement, and names the syntax node that the
    /// expression or statement holds.
    pub open spec fn well_formed(&self) -> bool {
        &&& self.body.exprs@.len() == self.source_map.expr_map_back@.len()
        &&& self.body.stmts@.len() == self.source_map.stmt_map_back@.len()
        &&& self.body.exprs@.len() <= u32::MAX
        &&& self.body.stmts@.len() <= u32::MAX
        &&& forall|i: int|
            0 <= i < self.body.exprs@.len() ==> #[trigger] self.source_map.expr_map_back@[i]
                == match self.body.exprs@[i] {
                Expr::Syntax(node) => Some(node),
                Expr::Missing => None,
            }
        &&& forall|i: int|
            0 <= i < self.body.stmts@.len() ==> #[trigger] self.source_map.stmt_map_back@[i]
                == match self.body.stmts@[i] {
                Stmt::Syntax(node) => Some(node),
                Stmt::Missing => None,
            }
    }

    /// An empty body with an empty map.
    pub fn new() -> (res: LowerCtx)
        ensures
            res.well_formed(),
            res.body.exprs@.len() == 0,
            res.body.stmts@.len() == 0,
    {
        LowerCtx {
            body: Body { exprs: Vec::new(), stmts: Vec::new() },
            source_map: BodySourceMap { expr_map_back: Vec::new(), stmt_map_back: Vec::new() },
        }
    }

    /// Lowers the syntax node `ast`, or a hole where there is none, into a
    /// new expression and returns its number.
    pub fn collect_opt_expr(&mut self, ast: Option<u32>) -> (id: u32)
        requires
            old(self).well_formed(),
            old(self).body.exprs@.len() < u32::MAX,
        ensures
            final(self).well_formed(),
            id == old(self).body.exprs@.len(),
            final(self).body.exprs@ == spec_with_expr(old(self).body.exprs@, ast),
            final(self).body.stmts@ == old(self).body.stmts@,
    {
        let id = self.body.exprs.len() as u32;
        match ast {
            Some(node) => self.body.exprs.push(Expr::Syntax(node)),
            None => self.body.exprs.push(Expr::Missing),
        }
        self.source_map.expr_map_back.push(ast);
        id
    }

    /// Lowers the syntax node `ast` into a new expression and returns its
    /// number.
    pub fn collect_expr(&mut self, ast: u32) -> (id: u32)
        requires
            old(self).well_formed(),
            old(self).body.exprs@.len() < u32::MAX,
        ensures
            final(self).well_formed(),
            id == old(self).body.exprs@.len(),
            final(self).body.exprs@ == spec_with_expr(old(self).body.exprs@, Some(ast)),
            final(self).body.stmts@ == old(self).body.stmts@,
    {
        self.collect_opt_expr(Some(ast))
    }

    /// Lowers the syntax node `ast` into a new statement and returns its
    /// number.
    pub fn collect_stmt(&mut self, ast: u32) -> (id: u32)
        requires
            old(self).well_formed(),
            old(self).body.stmts@.len() < u32::MAX,
        ensures
            final(self).well_formed(),
            id == old(self).body.stmts@.len(),
            final(self).body.stmts@ == old(self).body.stmts@.push(Stmt::Syntax(ast)),
            final(self).body.exprs@ == old(self).body.exprs@,
    {
        let id = self.body.stmts.len() as u32;
        self.body.stmts.push(Stmt::Syntax(ast));
        self.source_map.stmt_map_back.push(Some(ast));
        id
    }
}

/// A range of a parameter's values, between two expressions of its body.
#[derive(Clone, Copy, Debug, PartialEq, Eq, Structural)]
pub struct Range {
    pub start: u32,
    pub start_inclusive: bool,
    pub end: u32,
    pub end_inclusive: bool,
}

/// A range in the syntax: its ends, where they were written, and whether
/// each belongs to the range.
#[derive(Clone, Copy, Debug, PartialEq, Eq, Structural)]
pub struct AstRange {
    pub start: Option<u32>,
    pub start_inclusive: bool,
    pub end: Option<u32>,
    pub end_inclusive: bool,
}

impl Range {
    /// Lowers the two ends of `ast`, the start first.
    pub fn new(ast: AstRange, ctx: &mut LowerCtx) -> (res: Range)
        requires
            old(ctx).well_formed(),
            old(ctx).body.exprs@.len() + 2 <= u32::MAX,
        ensures
            final(ctx).well_formed(),
            res == (Range {
                start: old(ctx).body.exprs@.len() as u32,
                start_inclusive: ast.start_inclusive,
                end: (old(ctx).body.exprs@.len() + 1) as u32,
                end_inclusive: ast.end_inclusive,
            }),
            final(ctx).body.exprs@ == spec_with_expr(
                spec_with_expr(old(ctx).body.exprs@, ast.start),
                ast.end,
            ),
            final(ctx).body.stmts@ == old(ctx).body.stmts@,
    {
        let start = ctx.collect_opt_expr(ast.start);
        let end = ctx.collect_opt_expr(ast.end);
        Range { start, start_inclusive: ast.start_inclusive, end, end_inclusive: ast.end_inclusive }
    }
}

/// A bound on the values of a parameter.
#[derive(Clone, Copy, Debug, PartialEq, Eq, Structural)]
pub enum ParamBounds {
    Exclud(u32),
    ExcludeRange(Range),
    From(Range),
}

/// A constraint in the syntax of a parameter.
#[derive(Clone, Copy, Debug, PartialEq, Eq, Structural)]
pub enum ConstraintKind {
    From(AstRange),
    Exclude(u32),
    ExcludeRange(AstRange),
}

/// The syntax of a parameter: its default value and its constraints. A
/// constraint that could not be parsed is `None`.
#[derive(Debug)]
pub struct AstParam {
    pub default: Option<u32>,
    pub constraints: Vec<Option<ConstraintKind>>,
}

/// The body of a parameter: its default value and its bounds.
#[derive(Debug, PartialEq, Eq)]
pub struct ParamBody {
    pub body: Body,
    pub default: u32,
    pub bounds: Vec<ParamBounds>,
}

/// Expressions and bounds while the constraints of a parameter are
/// lowered.
pub struct LoweredBounds {
    pub exprs: Seq<Expr>,
    pub bounds: Seq<ParamBounds>,
}

/// The range `ast` with its ends lowered into the next two expressions
/// after `len`.
pub open spec fn spec_range_at(ast: AstRange, len: nat) -> Range {
    Range {
        start: len as u32,
        start_inclusive: ast.start_inclusive,
        end: (len + 1) as u32,
        end_inclusive: ast.end_inclusive,
    }
}

/// What lowering one constraint adds. A range gives two expressions, the
/// start before the end, an excluded value one, and a constraint that could
/// not be parsed nothing.
pub open spec fn spec_lower_constraint(acc: LoweredBounds, constraint: Option<ConstraintKind>)
    -> LoweredBounds {
    match constraint {
        Some(ConstraintKind::From(range)) => LoweredBounds {
            exprs: spec_with_expr(spec_with_expr(acc.exprs, range.start), range.end),
            bounds: acc.bounds.push(ParamBounds::From(spec_range_at(range, acc.exprs.len()))),
        },
        Some(ConstraintKind::Exclude(expr)) => LoweredBounds {
            exprs: spec_with_expr(acc.exprs, Some(expr)),
            bounds: acc.bounds.push(ParamBounds::Exclud(acc.exprs.len() as u32)),
        },
        Some(ConstraintKind::ExcludeRange(range)) => LoweredBounds {
            exprs: spec_with_expr(spec_with_expr(acc.exprs, range.start), range.end),
            bounds: acc.bounds.push(
                ParamBounds::ExcludeRange(spec_range_at(range, acc.exprs.len())),
            ),
        },
        None => acc,
    }
}

/// What lowering the default value and then the first `n` constraints
/// gives.
pub open spec fn spec_lower_param(ast: &AstParam, n: nat) -> LoweredBounds
    decreases n,
{
    if n == 0 {
        LoweredBounds { exprs: spec_with_expr(Seq::empty(), ast.default), bounds: Seq::empty() }
    } else {
        spec_lower_constraint(spec_lower_param(ast, (n - 1) as nat), ast.constraints@[n - 1])
    }
}

proof fn lemma_lower_param_len(ast: &AstParam, n: nat)
    ensures
        spec_lower_param(ast, n).exprs.len() <= 1 + 2 * n,
    decreases n,
{
    if n > 0 {
        lemma_lower_param_len(ast, (n - 1) as nat);
    }
}

impl ParamBody {
    /// Lowers a parameter: first its default value, then its constraints
    /// in their order.
    pub fn body_with_sourcemap_query(ast: &AstParam) -> (res: (ParamBody, BodySourceMap))
        requires
            1 + 2 * ast.constraints@.len() <= u32::MAX,
        ensures
            res.0.default == 0,
            res.0.body.exprs@ == spec_lower_param(ast, ast.constraints@.len()).exprs,
            res.0.bounds@ == spec_lower_param(ast, ast.constraints@.len()).bounds,
            res.0.body.stmts@.len() == 0,
            (LowerCtx { body: res.0.body, source_map: res.1 }).well_formed(),
    {
        let mut ctx = LowerCtx::new();
        let default = ctx.collect_opt_expr(ast.default);
        let mut bounds: Vec<ParamBounds> = Vec::new();
        let n = ast.constraints.len();
        let mut i: usize = 0;
        assert(ctx.body.exprs@ =~= spec_lower_param(ast, 0).exprs);
        while i < n
            invariant
                i <= n,
                n == ast.constraints@.len(),
                1 + 2 * n <= u32::MAX,
                ctx.well_formed(),
                ctx.body.stmts@.len() == 0,
                ctx.body.exprs@ == spec_lower_param(ast, i as nat).exprs,
                bounds@ == spec_lower_param(ast, i as nat).bounds,
            decreases n - i,
        {
            proof {
                lemma_lower_param_len(ast, i as nat);
            }
            match ast.constraints[i] {
                Some(ConstraintKind::From(range)) => {
                    let range = Range::new(range, &mut ctx);
                    bounds.push(ParamBounds::From(range));
                },
                Some(ConstraintKind::Exclude(expr)) => {
                    let expr = ctx.collect_expr(expr);
                    bounds.push(ParamBounds::Exclud(expr));
                },
                Some(ConstraintKind::ExcludeRange(range)) => {
                    let range = Range::new(range, &mut ctx);
                    bounds.push(ParamBounds::ExcludeRange(range));
                },
                None => {},
            }
            i += 1;
        }
        let LowerCtx { body, source_map } = ctx;
        (ParamBody { body, bounds, default }, source_map)
    }
}

/// The body of an item that is a single expression.
#[derive(Debug, PartialEq, Eq)]
pub struct ExprBody {
    pub body: Body,
    pub val: u32,
}

/// The syntax of an item whose body is a single expression: a variable with
/// its default value, or an attribute of a nature or of a discipline with
/// its value.
#[derive(Clone, Copy, Debug, PartialEq, Eq, Structural)]
pub enum DefWithExpr {
    Var { default: Option<u32> },
    NatureAttr { val: Option<u32> },
    DisciplineAttr { val: Option<u32> },
}

impl DefWithExpr {
    /// The expression of the item, where the syntax has one.
    pub open spec fn spec_expr(self) -> Option<u32> {
        match self {
            DefWithExpr::Var { default } => default,
            DefWithExpr::NatureAttr { val } => val,
            DefWithExpr::DisciplineAttr { val } => val,
        }
    }
}

impl ExprBody {
    /// Lowers the expression of `def`, or a hole where it has none.
    pub fn body_with_sourcemap_query(def: DefWithExpr) -> (res: (ExprBody, BodySourceMap))
        ensures
            res.0.val == 0,
            res.0.body.exprs@ == spec_with_expr(Seq::empty(), def.spec_expr()),
            res.0.body.stmts@.len() == 0,
            (LowerCtx { body: res.0.body, source_map: res.1 }).well_formed(),
    {
        let mut ctx = LowerCtx::new();
        let expr = match def {
            DefWithExpr::Var { default } => default,
            DefWithExpr::NatureAttr { val } => val,
            DefWithExpr::DisciplineAttr { val } => val,
        };
        let val = ctx.collect_opt_expr(expr);
        let LowerCtx { body, source_map } = ctx;
        (ExprBody { body, val }, source_map)
    }
}

/// The analog behaviour of a module, or the body of a function: its
/// statements.
#[derive(Debug, PartialEq, Eq)]
pub struct AnalogBehaviour {
    pub body: Body,
    pub root_stmts: Vec<u32>,
}

/// The syntax of an item with behaviour, with the statements at its root.
#[derive(Debug)]
pub enum DefWithBehaviour {
    Module { analog_behaviour: Vec<u32> },
    Function { body: Vec<u32> },
}

impl DefWithBehaviour {
    /// The statements at the root of the item.
    pub open spec fn spec_stmts(&self) -> Seq<u32> {
        match self {
            DefWithBehaviour::Module { analog_behaviour } => analog_behaviour@,
            DefWithBehaviour::Function { body } => body@,
        }
    }
}

impl AnalogBehaviour {
    /// Lowers the statements at the root of `def`, in their order: the
    /// statement at position `i` gets the number `i`.
    pub fn body_with_sourcemap_query(def: &DefWithBehaviour) -> (res: (
        AnalogBehaviour,
        BodySourceMap,
    ))
        requires
            def.spec_stmts().len() <= u32::MAX,
        ensures
            res.0.root_stmts@ == Seq::new(def.spec_stmts().len(), |i: int| i as u32),
            res.0.body.stmts@ == Seq::new(
                def.spec_stmts().len(),
                |i: int| Stmt::Syntax(def.spec_stmts()[i]),
            ),
            res.0.body.exprs@.len() == 0,
            (LowerCtx { body: res.0.body, source_map: res.1 }).well_formed(),
    {
        let stmts = match def {
            DefWithBehaviour::Module { analog_behaviour } => analog_behaviour,
            DefWithBehaviour::Function { body } => body,
        };
        let mut ctx = LowerCtx::new();
        let mut root_stmts: Vec<u32> = Vec::new();
        let n = stmts.len();
        let mut i: usize = 0;
        while i < n
            invariant
                i <= n,
                n == stmts@.len(),
                n <= u32::MAX,
                stmts@ == def.spec_stmts(),
                ctx.well_formed(),
                ctx.body.exprs@.len() == 0,
                root_stmts@ == Seq::new(i as nat, |k: int| k as u32),
                ctx.body.stmts@ == Seq::new(i as nat, |k: int| Stmt::Syntax(stmts@[k])),
            decreases n - i,
        {
            let id = ctx.collect_stmt(stmts[i]);
            root_stmts.push(id);
            i += 1;
            assert(root_stmts@ =~= Seq::new(i as nat, |k: int| k as u32));
            assert(ctx.body.stmts@ =~= Seq::new(i as nat, |k: int| Stmt::Syntax(stmts@[k])));
        }
        let LowerCtx { body, source_map } = ctx;
        (AnalogBehaviour { root_stmts, body }, source_map)
    }
}

} // verus!
