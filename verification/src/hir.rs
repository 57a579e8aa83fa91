//! The high-level tree that lowering starts from: the declarations of the
//! modules, and the statements and expressions of their analog blocks, each
//! found by its number in the table of its kind.

use vstd::prelude::*;

verus! {

/// The number of an interned name.
pub type Ident = u32;

/// The numbers `start..end`.
#[derive(Clone, Copy, Debug, PartialEq, Eq, Structural)]
pub struct IdRange {
    pub start: u32,
    pub end: u32,
}

/// The kind of wire that a net or a port was declared as.
#[derive(Clone, Copy, Debug, PartialEq, Eq, Structural)]
pub enum NetType {
    UNDECLARED,
    REG,
    WREAL,
    SUPPLY0,
    SUPPLY1,
    TRI,
    TRIAND,
    TRIOR,
    TRI0,
    TRI1,
    WIRE,
    UWIRE,
    WAND,
    WOR,
    GROUND,
}

/// An item in the body of a module.
#[derive(Clone, Copy, Debug, PartialEq, Eq, Structural)]
pub enum ModuleItem {
    AnalogStmt(u32),
    BranchDecl(u32),
    NetDecl(u32),
    VariableDecl(u32),
    ParameterDecl(u32),
}

/// A module: its name, its ports as a range of port numbers, and its items.
#[derive(Debug)]
pub struct Module {
    pub name: Ident,
    pub port_list: Option<IdRange>,
    pub children: Vec<ModuleItem>,
}

/// A port of a module.
#[derive(Clone, Copy, Debug, PartialEq, Eq, Structural)]
pub struct Port {
    pub name: Ident,
    pub input: bool,
    pub output: bool,
    pub discipline: u32,
    pub signed: bool,
    pub net_type: NetType,
}

/// What a branch runs through: a port, or from one net to another.
#[derive(Clone, Copy, Debug, PartialEq, Eq, Structural)]
pub enum Branch {
    Port(u32),
    Nets(u32, u32),
}

/// A named branch.
#[derive(Clone, Copy, Debug, PartialEq, Eq, Structural)]
pub struct BranchDeclaration {
    pub name: Ident,
    pub branch: Branch,
}

/// A net of a module.
#[derive(Clone, Copy, Debug, PartialEq, Eq, Structural)]
pub struct Net {
    pub name: Ident,
    pub discipline: u32,
    pub signed: bool,
    pub net_type: NetType,
}

/// Whether the potential or the flow of a branch is meant.
#[derive(Clone, Copy, Debug, PartialEq, Eq, Structural)]
pub enum DisciplineAccess {
    Potential,
    Flow,
}

/// The branch that an access names: a declared one, or the one between two
/// nets.
#[derive(Clone, Copy, Debug, PartialEq, Eq, Structural)]
pub enum BranchAccess {
    Named(u32),
    Unnamed(u32, u32),
}

/// An operator with two operands.
#[derive(Clone, Copy, Debug, PartialEq, Eq, Structural)]
pub enum BinaryOperator {
    Sum,
    Subtract,
    Multiply,
    Divide,
    Exponent,
    Modulus,
    LessThen,
    LessEqual,
    GreaterThen,
    GreaterEqual,
    LogicEqual,
    LogicalNotEqual,
    LogicOr,
    LogicAnd,
}

/// An operator with one operand.
#[derive(Clone, Copy, Debug, PartialEq, Eq, Structural)]
pub enum UnaryOperator {
    ArithmeticNegate,
    LogicNegate,
}

/// A leaf of an expression. A real literal is held by its bit pattern, the
/// arguments of a call as a range of expression numbers.
#[derive(Clone, Copy, Debug, PartialEq, Eq, Structural)]
pub enum Primary {
    Integer(i64),
    UnsignedInteger(u32),
    Real(u64),
    VariableReference(u32),
    NetReference(u32),
    PortReference(u32),
    FunctionCall(u32, Option<IdRange>),
    BranchAccess(DisciplineAccess, BranchAccess),
}

/// An expression; its operands are expressions, by their numbers.
#[derive(Clone, Copy, Debug, PartialEq, Eq, Structural)]
pub enum Expression {
    BinaryOperator(u32, BinaryOperator, u32),
    UnaryOperator(UnaryOperator, u32),
    Primary(Primary),
}

/// An `if` with its chain of `else if` and its `else`.
#[derive(Debug)]
pub struct Condition {
    pub main_condition: u32,
    pub main_condition_statement: u32,
    pub else_ifs: Vec<(u32, u32)>,
    pub else_statement: Option<u32>,
}

/// A statement of an analog block.
#[derive(Debug)]
pub enum Statement {
    Condition(Condition),
    Contribute(DisciplineAccess, BranchAccess, u32),
    Assignment(u32, u32),
    FunctionCall(u32, Vec<u32>),
}

/// A discipline, a variable or an attribute as the syntax tree holds it:
/// these are taken over as they are.
#[derive(Clone, Copy, Debug, PartialEq, Eq, Structural)]
pub struct Declared {
    pub name: Ident,
}

/// The tables of the syntax tree of a project, as far as the high-level
/// tree is made from them: the tables that it takes over, and the sizes of
/// those whose entries it makes anew.
#[derive(Debug)]
pub struct Ast {
    pub disciplines: Vec<Declared>,
    pub variables: Vec<Declared>,
    pub attributes: Vec<Declared>,
    pub branches: usize,
    pub nets: usize,
    pub ports: usize,
    pub modules: usize,
    pub expressions: usize,
    pub statements: usize,
    /// The items at the top of the file, by their numbers.
    pub top_nodes: Vec<u32>,
}

/// The tables of a project. An entry that has not been made yet is
/// `None`.
#[derive(Debug)]
pub struct Hir {
    pub disciplines: Vec<Declared>,
    pub variables: Vec<Declared>,
    pub attributes: Vec<Declared>,
    pub branches: Vec<Option<BranchDeclaration>>,
    pub nets: Vec<Option<Net>>,
    pub ports: Vec<Option<Port>>,
    pub modules: Vec<Option<Module>>,
    pub expressions: Vec<Option<Expression>>,
    pub statements: Vec<Option<Statement>>,
    pub top_nodes: Vec<u32>,
}

/// A table of `len` entries that have not been made yet.
fn unmade<T>(len: usize) -> (res: Vec<Option<T>>)
    ensures
        res@.len() == len,
        forall|i: int| 0 <= i < len ==> (#[trigger] res@[i]) is None,
{
    let mut res: Vec<Option<T>> = Vec::new();
    let mut i: usize = 0;
    while i < len
        invariant
            i <= len,
            res@.len() == i,
            forall|k: int| 0 <= k < i ==> (#[trigger] res@[k]) is None,
        decreases len - i,
    {
        res.push(None);
        i += 1;
    }
    res
}

impl Hir {
    /// Starts the high-level tree of `ast`. The disciplines, the
    /// variables, the attributes and the items at the top are taken out of
    /// `ast`, which is left without them. Every other table gets as many
    /// entries as `ast` has of the kind, none of them made yet.
    pub fn partial_initalize(ast: &mut Ast) -> (res: Hir)
        ensures
            res.disciplines@ == old(ast).disciplines@,
            res.variables@ == old(ast).variables@,
            res.attributes@ == old(ast).attributes@,
            res.top_nodes@ == old(ast).top_nodes@,
            final(ast).disciplines@.len() == 0,
            final(ast).variables@.len() == 0,
            final(ast).attributes@.len() == 0,
            final(ast).top_nodes@.len() == 0,
            final(ast).branches == old(ast).branches,
            final(ast).nets == old(ast).nets,
            final(ast).ports == old(ast).ports,
            final(ast).modules == old(ast).modules,
            final(ast).expressions == old(ast).expressions,
            final(ast).statements == old(ast).statements,
            res.branches@.len() == old(ast).branches,
            res.nets@.len() == old(ast).nets,
            res.ports@.len() == old(ast).ports,
            res.modules@.len() == old(ast).modules,
            res.expressions@.len() == old(ast).expressions,
            res.statements@.len() == old(ast).statements,
            forall|i: int| 0 <= i < res.branches@.len() ==> (#[trigger] res.branches@[i]) is None,
            forall|i: int| 0 <= i < res.nets@.len() ==> (#[trigger] res.nets@[i]) is None,
            forall|i: int| 0 <= i < res.ports@.len() ==> (#[trigger] res.ports@[i]) is None,
            forall|i: int| 0 <= i < res.modules@.len() ==> (#[trigger] res.modules@[i]) is None,
            forall|i: int|
                0 <= i < res.expressions@.len() ==> (#[trigger] res.expressions@[i]) is None,
            forall|i: int|
                0 <= i < res.statements@.len() ==> (#[trigger] res.statements@[i]) is None,
    {
        let mut res = Hir {
            disciplines: Vec::new(),
            variables: Vec::new(),
            attributes: Vec::new(),
            branches: unmade(ast.branches),
            nets: unmade(ast.nets),
            ports: unmade(ast.ports),
            modules: unmade(ast.modules),
            expressions: unmade(ast.expressions),
            statements: unmade(ast.statements),
            top_nodes: Vec::new(),
        };
        core::mem::swap(&mut res.disciplines, &mut ast.disciplines);
        core::mem::swap(&mut res.variables, &mut ast.variables);
        core::mem::swap(&mut res.attributes, &mut ast.attributes);
        core::mem::swap(&mut res.top_nodes, &mut ast.top_nodes);
        res
    }
}

} // verus!
