//! The core of a compiler for Verilog-A device models.
//!
//! The front of the library reads declarations: [`parser`] reads the
//! header of a module from tokens, [`grammar`] writes down the events from
//! which a syntax tree is built, [`body`] and [`lowering`] lower what was
//! declared, and [`model_info`] collects what a model offers to the
//! outside.
//!
//! Its middle works on a control-flow graph in SSA form, [`graph`], to
//! which [`behaviour`] lowers the analog behaviour of a module. Over
//! the lattices of [`lattice`], [`data_flow`] brings the conditional
//! constant propagation of [`propagation`] to its fixed point and writes
//! the constants back; [`eval`] folds the operators; [`autodiff`] puts the
//! derivatives into the graph, and [`autodiff_ssa`] shows that the graph
//! stays in SSA form; [`visit`] walks a graph with a visitor.
//! [`runs`] says what a run of a graph is, tells whether the propagation
//! has come to a fixed point, and shows that a fixed point allows every
//! run; writing its constants back then keeps the runs.
//!
//! Its end assembles the Jacobian, [`matrix`], in a function body of
//! numbered values, [`mir`], and lays out the descriptor of the compiled
//! model, [`osdi`].
//!
//! Real numbers are held by their bit patterns throughout. The hash maps
//! are those of other crates; what is taken on trust of them is in
//! [`collections`].

pub mod autodiff;
pub mod autodiff_ssa;
pub mod behaviour;
pub mod bitset;
pub mod body;
pub mod collections;
pub mod data_flow;
pub mod eval;
pub mod grammar;
pub mod graph;
pub mod hir;
pub mod intern;
pub mod lattice;
pub mod lowering;
pub mod matrix;
pub mod mir;
pub mod model_info;
pub mod netlist;
pub mod osdi;
pub mod parser;
pub mod propagation;
pub mod runs;
pub mod ssa_constants;
pub mod string_expressions;
pub mod text;
pub mod visit;
