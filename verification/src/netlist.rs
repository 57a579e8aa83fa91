//! The nodes and branches of a module, as far as the assembly of the
//! Jacobian reads them.

use vstd::prelude::*;

verus! {

/// A node of the circuit.
#[derive(Debug)]
pub struct Node {
    pub name: String,
    /// The node is the ground: it gets neither a row nor a column.
    pub is_gnd: bool,
}

/// Between which nodes a branch runs.
#[derive(Clone, Copy, Debug, PartialEq, Eq, Structural)]
pub enum BranchKind {
    /// From a node to the ground.
    NodeGnd(u32),
    /// From the first node to the second.
    Nodes(u32, u32),
    /// The flow through a port.
    PortFlow(u32),
}

/// The nodes and the branches, each found by its number.
#[derive(Debug)]
pub struct Netlist {
    pub nodes: Vec<Node>,
    pub branches: Vec<BranchKind>,
}

impl Netlist {
    /// `node` is a ground node. A number that names no node is not.
    pub open spec fn spec_is_gnd(&self, node: u32) -> bool {
        (node as int) < self.nodes@.len() && self.nodes@[node as int].is_gnd
    }

    #[verifier::when_used_as_spec(spec_is_gnd)]
    pub fn is_gnd(&self, node: u32) -> (res: bool)
        ensures
            res == self.spec_is_gnd(node),
    {
        (node as usize) < self.nodes.len() && self.nodes[node as usize].is_gnd
    }

    /// The name of `node`. A number that names no node has the empty name.
    pub open spec fn spec_node_name(&self, node: u32) -> Seq<char> {
        if (node as int) < self.nodes@.len() {
            self.nodes@[node as int].name@
        } else {
            Seq::empty()
        }
    }

    pub fn node_name(&self, node: u32) -> (res: &str)
        ensures
            res@ == self.spec_node_name(node),
    {
        if (node as usize) < self.nodes.len() {
            self.nodes[node as usize].name.as_str()
        } else {
            proof {
                reveal_strlit("");
            }
            ""
        }
    }

    /// The kind of the branch `branch`, or `None` for a number that names
    /// no branch.
    pub open spec fn spec_branch_kind(&self, branch: u32) -> Option<BranchKind> {
        if (branch as int) < self.branches@.len() {
            Some(self.branches@[branch as int])
        } else {
            None
        }
    }

    #[verifier::when_used_as_spec(spec_branch_kind)]
    pub fn branch_kind(&self, branch: u32) -> (res: Option<BranchKind>)
        ensures
            res == self.spec_branch_kind(branch),
    {
        if (branch as usize) < self.branches.len() {
            Some(self.branches[branch as usize])
        } else {
            None
        }
    }
}

} // verus!
