//! The tables that lowering leaves behind: what each output and each
//! parameter of the lowered function stands for.

use vstd::prelude::*;

verus! {

/// What a parameter of the lowered function stands for.
#[derive(Clone, Copy, Debug, PartialEq, Eq, Structural)]
pub enum ParamKind {
    /// A parameter of the model.
    Param(u32),
    /// The voltage from `hi` to `lo`, or to the ground where `lo` is `None`.
    Voltage { hi: u32, lo: Option<u32> },
    /// The current through a branch.
    Current(u32),
    Temperature,
}

/// What an output of the lowered function stands for.
#[derive(Clone, Copy, Debug, PartialEq, Eq, Structural)]
pub enum PlaceKind {
    /// A variable of the model.
    Var(u32),
    /// The contribution to the potential of a branch.
    BranchVoltage(u32),
    /// The contribution to the flow of a branch.
    BranchCurrent(u32),
    /// The contribution to the potential between two nodes without a
    /// declared branch.
    ImplicitBranchVoltage { hi: u32, lo: Option<u32> },
    /// The contribution to the flow between two nodes without a declared
    /// branch.
    ImplicitBranchCurrent { hi: u32, lo: Option<u32> },
}

/// A call-back of the lowered function.
#[derive(Clone, Copy, Debug, PartialEq, Eq, Structural)]
pub enum CallBackKind {
    /// The derivative by the parameter with this number: its position in
    /// the table is the number of the unknown.
    Derivative(u32),
    /// Any other intrinsic, by its number.
    Intrinsic(u32),
}

/// The tables of one lowered function.
#[derive(Debug)]
pub struct HirInterner {
    /// Each output with the value that holds it.
    pub outputs: Vec<(PlaceKind, u32)>,
    /// The kind of each parameter.
    pub params: Vec<ParamKind>,
    /// The call-backs.
    pub callbacks: Vec<CallBackKind>,
}

/// The first position below `n` at which `callbacks` holds the derivative
/// by `param`.
pub open spec fn spec_unknown_below(callbacks: Seq<CallBackKind>, param: u32, n: nat) -> Option<
    u32,
>
    decreases n,
{
    if n == 0 {
        None
    } else {
        match spec_unknown_below(callbacks, param, (n - 1) as nat) {
            Some(i) => Some(i),
            None => if callbacks[n - 1] == CallBackKind::Derivative(param) && n - 1 <= u32::MAX {
                Some((n - 1) as u32)
            } else {
                None
            },
        }
    }
}

impl HirInterner {
    /// The number of the unknown that belongs to the parameter `param`: the
    /// first position of its derivative among the call-backs. `None` where
    /// no derivative by it was asked for.
    pub open spec fn spec_unknown_of(&self, param: u32) -> Option<u32> {
        spec_unknown_below(self.callbacks@, param, self.callbacks@.len())
    }

    #[verifier::when_used_as_spec(spec_unknown_of)]
    pub fn unknown_of(&self, param: u32) -> (res: Option<u32>)
        ensures
            res == self.spec_unknown_of(param),
    {
        let n = self.callbacks.len();
        let mut i: usize = 0;
        while i < n
            invariant
                i <= n,
                n == self.callbacks@.len(),
                spec_unknown_below(self.callbacks@, param, i as nat) is None,
            decreases n - i,
        {
            if i <= u32::MAX as usize {
                if let CallBackKind::Derivative(p) = self.callbacks[i] {
                    if p == param {
                        proof {
                            lemma_unknown_found(self.callbacks@, param, (i + 1) as nat, n as nat);
                        }
                        return Some(i as u32);
                    }
                }
            }
            i += 1;
        }
        None
    }
}

/// Once found below `n`, the position stays the answer for every larger
/// bound.
pub proof fn lemma_unknown_found(callbacks: Seq<CallBackKind>, param: u32, n: nat, m: nat)
    requires
        n <= m,
        spec_unknown_below(callbacks, param, n) is Some,
    ensures
        spec_unknown_below(callbacks, param, m) == spec_unknown_below(callbacks, param, n),
    decreases m - n,
{
    if n < m {
        lemma_unknown_found(callbacks, param, n, (m - 1) as nat);
    }
}

} // verus!
