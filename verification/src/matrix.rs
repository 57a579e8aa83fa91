//! Assembly of the Jacobian: the derivatives of the contributions are
//! stamped into a sparse matrix of nodes by nodes.

use vstd::prelude::*;
use crate::bitset::BitSet;
use crate::collections::{
    derivative_get, derivative_values, entries_get_index, entries_get_index_of, entries_insert,
    entries_len, entries_new, entries_retain_kept, entries_set_value, entry_seq, spec_keeps_entry,
    spec_kept,
};
use crate::intern::{HirInterner, ParamKind, PlaceKind};
use crate::mir::{Function, FunctionView, InstructionData, Opcode, ValueDef, F_ZERO};
use crate::netlist::{BranchKind, Netlist};
use crate::text::{decimal, decimal_string, push_str};

verus! {

/// The place of an entry in the matrix.
#[derive(Clone, Copy, Debug, PartialEq, Eq, Hash, Structural)]
pub struct MatrixEntry {
    pub row: u32,
    pub col: u32,
}

/// The number of an entry: its position in the order in which the entries
/// were made.
#[derive(Clone, Copy, Debug, PartialEq, Eq, PartialOrd, Ord, Structural)]
pub struct MatrixEntryId(pub u32);

/// The matrix: for each entry that was stamped, the value that holds the
/// sum of what was stamped into it.
pub struct JacobianMatrix {
    pub entries: indexmap::IndexMap<(u32, u32), u32, ahash::RandomState>,
}

/// No two entries have the same row and column.
pub open spec fn keys_distinct(entries: Seq<((u32, u32), u32)>) -> bool {
    forall|i: int, j: int|
        0 <= i < entries.len() && 0 <= j < entries.len() && (#[trigger] entries[i]).0 == (
        #[trigger] entries[j]).0 ==> i == j
}

/// The position of the entry with the key `key`.
pub open spec fn spec_position(entries: Seq<((u32, u32), u32)>, key: (u32, u32)) -> Option<int> {
    if exists|i: int| 0 <= i < entries.len() && (#[trigger] entries[i]).0 == key {
        Some(choose|i: int| 0 <= i < entries.len() && (#[trigger] entries[i]).0 == key)
    } else {
        None
    }
}

/// The matrix and the function body that its values live in.
pub struct Assembly {
    pub entries: Seq<((u32, u32), u32)>,
    pub func: FunctionView,
}

/// Adds `val` to the entry at `(row, col)`, or subtracts it where `neg` is
/// set. An entry that is there gets a new value, the sum or the difference
/// of its value and `val`. An entry that is not there is made, after all
/// others, with `val` itself or, where `neg` is set, with its negation.
pub open spec fn spec_ensure_entry(a: Assembly, row: u32, col: u32, val: u32, neg: bool)
    -> Assembly {
    let key = (row, col);
    let fresh = a.func.values.len() as u32;
    match spec_position(a.entries, key) {
        Some(i) => {
            let dst = a.entries[i].1;
            let opcode = if neg {
                Opcode::Fsub
            } else {
                Opcode::Fadd
            };
            Assembly {
                entries: a.entries.update(i, (key, fresh)),
                func: a.func.push_inst(InstructionData::Binary { opcode, lhs: dst, rhs: val }),
            }
        },
        None => if neg {
            Assembly {
                entries: a.entries.push((key, fresh)),
                func: a.func.push_inst(InstructionData::Unary { opcode: Opcode::Fneg, arg: val }),
            }
        } else {
            Assembly { entries: a.entries.push((key, val)), func: a.func }
        },
    }
}

/// The body `after` has at most `n` values and `n` instructions more than
/// `before`.
pub open spec fn spec_grown_by(before: FunctionView, after: FunctionView, n: nat) -> bool {
    &&& before.values.len() <= after.values.len() <= before.values.len() + n
    &&& before.insts.len() <= after.insts.len() <= before.insts.len() + n
}

/// In a matrix without repeated keys, a position that holds `key` is the
/// position of `key`.
pub proof fn lemma_position_found(entries: Seq<((u32, u32), u32)>, key: (u32, u32), i: int)
    requires
        keys_distinct(entries),
        0 <= i < entries.len(),
        entries[i].0 == key,
    ensures
        spec_position(entries, key) == Some(i),
{
}

/// A key that no position holds has no position.
pub proof fn lemma_position_absent(entries: Seq<((u32, u32), u32)>, key: (u32, u32))
    requires
        forall|j: int| 0 <= j < entries.len() ==> (#[trigger] entries[j]).0 != key,
    ensures
        spec_position(entries, key) is None,
{
}

impl JacobianMatrix {
    /// A matrix without entries.
    pub fn new() -> (res: JacobianMatrix)
        ensures
            res@ == Seq::<((u32, u32), u32)>::empty(),
            res.well_formed(),
    {
        JacobianMatrix { entries: entries_new() }
    }

    /// No two entries have the same row and column.
    pub open spec fn well_formed(&self) -> bool {
        keys_distinct(self@)
    }

    /// The number of entries.
    pub fn len(&self) -> (n: usize)
        ensures
            n == self@.len(),
    {
        entries_len(&self.entries)
    }

    /// The value of the entry at `(row, col)`, or `None` where nothing was
    /// stamped there.
    pub fn get(&self, row: u32, col: u32) -> (res: Option<u32>)
        requires
            self.well_formed(),
        ensures
            res == match spec_position(self@, (row, col)) {
                Some(i) => Some(self@[i].1),
                None => None,
            },
    {
        match entries_get_index_of(&self.entries, (row, col)) {
            Some(i) => {
                proof {
                    lemma_position_found(self@, (row, col), i as int);
                }
                match entries_get_index(&self.entries, i) {
                    Some(entry) => Some(entry.1),
                    None => None,
                }
            },
            None => {
                proof {
                    lemma_position_absent(self@, (row, col));
                }
                None
            },
        }
    }

    /// The entry with the number `id` and its value, or `None` where there
    /// are not that many entries.
    pub fn entry(&self, id: MatrixEntryId) -> (res: Option<(MatrixEntry, u32)>)
        ensures
            res == if (id.0 as int) < self@.len() {
                Some(
                    (
                        MatrixEntry { row: self@[id.0 as int].0.0, col: self@[id.0 as int].0.1 },
                        self@[id.0 as int].1,
                    ),
                )
            } else {
                None
            },
    {
        match entries_get_index(&self.entries, id.0 as usize) {
            Some(entry) => Some((MatrixEntry { row: entry.0.0, col: entry.0.1 }, entry.1)),
            None => None,
        }
    }

    /// The matrix together with `func`.
    pub open spec fn with(&self, func: &Function) -> Assembly {
        Assembly { entries: self@, func: func@ }
    }

    /// See [`spec_ensure_entry`].
    pub fn ensure_entry(&mut self, func: &mut Function, row: u32, col: u32, val: u32, neg: bool)
        requires
            old(self).well_formed(),
            old(func)@.well_formed(),
            old(func).spec_has_room(1),
        ensures
            final(self).well_formed(),
            final(func)@.well_formed(),
            final(self).with(final(func)) == spec_ensure_entry(
                old(self).with(old(func)),
                row,
                col,
                val,
                neg,
            ),
            spec_grown_by(old(func)@, final(func)@, 1),
    {
        let key = (row, col);
        match entries_get_index_of(&self.entries, key) {
            Some(i) => {
                proof {
                    lemma_position_found(self@, key, i as int);
                }
                let dst = match entries_get_index(&self.entries, i) {
                    Some(entry) => entry.1,
                    None => val,
                };
                let sum = if neg {
                    func.fsub(dst, val)
                } else {
                    func.fadd(dst, val)
                };
                entries_set_value(&mut self.entries, i, sum);
            },
            None => {
                proof {
                    lemma_position_absent(self@, key);
                }
                let first = if neg {
                    func.fneg(val)
                } else {
                    val
                };
                entries_insert(&mut self.entries, key, first);
            },
        }
    }
}

/// A contribution that cannot be stamped.
#[derive(Clone, Copy, Debug, PartialEq, Eq, Structural)]
pub enum Unsupported {
    /// A contribution to a potential.
    VoltageContribution,
    /// A contribution to the flow through a port.
    PortFlow,
    /// A contribution to a branch that the netlist does not have.
    UnknownBranch,
}

/// Why nothing was stamped: the first output that cannot be, by its
/// position among the outputs, and what it is.
#[derive(Clone, Copy, Debug, PartialEq, Eq, Structural)]
pub struct StampError {
    pub output: usize,
    pub kind: Unsupported,
}

/// Why the output `kind` cannot be stamped, if it cannot.
pub open spec fn spec_unsupported(netlist: &Netlist, kind: PlaceKind) -> Option<Unsupported> {
    match kind {
        PlaceKind::BranchVoltage(_) | PlaceKind::ImplicitBranchVoltage { .. } => Some(
            Unsupported::VoltageContribution,
        ),
        PlaceKind::BranchCurrent(branch) => match netlist.branch_kind(branch) {
            Some(BranchKind::PortFlow(_)) => Some(Unsupported::PortFlow),
            Some(_) => None,
            None => Some(Unsupported::UnknownBranch),
        },
        _ => None,
    }
}

/// The rows of the output `kind`: the node that the flow leaves and the
/// node that it enters, `None` for the ground. An output that is no
/// contribution to a flow has no rows.
pub open spec fn spec_rows(netlist: &Netlist, kind: PlaceKind) -> Option<(u32, Option<u32>)> {
    match kind {
        PlaceKind::BranchCurrent(branch) => match netlist.branch_kind(branch) {
            Some(BranchKind::NodeGnd(node)) => Some((node, None)),
            Some(BranchKind::Nodes(hi, lo)) => Some((hi, Some(lo))),
            _ => None,
        },
        PlaceKind::ImplicitBranchCurrent { hi, lo } => Some((hi, lo)),
        _ => None,
    }
}

/// The first of the first `n` outputs that cannot be stamped.
pub open spec fn spec_first_unsupported(
    netlist: &Netlist,
    outputs: Seq<(PlaceKind, u32)>,
    n: nat,
) -> Option<StampError>
    decreases n,
{
    if n == 0 {
        None
    } else {
        match spec_first_unsupported(netlist, outputs, (n - 1) as nat) {
            Some(e) => Some(e),
            None => match spec_unsupported(netlist, outputs[n - 1].0) {
                Some(kind) => Some(StampError { output: (n - 1) as usize, kind }),
                None => None,
            },
        }
    }
}

/// Once found among the first `n`, the first unsupported output stays the
/// same for every larger `n`.
pub proof fn lemma_first_unsupported_found(
    netlist: &Netlist,
    outputs: Seq<(PlaceKind, u32)>,
    n: nat,
    m: nat,
)
    requires
        n <= m,
        spec_first_unsupported(netlist, outputs, n) is Some,
    ensures
        spec_first_unsupported(netlist, outputs, m) == spec_first_unsupported(netlist, outputs, n),
    decreases m - n,
{
    if n < m {
        lemma_first_unsupported_found(netlist, outputs, n, (m - 1) as nat);
    }
}

/// The column of the parameter with the number `param` for the output held
/// in `rhs`: the nodes of the voltage that the parameter stands for, and
/// the value of the derivative of `rhs` by it. `None` where the parameter
/// is no voltage, where no derivative by it was computed, and where the
/// derivative is the literal zero.
pub open spec fn spec_column(
    interner: &HirInterner,
    derivatives: Map<(u32, u32), u32>,
    rhs: u32,
    param: int,
) -> Option<(u32, Option<u32>, u32)> {
    if param > u32::MAX {
        None
    } else {
        match interner.params@[param] {
            ParamKind::Voltage { hi, lo } => match interner.unknown_of(param as u32) {
                Some(unknown) => if derivatives.dom().contains((rhs, unknown)) && derivatives[(
                    rhs,
                    unknown,
                )] != F_ZERO {
                    Some((hi, lo, derivatives[(rhs, unknown)]))
                } else {
                    None
                },
                None => None,
            },
            _ => None,
        }
    }
}

/// Stamps the derivative `ddx` of a flow from `row_hi` to `row_lo` by the
/// voltage from `col_hi` to `col_lo`. Unless `row_hi` is the ground, `ddx`
/// is added at `(row_hi, col_hi)` and subtracted at `(row_hi, col_lo)`;
/// unless `row_lo` is the ground, it is subtracted at `(row_lo, col_hi)`
/// and added at `(row_lo, col_lo)`. A column `None` is the ground and gets
/// nothing.
pub open spec fn spec_stamp(
    a: Assembly,
    netlist: &Netlist,
    row_hi: u32,
    row_lo: Option<u32>,
    col_hi: u32,
    col_lo: Option<u32>,
    ddx: u32,
) -> Assembly {
    let a1 = if !netlist.is_gnd(row_hi) {
        let x = spec_ensure_entry(a, row_hi, col_hi, ddx, false);
        match col_lo {
            Some(cl) => spec_ensure_entry(x, row_hi, cl, ddx, true),
            None => x,
        }
    } else {
        a
    };
    match row_lo {
        Some(rl) => if !netlist.is_gnd(rl) {
            let y = spec_ensure_entry(a1, rl, col_hi, ddx, true);
            match col_lo {
                Some(cl) => spec_ensure_entry(y, rl, cl, ddx, false),
                None => y,
            }
        } else {
            a1
        },
        None => a1,
    }
}

/// Stamps the derivatives of the output held in `rhs`, with the rows
/// `row_hi` and `row_lo`, by the first `n` parameters.
pub open spec fn spec_stamp_params(
    a: Assembly,
    netlist: &Netlist,
    interner: &HirInterner,
    derivatives: Map<(u32, u32), u32>,
    row_hi: u32,
    row_lo: Option<u32>,
    rhs: u32,
    n: nat,
) -> Assembly
    decreases n,
{
    if n == 0 {
        a
    } else {
        let prev = spec_stamp_params(
            a,
            netlist,
            interner,
            derivatives,
            row_hi,
            row_lo,
            rhs,
            (n - 1) as nat,
        );
        match spec_column(interner, derivatives, rhs, n - 1) {
            Some((col_hi, col_lo, ddx)) => spec_stamp(
                prev,
                netlist,
                row_hi,
                row_lo,
                col_hi,
                col_lo,
                ddx,
            ),
            None => prev,
        }
    }
}

/// Stamps the first `n` outputs, each by every parameter.
pub open spec fn spec_populate(
    a: Assembly,
    netlist: &Netlist,
    interner: &HirInterner,
    derivatives: Map<(u32, u32), u32>,
    n: nat,
) -> Assembly
    decreases n,
{
    if n == 0 {
        a
    } else {
        let prev = spec_populate(a, netlist, interner, derivatives, (n - 1) as nat);
        match spec_rows(netlist, interner.outputs@[n - 1].0) {
            Some((row_hi, row_lo)) => spec_stamp_params(
                prev,
                netlist,
                interner,
                derivatives,
                row_hi,
                row_lo,
                interner.outputs@[n - 1].1,
                interner.params@.len(),
            ),
            None => prev,
        }
    }
}

fn unsupported(netlist: &Netlist, kind: PlaceKind) -> (res: Option<Unsupported>)
    ensures
        res == spec_unsupported(netlist, kind),
{
    match kind {
        PlaceKind::BranchVoltage(_) => Some(Unsupported::VoltageContribution),
        PlaceKind::ImplicitBranchVoltage { .. } => Some(Unsupported::VoltageContribution),
        PlaceKind::BranchCurrent(branch) => match netlist.branch_kind(branch) {
            Some(BranchKind::PortFlow(_)) => Some(Unsupported::PortFlow),
            Some(_) => None,
            None => Some(Unsupported::UnknownBranch),
        },
        _ => None,
    }
}

fn rows(netlist: &Netlist, kind: PlaceKind) -> (res: Option<(u32, Option<u32>)>)
    ensures
        res == spec_rows(netlist, kind),
{
    match kind {
        PlaceKind::BranchCurrent(branch) => match netlist.branch_kind(branch) {
            Some(BranchKind::NodeGnd(node)) => Some((node, None)),
            Some(BranchKind::Nodes(hi, lo)) => Some((hi, Some(lo))),
            _ => None,
        },
        PlaceKind::ImplicitBranchCurrent { hi, lo } => Some((hi, lo)),
        _ => None,
    }
}

fn column(
    interner: &HirInterner,
    derivatives: &ahash::AHashMap<(u32, u32), u32>,
    rhs: u32,
    param: usize,
) -> (res: Option<(u32, Option<u32>, u32)>)
    requires
        param < interner.params@.len(),
    ensures
        res == spec_column(interner, derivative_values(*derivatives), rhs, param as int),
{
    if param > u32::MAX as usize {
        return None;
    }
    match interner.params[param] {
        ParamKind::Voltage { hi, lo } => match interner.unknown_of(param as u32) {
            Some(unknown) => match derivative_get(derivatives, rhs, unknown) {
                Some(ddx) => if ddx != F_ZERO {
                    Some((hi, lo, ddx))
                } else {
                    None
                },
                None => None,
            },
            None => None,
        },
        _ => None,
    }
}

/// The first output that cannot be stamped, if there is one.
pub fn first_unsupported(netlist: &Netlist, interner: &HirInterner) -> (res: Option<StampError>)
    ensures
        res == spec_first_unsupported(netlist, interner.outputs@, interner.outputs@.len()),
{
    let n = interner.outputs.len();
    let mut i: usize = 0;
    while i < n
        invariant
            i <= n,
            n == interner.outputs@.len(),
            spec_first_unsupported(netlist, interner.outputs@, i as nat) is None,
        decreases n - i,
    {
        if let Some(kind) = unsupported(netlist, interner.outputs[i].0) {
            proof {
                lemma_first_unsupported_found(
                    netlist,
                    interner.outputs@,
                    (i + 1) as nat,
                    n as nat,
                );
            }
            return Some(StampError { output: i, kind });
        }
        i += 1;
    }
    None
}

impl JacobianMatrix {
    /// See [`spec_stamp`].
    pub fn stamp(
        &mut self,
        func: &mut Function,
        netlist: &Netlist,
        row_hi: u32,
        row_lo: Option<u32>,
        col_hi: u32,
        col_lo: Option<u32>,
        ddx: u32,
    )
        requires
            old(self).well_formed(),
            old(func)@.well_formed(),
            old(func).spec_has_room(4),
        ensures
            final(self).well_formed(),
            final(func)@.well_formed(),
            final(self).with(final(func)) == spec_stamp(
                old(self).with(old(func)),
                netlist,
                row_hi,
                row_lo,
                col_hi,
                col_lo,
                ddx,
            ),
            spec_grown_by(old(func)@, final(func)@, 4),
    {
        if !netlist.is_gnd(row_hi) {
            self.ensure_entry(func, row_hi, col_hi, ddx, false);
            if let Some(col_lo) = col_lo {
                self.ensure_entry(func, row_hi, col_lo, ddx, true);
            }
        }
        if let Some(row_lo) = row_lo {
            if !netlist.is_gnd(row_lo) {
                self.ensure_entry(func, row_lo, col_hi, ddx, true);
                if let Some(col_lo) = col_lo {
                    self.ensure_entry(func, row_lo, col_lo, ddx, false);
                }
            }
        }
    }

    /// Stamps the derivatives of every contribution to a flow by every
    /// voltage, as [`spec_populate`] says, unless some output cannot be
    /// stamped: then nothing is, and the first such output is reported.
    pub fn populate(
        &mut self,
        netlist: &Netlist,
        func: &mut Function,
        interner: &HirInterner,
        derivatives: &ahash::AHashMap<(u32, u32), u32>,
    ) -> (res: Result<(), StampError>)
        requires
            old(self).well_formed(),
            old(func)@.well_formed(),
            old(func).spec_has_room(4 * (interner.outputs@.len() as int) * interner.params@.len()),
        ensures
            final(self).well_formed(),
            final(func)@.well_formed(),
            match res {
                Ok(()) => {
                    &&& spec_first_unsupported(
                        netlist,
                        interner.outputs@,
                        interner.outputs@.len(),
                    ) is None
                    &&& final(self).with(final(func)) == spec_populate(
                        old(self).with(old(func)),
                        netlist,
                        interner,
                        derivative_values(*derivatives),
                        interner.outputs@.len(),
                    )
                },
                Err(e) => {
                    &&& spec_first_unsupported(netlist, interner.outputs@, interner.outputs@.len())
                        == Some(e)
                    &&& final(self)@ == old(self)@
                    &&& final(func)@ == old(func)@
                },
            },
    {
        if let Some(e) = first_unsupported(netlist, interner) {
            return Err(e);
        }
        let n_out = interner.outputs.len();
        let n_par = interner.params.len();
        let ghost start = self.with(func);
        let ghost derivs = derivative_values(*derivatives);
        let mut i: usize = 0;
        while i < n_out
            invariant
                i <= n_out,
                n_out == interner.outputs@.len(),
                n_par == interner.params@.len(),
                derivs == derivative_values(*derivatives),
                self.well_formed(),
                func@.well_formed(),
                func.spec_has_room(4 * (n_out - i) * n_par),
                self.with(func) == spec_populate(start, netlist, interner, derivs, i as nat),
            decreases n_out - i,
        {
            let (kind, rhs) = interner.outputs[i];
            assert(4 * (n_out - i) * n_par == 4 * (n_out - i - 1) * n_par + 4 * n_par)
                by (nonlinear_arith);
            if let Some((row_hi, row_lo)) = rows(netlist, kind) {
                let ghost before = self.with(func);
                let mut j: usize = 0;
                while j < n_par
                    invariant
                        j <= n_par,
                        i < n_out,
                        n_par == interner.params@.len(),
                        derivs == derivative_values(*derivatives),
                        self.well_formed(),
                        func@.well_formed(),
                        func.spec_has_room(4 * (n_out - i - 1) * n_par + 4 * (n_par - j)),
                        self.with(func) == spec_stamp_params(
                            before,
                            netlist,
                            interner,
                            derivs,
                            row_hi,
                            row_lo,
                            rhs,
                            j as nat,
                        ),
                    decreases n_par - j,
                {
                    assert(4 * (n_out - i - 1) * n_par >= 0) by (nonlinear_arith)
                        requires
                            n_out - i - 1 >= 0,
                            n_par >= 0,
                    ;
                    if let Some((col_hi, col_lo, ddx)) = column(interner, derivatives, rhs, j) {
                        self.stamp(func, netlist, row_hi, row_lo, col_hi, col_lo, ddx);
                    }
                    j += 1;
                }
            }
            i += 1;
        }
        Ok(())
    }
}

/// No entry lies in the row or in the column of a ground node.
pub open spec fn ground_free(entries: Seq<((u32, u32), u32)>, netlist: &Netlist) -> bool {
    forall|i: int|
        0 <= i < entries.len() ==> !netlist.is_gnd((#[trigger] entries[i]).0.0) && !netlist.is_gnd(
            entries[i].0.1,
        )
}

/// No parameter stands for a voltage at a ground node: where a voltage is
/// taken against the ground, its `lo` is `None`.
pub open spec fn columns_ground_free(interner: &HirInterner, netlist: &Netlist) -> bool {
    forall|p: int|
        0 <= p < interner.params@.len() ==> match #[trigger] interner.params@[p] {
            ParamKind::Voltage { hi, lo } => !netlist.is_gnd(hi) && match lo {
                Some(l) => !netlist.is_gnd(l),
                None => true,
            },
            _ => true,
        }
}

proof fn lemma_ensure_entry_ground_free(
    a: Assembly,
    netlist: &Netlist,
    row: u32,
    col: u32,
    val: u32,
    neg: bool,
)
    requires
        ground_free(a.entries, netlist),
        !netlist.is_gnd(row),
        !netlist.is_gnd(col),
    ensures
        ground_free(spec_ensure_entry(a, row, col, val, neg).entries, netlist),
{
    let after = spec_ensure_entry(a, row, col, val, neg).entries;
    assert forall|i: int| 0 <= i < after.len() implies !netlist.is_gnd((#[trigger] after[i]).0.0)
        && !netlist.is_gnd(after[i].0.1) by {
        match spec_position(a.entries, (row, col)) {
            Some(k) => {
                if i != k {
                    assert(after[i] == a.entries[i]);
                }
            },
            None => {
                if i < a.entries.len() {
                    assert(after[i] == a.entries[i]);
                }
            },
        }
    }
}

proof fn lemma_stamp_ground_free(
    a: Assembly,
    netlist: &Netlist,
    row_hi: u32,
    row_lo: Option<u32>,
    col_hi: u32,
    col_lo: Option<u32>,
    ddx: u32,
)
    requires
        ground_free(a.entries, netlist),
        !netlist.is_gnd(col_hi),
        col_lo matches Some(cl) ==> !netlist.is_gnd(cl),
    ensures
        ground_free(
            spec_stamp(a, netlist, row_hi, row_lo, col_hi, col_lo, ddx).entries,
            netlist,
        ),
{
    let a1 = if !netlist.is_gnd(row_hi) {
        lemma_ensure_entry_ground_free(a, netlist, row_hi, col_hi, ddx, false);
        let x = spec_ensure_entry(a, row_hi, col_hi, ddx, false);
        match col_lo {
            Some(cl) => {
                lemma_ensure_entry_ground_free(x, netlist, row_hi, cl, ddx, true);
                spec_ensure_entry(x, row_hi, cl, ddx, true)
            },
            None => x,
        }
    } else {
        a
    };
    match row_lo {
        Some(rl) => {
            if !netlist.is_gnd(rl) {
                lemma_ensure_entry_ground_free(a1, netlist, rl, col_hi, ddx, true);
                let y = spec_ensure_entry(a1, rl, col_hi, ddx, true);
                match col_lo {
                    Some(cl) => {
                        lemma_ensure_entry_ground_free(y, netlist, rl, cl, ddx, false);
                    },
                    None => {},
                }
            }
        },
        None => {},
    }
}

proof fn lemma_stamp_params_ground_free(
    a: Assembly,
    netlist: &Netlist,
    interner: &HirInterner,
    derivatives: Map<(u32, u32), u32>,
    row_hi: u32,
    row_lo: Option<u32>,
    rhs: u32,
    n: nat,
)
    requires
        ground_free(a.entries, netlist),
        columns_ground_free(interner, netlist),
        n <= interner.params@.len(),
    ensures
        ground_free(
            spec_stamp_params(a, netlist, interner, derivatives, row_hi, row_lo, rhs, n).entries,
            netlist,
        ),
    decreases n,
{
    if n > 0 {
        lemma_stamp_params_ground_free(
            a,
            netlist,
            interner,
            derivatives,
            row_hi,
            row_lo,
            rhs,
            (n - 1) as nat,
        );
        let prev = spec_stamp_params(
            a,
            netlist,
            interner,
            derivatives,
            row_hi,
            row_lo,
            rhs,
            (n - 1) as nat,
        );
        match spec_column(interner, derivatives, rhs, n - 1) {
            Some((col_hi, col_lo, ddx)) => {
                assert(interner.params@[n - 1] is Voltage);
                lemma_stamp_ground_free(prev, netlist, row_hi, row_lo, col_hi, col_lo, ddx);
            },
            None => {},
        }
    }
}

/// Ground elision. Where no parameter is a voltage at a ground node,
/// stamping puts no entry into the row or the column of a ground node: a
/// matrix that has none before has none after.
pub proof fn lemma_populate_ground_free(
    a: Assembly,
    netlist: &Netlist,
    interner: &HirInterner,
    derivatives: Map<(u32, u32), u32>,
    n: nat,
)
    requires
        ground_free(a.entries, netlist),
        columns_ground_free(interner, netlist),
        n <= interner.outputs@.len(),
    ensures
        ground_free(spec_populate(a, netlist, interner, derivatives, n).entries, netlist),
    decreases n,
{
    if n > 0 {
        lemma_populate_ground_free(a, netlist, interner, derivatives, (n - 1) as nat);
        let prev = spec_populate(a, netlist, interner, derivatives, (n - 1) as nat);
        match spec_rows(netlist, interner.outputs@[n - 1].0) {
            Some((row_hi, row_lo)) => {
                lemma_stamp_params_ground_free(
                    prev,
                    netlist,
                    interner,
                    derivatives,
                    row_hi,
                    row_lo,
                    interner.outputs@[n - 1].1,
                    interner.params@.len(),
                );
            },
            None => {},
        }
    }
}

/// The line that shows one entry: the names of its row and its column in
/// round brackets, an equals sign, and the value as `v` and its number.
pub open spec fn spec_entry_line(netlist: &Netlist, entry: ((u32, u32), u32)) -> Seq<char> {
    seq!['('] + netlist.spec_node_name(entry.0.0) + seq![',', ' '] + netlist.spec_node_name(
        entry.0.1,
    ) + seq![')', ' ', '=', ' ', 'v'] + decimal(entry.1 as nat) + seq!['\n']
}

/// The lines of the first `n` entries, one after the other.
pub open spec fn spec_print(netlist: &Netlist, entries: Seq<((u32, u32), u32)>, n: nat) -> Seq<
    char,
>
    decreases n,
{
    if n == 0 {
        Seq::empty()
    } else {
        spec_print(netlist, entries, (n - 1) as nat) + spec_entry_line(netlist, entries[n - 1])
    }
}

impl JacobianMatrix {
    /// The matrix as text: one line for each entry, in the order in which
    /// the entries were made.
    pub fn print(&self, netlist: &Netlist) -> (res: String)
        ensures
            res@ == spec_print(netlist, self@, self@.len()),
    {
        let mut res = String::new();
        let n = self.len();
        let mut i: usize = 0;
        while i < n
            invariant
                i <= n,
                n == self@.len(),
                res@ == spec_print(netlist, self@, i as nat),
            decreases n - i,
        {
            if let Some(entry) = entries_get_index(&self.entries, i) {
                proof {
                    reveal_strlit("(");
                    reveal_strlit(", ");
                    reveal_strlit(") = v");
                    reveal_strlit("\n");
                }
                let ghost before = res@;
                push_str(&mut res, "(");
                push_str(&mut res, netlist.node_name(entry.0.0));
                push_str(&mut res, ", ");
                push_str(&mut res, netlist.node_name(entry.0.1));
                push_str(&mut res, ") = v");
                let digits = decimal_string(entry.1);
                push_str(&mut res, digits.as_str());
                push_str(&mut res, "\n");
                assert(res@ =~= before + spec_entry_line(netlist, entry));
            }
            i += 1;
        }
        res
    }
}

/// The matrix after a barrier was put around the value of each of its
/// first `n` entries: the entry at position `i` holds the new value
/// `first + i`.
pub open spec fn spec_barrier_entries(entries: Seq<((u32, u32), u32)>, first: nat, n: nat) -> Seq<
    ((u32, u32), u32),
> {
    Seq::new(
        entries.len(),
        |i: int|
            if i < n {
                (entries[i].0, (first + i) as u32)
            } else {
                entries[i]
            },
    )
}

/// The function body after a barrier was put around the value of each of
/// the first `n` entries: one new instruction and one new value for each.
pub open spec fn spec_barrier_func(func: FunctionView, entries: Seq<((u32, u32), u32)>, n: nat)
    -> FunctionView {
    FunctionView {
        values: func.values + Seq::new(n, |i: int| ValueDef::Result((func.insts.len() + i) as u32)),
        insts: func.insts + Seq::new(
            n,
            |i: int| InstructionData::Unary { opcode: Opcode::OptBarrier, arg: entries[i].1 },
        ),
        in_layout: func.in_layout + Seq::new(n, |i: int| true),
    }
}

/// The value of each entry is the result of an instruction of `func`, that
/// instruction reads a value of `func`, and both values are in the domain
/// of the set of outputs.
pub open spec fn spec_barriered(entries: Seq<((u32, u32), u32)>, func: FunctionView, domain: nat)
    -> bool {
    forall|i: int|
        0 <= i < entries.len() ==> {
            let value = (#[trigger] entries[i]).1;
            &&& value < func.values.len()
            &&& value < domain
            &&& func.values[value as int] matches ValueDef::Result(inst)
            &&& inst < func.insts.len()
            &&& func.insts[inst as int].first_arg() < domain
        }
}

/// The instruction that defines the value of an entry.
pub open spec fn spec_barrier_of(func: FunctionView, entry: ((u32, u32), u32)) -> u32 {
    match func.values[entry.1 as int] {
        ValueDef::Result(inst) => inst,
        _ => 0,
    }
}

/// The value that the barrier around the value of an entry reads.
pub open spec fn spec_barrier_arg(func: FunctionView, entry: ((u32, u32), u32)) -> u32 {
    func.insts[spec_barrier_of(func, entry) as int].first_arg()
}

/// The layout after the barriers of the first `n` entries were taken out.
pub open spec fn spec_strip_layout(
    func: FunctionView,
    entries: Seq<((u32, u32), u32)>,
    n: nat,
) -> Seq<bool>
    decreases n,
{
    if n == 0 {
        func.in_layout
    } else {
        spec_set(
            spec_strip_layout(func, entries, (n - 1) as nat),
            spec_barrier_of(func, entries[n - 1]) as int,
            false,
        )
    }
}

/// The flags with the flag at `index` set to `flag`, unless there is no
/// such index.
pub open spec fn spec_set(flags: Seq<bool>, index: int, flag: bool) -> Seq<bool> {
    if 0 <= index < flags.len() {
        flags.update(index, flag)
    } else {
        flags
    }
}

/// The set of outputs after, for each of the first `n` entries in turn, the
/// barrier's value was taken out of it and the value that the barrier
/// reads was put in.
pub open spec fn spec_strip_outputs(
    outputs: Seq<bool>,
    func: FunctionView,
    entries: Seq<((u32, u32), u32)>,
    n: nat,
) -> Seq<bool>
    decreases n,
{
    if n == 0 {
        outputs
    } else {
        spec_set(
            spec_set(
                spec_strip_outputs(outputs, func, entries, (n - 1) as nat),
                entries[n - 1].1 as int,
                false,
            ),
            spec_barrier_arg(func, entries[n - 1]) as int,
            true,
        )
    }
}

proof fn lemma_strip_outputs_len(
    outputs: Seq<bool>,
    func: FunctionView,
    entries: Seq<((u32, u32), u32)>,
    n: nat,
)
    ensures
        spec_strip_outputs(outputs, func, entries, n).len() == outputs.len(),
    decreases n,
{
    if n > 0 {
        lemma_strip_outputs_len(outputs, func, entries, (n - 1) as nat);
    }
}

proof fn lemma_strip_layout_len(func: FunctionView, entries: Seq<((u32, u32), u32)>, n: nat)
    ensures
        spec_strip_layout(func, entries, n).len() == func.in_layout.len(),
    decreases n,
{
    if n > 0 {
        lemma_strip_layout_len(func, entries, (n - 1) as nat);
    }
}

impl JacobianMatrix {
    /// Puts a barrier around the value of every entry, so that later passes
    /// keep it, and records the new values as outputs. The set of outputs
    /// grows to hold every value of the function.
    pub fn insert_opt_barries(&mut self, func: &mut Function, output_values: &mut BitSet)
        requires
            old(self).well_formed(),
            old(func)@.well_formed(),
            old(func).spec_has_room(old(self)@.len() as int + 1),
        ensures
            final(self).well_formed(),
            final(func)@.well_formed(),
            final(self)@ == spec_barrier_entries(
                old(self)@,
                old(func)@.values.len(),
                old(self)@.len(),
            ),
            final(func)@ == spec_barrier_func(old(func)@, old(self)@, old(self)@.len()),
            final(output_values)@.len() == if old(output_values)@.len() >= final(func)@.values.len()
                + 1 {
                old(output_values)@.len()
            } else {
                final(func)@.values.len() + 1
            },
            forall|v: nat|
                final(output_values).spec_contains(v) == (old(output_values).spec_contains(v) || (
                old(func)@.values.len() <= v < final(func)@.values.len())),
    {
        let n = self.len();
        let ghost first = func@.values.len();
        let mut i: usize = 0;
        while i < n
            invariant
                i <= n,
                n == old(self)@.len(),
                first == old(func)@.values.len(),
                func@.well_formed(),
                func.spec_has_room(n - i + 1),
                self@ == spec_barrier_entries(old(self)@, first, i as nat),
                func@ == spec_barrier_func(old(func)@, old(self)@, i as nat),
            decreases n - i,
        {
            if let Some(entry) = entries_get_index(&self.entries, i) {
                let value = func.optbarrier(entry.1);
                entries_set_value(&mut self.entries, i, value);
                assert(self@ =~= spec_barrier_entries(old(self)@, first, (i + 1) as nat));
                assert(func@.values =~= spec_barrier_func(
                    old(func)@,
                    old(self)@,
                    (i + 1) as nat,
                ).values);
                assert(func@.insts =~= spec_barrier_func(
                    old(func)@,
                    old(self)@,
                    (i + 1) as nat,
                ).insts);
                assert(func@.in_layout =~= spec_barrier_func(
                    old(func)@,
                    old(self)@,
                    (i + 1) as nat,
                ).in_layout);
            }
            i += 1;
        }
        output_values.ensure(func.num_values() + 1);
        let mut i: usize = 0;
        while i < n
            invariant
                i <= n,
                n == self@.len(),
                n == old(self)@.len(),
                first == old(func)@.values.len(),
                func@.values.len() == first + n,
                first + n <= u32::MAX,
                self@ == spec_barrier_entries(old(self)@, first, n as nat),
                output_values@.len() == if old(output_values)@.len() >= func@.values.len() + 1 {
                    old(output_values)@.len()
                } else {
                    func@.values.len() + 1
                },
                forall|v: nat|
                    output_values.spec_contains(v) == (old(output_values).spec_contains(v) || (first
                        <= v < first + i)),
            decreases n - i,
        {
            if let Some(entry) = entries_get_index(&self.entries, i) {
                assert(entry.1 == first + i);
                let ghost before = *output_values;
                output_values.insert(entry.1 as usize);
                assert forall|v: nat|
                    output_values.spec_contains(v) == (old(output_values).spec_contains(v) || (first
                        <= v < first + i + 1)) by {
                    assert(before.spec_contains(v) == (old(output_values).spec_contains(v) || (first
                        <= v < first + i)));
                }
            }
            i += 1;
        }
    }

    /// Takes the barriers out again: every entry gets the value that its
    /// barrier read, that value takes the barrier's place among the
    /// outputs, and the barrier leaves the layout.
    pub fn strip_opt_barries(&mut self, func: &mut Function, output_values: &mut BitSet)
        requires
            old(self).well_formed(),
            old(func)@.well_formed(),
            spec_barriered(old(self)@, old(func)@, old(output_values)@.len()),
        ensures
            final(self).well_formed(),
            final(func)@.well_formed(),
            final(self)@ == Seq::new(
                old(self)@.len(),
                |i: int| (old(self)@[i].0, spec_barrier_arg(old(func)@, old(self)@[i])),
            ),
            final(func)@ == (FunctionView {
                in_layout: spec_strip_layout(old(func)@, old(self)@, old(self)@.len()),
                ..old(func)@
            }),
            final(output_values)@ == spec_strip_outputs(
                old(output_values)@,
                old(func)@,
                old(self)@,
                old(self)@.len(),
            ),
    {
        let n = self.len();
        let mut i: usize = 0;
        while i < n
            invariant
                i <= n,
                n == old(self)@.len(),
                self@.len() == n,
                func@.well_formed(),
                old(func)@.well_formed(),
                spec_barriered(old(self)@, old(func)@, old(output_values)@.len()),
                forall|j: int|
                    0 <= j < i ==> #[trigger] self@[j] == (
                        old(self)@[j].0,
                        spec_barrier_arg(old(func)@, old(self)@[j]),
                    ),
                forall|j: int| i <= j < n ==> self@[j] == old(self)@[j],
                func@ == (FunctionView {
                    in_layout: spec_strip_layout(old(func)@, old(self)@, i as nat),
                    ..old(func)@
                }),
                output_values@ == spec_strip_outputs(
                    old(output_values)@,
                    old(func)@,
                    old(self)@,
                    i as nat,
                ),
            decreases n - i,
        {
            proof {
                lemma_strip_outputs_len(old(output_values)@, old(func)@, old(self)@, i as nat);
                lemma_strip_layout_len(old(func)@, old(self)@, i as nat);
            }
            if let Some(entry) = entries_get_index(&self.entries, i) {
                assert(entry == old(self)@[i as int]);
                if let Some(ValueDef::Result(inst)) = func.value_def(entry.1) {
                    if let Some(data) = func.inst_data(inst) {
                        output_values.remove(entry.1 as usize);
                        let arg = data.first_arg();
                        entries_set_value(&mut self.entries, i, arg);
                        output_values.insert(arg as usize);
                        func.remove_inst(inst);
                    }
                }
            }
            i += 1;
        }
        assert(self@ =~= Seq::new(
            old(self)@.len(),
            |i: int| (old(self)@[i].0, spec_barrier_arg(old(func)@, old(self)@[i])),
        ));
    }
}

/// Every key of the kept entries is a key of the matrix, and no key occurs
/// twice among them.
proof fn lemma_filter_keys(entries: Seq<((u32, u32), u32)>)
    requires
        keys_distinct(entries),
    ensures
        keys_distinct(spec_kept(entries)),
        forall|i: int|
            0 <= i < spec_kept(entries).len() ==> exists|j: int|
                0 <= j < entries.len() && entries[j] == #[trigger] spec_kept(entries)[i],
    decreases entries.len(),
{
    let pred = |entry: ((u32, u32), u32)| spec_keeps_entry(entry);
    reveal(Seq::filter);
    if entries.len() > 0 {
        let init = entries.drop_last();
        assert(keys_distinct(init)) by {
            assert forall|i: int, j: int|
                0 <= i < init.len() && 0 <= j < init.len() && (#[trigger] init[i]).0 == (
                #[trigger] init[j]).0 implies i == j by {
                assert(init[i] == entries[i]);
                assert(init[j] == entries[j]);
            }
        }
        lemma_filter_keys(init);
        let sub = spec_kept(init);
        let all = spec_kept(entries);
        assert forall|i: int| 0 <= i < sub.len() implies exists|j: int|
            0 <= j < entries.len() && entries[j] == #[trigger] sub[i] by {
            let j = choose|j: int| 0 <= j < init.len() && init[j] == sub[i];
            assert(entries[j] == sub[i]);
        }
        if pred(entries.last()) {
            assert(all == sub.push(entries.last()));
            assert forall|i: int, j: int|
                0 <= i < all.len() && 0 <= j < all.len() && (#[trigger] all[i]).0 == (
                #[trigger] all[j]).0 implies i == j by {
                if i < sub.len() && j < sub.len() {
                    assert(all[i] == sub[i]);
                    assert(all[j] == sub[j]);
                } else if i < sub.len() {
                    assert(all[i] == sub[i]);
                    let k = choose|k: int| 0 <= k < init.len() && init[k] == sub[i];
                    assert(entries[k] == sub[i]);
                    assert(entries[entries.len() - 1] == all[j]);
                } else if j < sub.len() {
                    assert(all[j] == sub[j]);
                    let k = choose|k: int| 0 <= k < init.len() && init[k] == sub[j];
                    assert(entries[k] == sub[j]);
                    assert(entries[entries.len() - 1] == all[i]);
                }
            }
            assert forall|i: int| 0 <= i < all.len() implies exists|j: int|
                0 <= j < entries.len() && entries[j] == #[trigger] all[i] by {
                if i < sub.len() {
                    assert(all[i] == sub[i]);
                } else {
                    assert(entries[entries.len() - 1] == all[i]);
                }
            }
        } else {
            assert(all == sub);
        }
    }
}

impl JacobianMatrix {
    /// Removes the entries whose value is the literal zero. The others keep
    /// their order.
    pub fn sparsify(&mut self)
        requires
            old(self).well_formed(),
        ensures
            final(self).well_formed(),
            final(self)@ == spec_kept(old(self)@),
    {
        proof {
            lemma_filter_keys(self@);
        }
        entries_retain_kept(&mut self.entries);
    }
}

impl View for JacobianMatrix {
    type V = Seq<((u32, u32), u32)>;

    /// The entries in the order in which they were made.
    open spec fn view(&self) -> Seq<((u32, u32), u32)> {
        entry_seq(self.entries)
    }
}

} // verus!
