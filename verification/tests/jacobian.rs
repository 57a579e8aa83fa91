use ahash::AHashMap;
use va_midend::bitset::BitSet;
use va_midend::intern::{CallBackKind, HirInterner, ParamKind, PlaceKind};
use va_midend::matrix::{JacobianMatrix, MatrixEntry, MatrixEntryId, StampError, Unsupported};
use va_midend::mir::{Function, InstructionData, Opcode, ValueDef, F_ZERO};
use va_midend::netlist::{BranchKind, Netlist, Node};

fn node(name: &str, is_gnd: bool) -> Node {
    Node { name: name.to_string(), is_gnd }
}

const GND: u32 = 0;
const A: u32 = 1;
const B: u32 = 2;

fn netlist(branches: Vec<BranchKind>) -> Netlist {
    Netlist { nodes: vec![node("gnd", true), node("A", false), node("B", false)], branches }
}

fn has_room(func: &Function, interner: &HirInterner) -> bool {
    let need = 4 * interner.outputs.len() * interner.params.len();
    func.values.len() + need <= u32::MAX as usize && func.insts.len() + need <= u32::MAX as usize
}

/// `I(A,B) <+ V(A,B)/R`: one output, one voltage, one derivative.
#[test]
fn resistor_between_two_nodes_gets_four_entries() {
    let nl = netlist(vec![BranchKind::Nodes(A, B)]);
    let mut func = Function::new();
    let rhs = func.make_param(0);
    let ddx = func.make_param(1);
    let interner = HirInterner {
        outputs: vec![(PlaceKind::BranchCurrent(0), rhs)],
        params: vec![ParamKind::Voltage { hi: A, lo: Some(B) }],
        callbacks: vec![CallBackKind::Derivative(0)],
    };
    let mut derivatives = AHashMap::new();
    derivatives.insert((rhs, 0u32), ddx);

    let mut matrix = JacobianMatrix::new();
    assert!(has_room(&func, &interner));
    assert_eq!(matrix.populate(&nl, &mut func, &interner, &derivatives), Ok(()));

    assert_eq!(matrix.len(), 4);
    // (A, A) = +ddx
    assert_eq!(matrix.entry(MatrixEntryId(0)), Some((MatrixEntry { row: A, col: A }, ddx)));
    // (A, B) = -ddx
    let (entry, neg) = matrix.entry(MatrixEntryId(1)).unwrap();
    assert_eq!(entry, MatrixEntry { row: A, col: B });
    assert_eq!(func.value_def(neg), Some(ValueDef::Result(0)));
    assert_eq!(
        func.inst_data(0),
        Some(InstructionData::Unary { opcode: Opcode::Fneg, arg: ddx })
    );
    // (B, A) = -ddx
    let (entry, neg) = matrix.entry(MatrixEntryId(2)).unwrap();
    assert_eq!(entry, MatrixEntry { row: B, col: A });
    assert_eq!(func.value_def(neg), Some(ValueDef::Result(1)));
    assert_eq!(
        func.inst_data(1),
        Some(InstructionData::Unary { opcode: Opcode::Fneg, arg: ddx })
    );
    // (B, B) = +ddx
    assert_eq!(matrix.entry(MatrixEntryId(3)), Some((MatrixEntry { row: B, col: B }, ddx)));
    assert_eq!(matrix.entry(MatrixEntryId(4)), None);
    assert_eq!(matrix.get(B, B), Some(ddx));
    assert_eq!(matrix.get(B, GND), None);
}

/// `I(A, gnd) <+ g*V(A, gnd)`: only `(A, A)`.
#[test]
fn ground_gets_no_entry() {
    let nl = netlist(vec![BranchKind::NodeGnd(A)]);
    let mut func = Function::new();
    let rhs = func.make_param(0);
    let g = func.make_param(1);
    let interner = HirInterner {
        outputs: vec![(PlaceKind::BranchCurrent(0), rhs)],
        params: vec![ParamKind::Voltage { hi: A, lo: None }],
        callbacks: vec![CallBackKind::Derivative(0)],
    };
    let mut derivatives = AHashMap::new();
    derivatives.insert((rhs, 0u32), g);

    let mut matrix = JacobianMatrix::new();
    assert_eq!(matrix.populate(&nl, &mut func, &interner, &derivatives), Ok(()));
    assert_eq!(matrix.len(), 1);
    assert_eq!(matrix.entry(MatrixEntryId(0)), Some((MatrixEntry { row: A, col: A }, g)));
    assert_eq!(func.insts.len(), 0);
    for i in 0..matrix.len() {
        let (entry, _) = matrix.entry(MatrixEntryId(i as u32)).unwrap();
        assert!(!nl.is_gnd(entry.row) && !nl.is_gnd(entry.col));
    }
}

/// A branch whose low node is the ground node itself stamps only its high row.
#[test]
fn ground_as_the_low_row_is_skipped() {
    let nl = netlist(vec![BranchKind::Nodes(A, GND)]);
    let mut func = Function::new();
    let rhs = func.make_param(0);
    let ddx = func.make_param(1);
    let interner = HirInterner {
        outputs: vec![(PlaceKind::ImplicitBranchCurrent { hi: A, lo: Some(GND) }, rhs)],
        params: vec![ParamKind::Voltage { hi: A, lo: Some(B) }],
        callbacks: vec![CallBackKind::Derivative(0)],
    };
    let mut derivatives = AHashMap::new();
    derivatives.insert((rhs, 0u32), ddx);
    let mut matrix = JacobianMatrix::new();
    assert_eq!(matrix.populate(&nl, &mut func, &interner, &derivatives), Ok(()));
    assert_eq!(matrix.len(), 2);
    assert_eq!(matrix.get(A, A), Some(ddx));
    assert!(matrix.get(A, B).is_some());
    assert_eq!(matrix.get(GND, A), None);
}

#[test]
fn second_stamp_adds_to_the_entry() {
    let mut func = Function::new();
    let x = func.make_param(0);
    let y = func.make_param(1);
    let z = func.make_param(2);
    let mut matrix = JacobianMatrix::new();
    matrix.ensure_entry(&mut func, A, B, x, false);
    assert_eq!(matrix.get(A, B), Some(x));
    matrix.ensure_entry(&mut func, A, B, y, false);
    let sum = matrix.get(A, B).unwrap();
    assert_eq!(func.value_def(sum), Some(ValueDef::Result(0)));
    assert_eq!(
        func.inst_data(0),
        Some(InstructionData::Binary { opcode: Opcode::Fadd, lhs: x, rhs: y })
    );
    matrix.ensure_entry(&mut func, A, B, z, true);
    let diff = matrix.get(A, B).unwrap();
    assert_eq!(
        func.inst_data(1),
        Some(InstructionData::Binary { opcode: Opcode::Fsub, lhs: sum, rhs: z })
    );
    assert_eq!(func.value_def(diff), Some(ValueDef::Result(1)));
    assert_eq!(matrix.len(), 1);
}

#[test]
fn zero_and_missing_derivatives_are_skipped() {
    let nl = netlist(vec![BranchKind::Nodes(A, B)]);
    let mut func = Function::new();
    let rhs = func.make_param(0);
    let interner = HirInterner {
        outputs: vec![(PlaceKind::BranchCurrent(0), rhs), (PlaceKind::Var(3), rhs)],
        params: vec![
            ParamKind::Voltage { hi: A, lo: Some(B) },
            ParamKind::Voltage { hi: B, lo: None },
            ParamKind::Temperature,
        ],
        callbacks: vec![CallBackKind::Derivative(0), CallBackKind::Derivative(1)],
    };
    let mut derivatives = AHashMap::new();
    derivatives.insert((rhs, 0u32), F_ZERO);
    let mut matrix = JacobianMatrix::new();
    assert_eq!(matrix.populate(&nl, &mut func, &interner, &derivatives), Ok(()));
    assert_eq!(matrix.len(), 0);
}

#[test]
fn voltage_contribution_is_reported() {
    let nl = netlist(vec![BranchKind::Nodes(A, B), BranchKind::PortFlow(1)]);
    let mut func = Function::new();
    let rhs = func.make_param(0);
    let mut interner = HirInterner {
        outputs: vec![(PlaceKind::BranchCurrent(0), rhs), (PlaceKind::BranchVoltage(0), rhs)],
        params: vec![ParamKind::Voltage { hi: A, lo: Some(B) }],
        callbacks: vec![CallBackKind::Derivative(0)],
    };
    let mut derivatives = AHashMap::new();
    derivatives.insert((rhs, 0u32), rhs);
    let mut matrix = JacobianMatrix::new();
    assert_eq!(
        matrix.populate(&nl, &mut func, &interner, &derivatives),
        Err(StampError { output: 1, kind: Unsupported::VoltageContribution })
    );
    assert_eq!(matrix.len(), 0);

    interner.outputs = vec![(PlaceKind::BranchCurrent(1), rhs)];
    assert_eq!(
        matrix.populate(&nl, &mut func, &interner, &derivatives),
        Err(StampError { output: 0, kind: Unsupported::PortFlow })
    );
    interner.outputs = vec![(PlaceKind::BranchCurrent(7), rhs)];
    assert_eq!(
        matrix.populate(&nl, &mut func, &interner, &derivatives),
        Err(StampError { output: 0, kind: Unsupported::UnknownBranch })
    );
    interner.outputs = vec![(PlaceKind::ImplicitBranchVoltage { hi: A, lo: None }, rhs)];
    assert_eq!(
        matrix.populate(&nl, &mut func, &interner, &derivatives),
        Err(StampError { output: 0, kind: Unsupported::VoltageContribution })
    );
}

#[test]
fn sparsify_removes_literal_zeros() {
    let mut func = Function::new();
    let x = func.make_param(0);
    let mut matrix = JacobianMatrix::new();
    matrix.ensure_entry(&mut func, A, A, F_ZERO, false);
    matrix.ensure_entry(&mut func, A, B, x, false);
    matrix.ensure_entry(&mut func, B, B, F_ZERO, false);
    matrix.sparsify();
    assert_eq!(matrix.len(), 1);
    assert_eq!(matrix.entry(MatrixEntryId(0)), Some((MatrixEntry { row: A, col: B }, x)));
}

#[test]
fn barriers_go_in_and_come_out() {
    let mut func = Function::new();
    let x = func.make_param(0);
    let y = func.make_param(1);
    let mut matrix = JacobianMatrix::new();
    matrix.ensure_entry(&mut func, A, A, x, false);
    matrix.ensure_entry(&mut func, B, B, y, false);
    let mut outputs = BitSet::new_empty(0);
    matrix.insert_opt_barries(&mut func, &mut outputs);
    let bx = matrix.get(A, A).unwrap();
    let by = matrix.get(B, B).unwrap();
    assert_eq!((bx, by), (3, 4));
    assert_eq!(
        func.inst_data(0),
        Some(InstructionData::Unary { opcode: Opcode::OptBarrier, arg: x })
    );
    assert_eq!(outputs.domain_size(), func.num_values() + 1);
    assert!(outputs.contains(bx as usize) && outputs.contains(by as usize));
    assert!(!outputs.contains(x as usize));

    matrix.strip_opt_barries(&mut func, &mut outputs);
    assert_eq!(matrix.get(A, A), Some(x));
    assert_eq!(matrix.get(B, B), Some(y));
    assert!(outputs.contains(x as usize) && outputs.contains(y as usize));
    assert!(!outputs.contains(bx as usize) && !outputs.contains(by as usize));
    assert_eq!(func.in_layout, vec![false, false]);
}

#[test]
fn print_shows_one_line_per_entry() {
    let nl = netlist(vec![]);
    let mut func = Function::new();
    let x = func.make_param(0);
    for _ in 0..11 {
        func.make_param(0);
    }
    let y = func.make_param(1);
    let mut matrix = JacobianMatrix::new();
    matrix.ensure_entry(&mut func, A, B, x, false);
    matrix.ensure_entry(&mut func, B, 9, y, false);
    assert_eq!(matrix.print(&nl), "(A, B) = v1\n(B, ) = v13\n");
}
