use va_midend::graph::{
    BasicBlockData, ControlFlowGraph, InstrDst, Instruction, Op, Operand, Phi, Terminator,
};
use va_midend::visit::{
    locations_fit, BlockLocations, CfgVisitor, InputLog, InputVisitor, Inputs, InternedLocations,
    Visit,
};

struct Log(Vec<String>);

impl CfgVisitor for Log {
    fn visit_phi(&mut self, phi: &Phi, loc: u32, _cfg: &ControlFlowGraph) {
        self.0.push(format!("phi {} at {loc}", phi.dst));
    }

    fn visit_instr(&mut self, instr: &Instruction, loc: u32, _cfg: &ControlFlowGraph) {
        self.0.push(format!("{:?} at {loc}", instr.op));
    }

    fn visit_terminator(&mut self, _terminator: &Terminator, loc: u32, _cfg: &ControlFlowGraph) {
        self.0.push(format!("split at {loc}"));
    }

    fn visit_operand(&mut self, operand: &Operand, loc: u32, _cfg: &ControlFlowGraph) {
        self.0.push(format!("{operand:?} at {loc}"));
    }
}

struct Seen(Vec<(u32, u32)>);

impl InputVisitor for Seen {
    fn visit_input(&mut self, input: u32, loc: u32, _cfg: &ControlFlowGraph) {
        self.0.push((input, loc));
    }
}

fn graph() -> ControlFlowGraph {
    let instr = |op, args| Instruction { op, args, dst: InstrDst::Ignore, src: 0 };
    ControlFlowGraph {
        blocks: vec![
            BasicBlockData {
                phis: vec![],
                instructions: vec![
                    instr(Op::RealAdd, vec![Operand::Param(1), Operand::Param(2)]),
                    instr(Op::Copy, vec![Operand::Local(0)]),
                ],
                terminator: Terminator::Split {
                    condition: Operand::Param(3),
                    then_block: 1,
                    else_block: 1,
                    loop_head: false,
                },
            },
            BasicBlockData {
                phis: vec![Phi { dst: 9, sources: vec![(0, 0)] }],
                instructions: vec![instr(Op::Sqrt, vec![Operand::Param(4)])],
                terminator: Terminator::Return,
            },
            BasicBlockData {
                phis: vec![],
                instructions: vec![instr(Op::Exp, vec![Operand::Param(5)])],
                terminator: Terminator::Return,
            },
        ],
        next_local: 10,
        next_place: 0,
    }
}

#[test]
fn every_instruction_is_shown_with_its_location() {
    let cfg = graph();
    // the third block has no locations and is not walked
    let locations = InternedLocations {
        blocks: vec![
            BlockLocations { stmnt_start: 10, terminator: 19 },
            BlockLocations { stmnt_start: 20, terminator: 29 },
        ],
    };
    let mut log = Log(vec![]);
    Visit { locations: &locations }.run(&mut log, &cfg);
    assert_eq!(log.0, vec!["RealAdd at 10", "Copy at 11", "split at 19", "Sqrt at 20"]);

    let mut inputs = Inputs(Seen(vec![]));
    Visit { locations: &locations }.run(&mut inputs, &cfg);
    assert_eq!((inputs.0).0, vec![(1, 10), (2, 10), (3, 19), (4, 20)]);

    assert!(locations_fit(&cfg, &locations));
    let mut log = Inputs(InputLog { seen: vec![] });
    Visit { locations: &locations }.run(&mut log, &cfg);
    assert_eq!(log.0.seen, vec![(1, 10), (2, 10), (3, 19), (4, 20)]);
    let late = InternedLocations {
        blocks: vec![BlockLocations { stmnt_start: u32::MAX - 1, terminator: 0 }],
    };
    assert!(!locations_fit(&cfg, &late));
}
