use va_midend::graph::{BasicBlockData, ControlFlowGraph, Operand, Terminator};
use va_midend::model_info::{
    lint_from_name, lint_overwrites, virtual_root_file, Allowed, Attr, Diagnostic, Expected,
    LintLevel, RootFileError,
};

fn block(terminator: Terminator) -> BasicBlockData {
    BasicBlockData { phis: vec![], instructions: vec![], terminator }
}

fn split(then_block: u32, else_block: u32) -> Terminator {
    Terminator::Split { condition: Operand::Param(0), then_block, else_block, loop_head: false }
}

#[test]
fn blocks_in_reverse_postorder() {
    // a diamond with a loop back to the entry, and a block that nothing leads to
    let cfg = ControlFlowGraph {
        blocks: vec![
            block(split(1, 2)),
            block(Terminator::Goto { target: 3 }),
            block(Terminator::Goto { target: 3 }),
            block(split(0, 5)),
            block(Terminator::Goto { target: 0 }),
            block(Terminator::Return),
        ],
        next_local: 0,
        next_place: 0,
    };
    assert_eq!(cfg.reverse_postorder(), vec![0, 2, 1, 3, 5]);
    let line = ControlFlowGraph {
        blocks: vec![
            block(Terminator::Goto { target: 2 }),
            block(Terminator::Return),
            block(Terminator::Goto { target: 1 }),
        ],
        next_local: 0,
        next_place: 0,
    };
    assert_eq!(line.reverse_postorder(), vec![0, 2, 1]);
    let empty = ControlFlowGraph { blocks: vec![], next_local: 0, next_place: 0 };
    assert_eq!(empty.reverse_postorder(), Vec::<u32>::new());
    let alone = ControlFlowGraph {
        blocks: vec![block(Terminator::Goto { target: 0 })],
        next_local: 0,
        next_place: 0,
    };
    assert_eq!(alone.reverse_postorder(), vec![0]);
}

fn names(list: &[&str]) -> Vec<String> {
    list.iter().map(|s| s.to_string()).collect()
}

#[test]
fn the_last_level_of_a_lint_counts() {
    let registry = names(&["unused", "shadow", "style"]);
    let (levels, unknown) = lint_overwrites(
        &registry,
        &names(&["unused", "typo", "style"]),
        &names(&["unused"]),
        &names(&["style", "other"]),
    );
    assert_eq!(levels, vec![Some(LintLevel::Warn), None, Some(LintLevel::Deny)]);
    assert_eq!(unknown, names(&["typo", "other"]));
    assert_eq!(lint_from_name(&registry, &"shadow".to_string()), Some(1));
    assert_eq!(lint_from_name(&registry, &"Shadow".to_string()), None);
}

#[test]
fn the_root_file_of_a_virtual_file_system() {
    let paths = names(&["/std/constants.vams", "/model.va"]);
    assert_eq!(virtual_root_file(&paths, &"/model.va".to_string()), Ok(1));
    assert_eq!(
        virtual_root_file(&paths, &"model.va".to_string()),
        Err(RootFileError::NotAbsolute)
    );
    assert_eq!(virtual_root_file(&paths, &"".to_string()), Err(RootFileError::NotAbsolute));
    assert_eq!(
        virtual_root_file(&paths, &"/other.va".to_string()),
        Err(RootFileError::NotPresent)
    );
}

#[test]
fn errors_in_words() {
    let report = Diagnostic::IllegalExpr {
        decl: 0,
        expected: Expected::PathOrArray,
        attr: Attr::Retrieve,
    }
    .build_report();
    assert_eq!(
        report.message,
        "illegal expression supplied to 'retrieve' attribute; expected a path or an array"
    );
    assert_eq!(report.label, "illegal expression");
    let report = Diagnostic::IllegalExpr {
        decl: 0,
        expected: Expected::StringLiteral,
        attr: Attr::Units,
    }
    .build_report();
    assert_eq!(
        report.message,
        "illegal expression supplied to 'units' attribute; expected a string literal"
    );
    let report =
        Diagnostic::IllegalType { decl: 0, allowed: Allowed::Parameters }.build_report();
    assert_eq!(report.message, "VerilogAE only supports real, integer and string parameters");
    assert_eq!(report.label, "unsupported type");
    let report = Diagnostic::IllegalType { decl: 0, allowed: Allowed::CalculatedVariables }
        .build_report();
    assert_eq!(report.message, "VerilogAE only supports calculating real and integer variables");
    let report = Diagnostic::Unresolved { error: 3 }.build_report();
    assert_eq!(report.message, "");
}
