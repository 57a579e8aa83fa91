use va_midend::hir::{Ast, Declared, Hir};

#[test]
fn the_tree_starts_with_the_tables_of_the_syntax() {
    let mut ast = Ast {
        disciplines: vec![Declared { name: 1 }],
        variables: vec![Declared { name: 2 }, Declared { name: 3 }],
        attributes: vec![],
        branches: 2,
        nets: 3,
        ports: 0,
        modules: 1,
        expressions: 4,
        statements: 5,
        top_nodes: vec![0, 7],
    };
    let hir = Hir::partial_initalize(&mut ast);
    assert_eq!(hir.disciplines, vec![Declared { name: 1 }]);
    assert_eq!(hir.variables, vec![Declared { name: 2 }, Declared { name: 3 }]);
    assert!(hir.attributes.is_empty());
    assert_eq!(hir.top_nodes, vec![0, 7]);
    assert!(ast.disciplines.is_empty() && ast.variables.is_empty() && ast.top_nodes.is_empty());
    assert_eq!(hir.branches.len(), 2);
    assert_eq!(hir.nets.len(), 3);
    assert_eq!(hir.ports.len(), 0);
    assert_eq!(hir.modules.len(), 1);
    assert_eq!(hir.expressions.len(), 4);
    assert_eq!(hir.statements.len(), 5);
    assert!(hir.branches.iter().all(|b| b.is_none()));
    assert!(hir.statements.iter().all(|s| s.is_none()));
    assert_eq!(ast.branches, 2);
}
