use va_midend::model_info::{
    find_module, function_prefix, Allowed, Attr, CollectError, Diagnostic, Expected, Function,
    ModelInfo, ModelSources, ParamDeclAttrs, ParamInfo, PathTarget, RetrieveAttr, RetrieveItem,
    RootDef, ScopeDef, StrAttr, Type, VarDeclAttrs,
};
use va_midend::text::{encode, ALPHANUMERIC_ONLY, CASE_INSENSITIVE, MAX_BASE};

fn var(var: u32, decl: u32, name: u32, ty: Type) -> ScopeDef {
    ScopeDef::Var { var, decl, name, ty }
}

fn plain() -> VarDeclAttrs {
    VarDeclAttrs { retrieve: RetrieveAttr::Absent, op_var: false }
}

fn no_attrs() -> ParamDeclAttrs {
    ParamDeclAttrs { units: StrAttr::Absent, desc: StrAttr::Absent, group: StrAttr::Absent }
}

#[test]
fn numbers_in_other_bases() {
    assert_eq!(encode(0, 10), "0");
    assert_eq!(encode(1234567890, 10), "1234567890");
    assert_eq!(encode(255, 16), "ff");
    assert_eq!(encode(5, 2), "101");
    assert_eq!(encode(61, ALPHANUMERIC_ONLY), "Z");
    assert_eq!(encode(62, ALPHANUMERIC_ONLY), "10");
    assert_eq!(encode(35, CASE_INSENSITIVE), "z");
    assert_eq!(encode(63, MAX_BASE), "$");
    assert_eq!(encode(62, MAX_BASE), "@");
    assert_eq!(
        encode(u128::MAX, 16),
        "ffffffffffffffffffffffffffffffff"
    );
    assert_eq!(encode(u128::MAX, 64).len(), 22);
    assert_eq!(function_prefix(0), "fun.0");
    assert_eq!(function_prefix(10), "fun.a");
    assert_eq!(function_prefix(36), "fun.A");
    assert_eq!(function_prefix(62 * 62 + 1), "fun.101");
}

#[test]
fn the_module_is_found_by_name_or_is_the_first() {
    let root = vec![
        RootDef::Other,
        RootDef::Module { name: 5, module: 0 },
        RootDef::Module { name: 6, module: 1 },
        RootDef::Module { name: 6, module: 2 },
    ];
    assert_eq!(find_module(&root, None), Some(0));
    assert_eq!(find_module(&root, Some(6)), Some(1));
    assert_eq!(find_module(&root, Some(7)), None);
    assert_eq!(find_module(&vec![RootDef::Other], None), None);
}

#[test]
fn a_model_is_collected() {
    let src = ModelSources {
        root: vec![RootDef::Module { name: 1, module: 0 }],
        modules: vec![vec![
            var(10, 0, 100, Type::Real),
            var(11, 1, 101, Type::Real),
            var(12, 1, 102, Type::Integer),
            ScopeDef::Other,
            var(13, 2, 103, Type::Real),
            var(14, 3, 104, Type::Real),
            ScopeDef::Param { param: 20, decl: 0, name: 200, ty: Type::Real },
            ScopeDef::Param { param: 21, decl: 0, name: 201, ty: Type::Real },
            ScopeDef::Param { param: 20, decl: 1, name: 202, ty: Type::String },
        ]],
        var_decls: vec![
            plain(),
            VarDeclAttrs { retrieve: RetrieveAttr::Bare, op_var: true },
            VarDeclAttrs {
                retrieve: RetrieveAttr::Path(PathTarget::Var { var: 10, ty: Type::Real }),
                op_var: false,
            },
            VarDeclAttrs {
                retrieve: RetrieveAttr::Array(vec![
                    RetrieveItem::Path(PathTarget::Var { var: 11, ty: Type::Real }),
                    RetrieveItem::Path(PathTarget::Var { var: 12, ty: Type::Integer }),
                ]),
                op_var: true,
            },
        ],
        param_decls: vec![
            ParamDeclAttrs {
                units: StrAttr::Literal(7),
                desc: StrAttr::Absent,
                group: StrAttr::Literal(9),
            },
            no_attrs(),
        ],
    };
    let info = ModelInfo::collect(&src, false, Some(1)).unwrap();
    assert_eq!(info.module, 0);
    assert_eq!(
        info.functions,
        vec![
            Function { var: 11, dependency_breaking: vec![], prefix: "fun.0".to_string() },
            Function { var: 12, dependency_breaking: vec![], prefix: "fun.1".to_string() },
            Function { var: 13, dependency_breaking: vec![10], prefix: "fun.2".to_string() },
            Function { var: 14, dependency_breaking: vec![11, 12], prefix: "fun.3".to_string() },
        ]
    );
    assert_eq!(info.op_vars, vec![101, 102, 104]);
    assert_eq!(info.var_names.len(), 5);
    assert_eq!(info.var_names.get(&12), Some(&102));
    let params: Vec<(u32, ParamInfo)> = info.params.iter().map(|(k, v)| (*k, *v)).collect();
    assert_eq!(
        params,
        vec![
            (
                20,
                ParamInfo { name: 202, unit: None, description: None, group: None, ty: Type::String }
            ),
            (
                21,
                ParamInfo {
                    name: 201,
                    unit: Some(7),
                    description: None,
                    group: Some(9),
                    ty: Type::Real
                }
            ),
        ]
    );
}

#[test]
fn errors_are_reported_once_for_each_declaration() {
    let src = ModelSources {
        root: vec![RootDef::Module { name: 1, module: 0 }],
        modules: vec![vec![
            var(10, 0, 100, Type::String),
            var(11, 0, 101, Type::Real),
            var(12, 1, 102, Type::Real),
            var(13, 2, 103, Type::Real),
            ScopeDef::Param { param: 20, decl: 0, name: 200, ty: Type::Other },
            ScopeDef::Param { param: 21, decl: 0, name: 201, ty: Type::Other },
        ]],
        var_decls: vec![
            VarDeclAttrs {
                retrieve: RetrieveAttr::Array(vec![
                    RetrieveItem::Other,
                    RetrieveItem::Path(PathTarget::Unresolved { error: 4 }),
                    RetrieveItem::Path(PathTarget::Var { var: 9, ty: Type::String }),
                ]),
                op_var: false,
            },
            VarDeclAttrs { retrieve: RetrieveAttr::Other, op_var: false },
            VarDeclAttrs {
                retrieve: RetrieveAttr::Path(PathTarget::Unresolved { error: 5 }),
                op_var: false,
            },
        ],
        param_decls: vec![ParamDeclAttrs {
            units: StrAttr::Other,
            desc: StrAttr::Other,
            group: StrAttr::Other,
        }],
    };
    let err = match ModelInfo::collect(&src, false, None) {
        Err(err) => err,
        Ok(_) => panic!("a model was collected"),
    };
    let retrieve = |expected| Diagnostic::IllegalExpr { decl: 0, expected, attr: Attr::Retrieve };
    assert_eq!(
        err,
        CollectError::CompilationFailed(vec![
            Diagnostic::IllegalType { decl: 0, allowed: Allowed::CalculatedVariables },
            retrieve(Expected::Path),
            Diagnostic::Unresolved { error: 4 },
            Diagnostic::IllegalType { decl: 0, allowed: Allowed::BrokenDependencies },
            Diagnostic::IllegalExpr {
                decl: 1,
                expected: Expected::PathOrArray,
                attr: Attr::Retrieve
            },
            Diagnostic::Unresolved { error: 5 },
            Diagnostic::IllegalType { decl: 0, allowed: Allowed::Parameters },
            Diagnostic::IllegalExpr {
                decl: 0,
                expected: Expected::StringLiteral,
                attr: Attr::Units
            },
            Diagnostic::IllegalExpr { decl: 0, expected: Expected::StringLiteral, attr: Attr::Desc },
            Diagnostic::IllegalExpr {
                decl: 0,
                expected: Expected::StringLiteral,
                attr: Attr::Group
            },
        ])
    );
}

#[test]
fn without_a_module_there_is_no_model() {
    let src = ModelSources {
        root: vec![RootDef::Other, RootDef::Module { name: 3, module: 0 }],
        modules: vec![vec![]],
        var_decls: vec![],
        param_decls: vec![],
    };
    assert!(matches!(
        ModelInfo::collect(&src, false, Some(4)),
        Err(CollectError::ModuleNotFound(Some(4)))
    ));
    assert!(matches!(
        ModelInfo::collect(&src, true, Some(3)),
        Err(CollectError::CompilationFailed(d)) if d.is_empty()
    ));
    let info = ModelInfo::collect(&src, false, None).unwrap();
    assert!(info.functions.is_empty() && info.params.is_empty());
    let none = ModelSources { root: vec![], modules: vec![], var_decls: vec![], param_decls: vec![] };
    assert!(matches!(
        ModelInfo::collect(&none, false, None),
        Err(CollectError::ModuleNotFound(None))
    ));
}
