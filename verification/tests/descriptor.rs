use va_midend::lowering::{
    Declarations, Error, ErrorType, ExpressionId, HirParameter, HirParameterType, HirToMirFold,
    HirVariable, MirParameterType, MirVariable, MirVariableType, ParameterValues, RangeBound,
    RealCast, ValueRange, VariableType,
};
use va_midend::osdi::{
    stdlib_bitcode, CodegenCx, ConstKind, OsdiJacobianEntry, OsdiLimFunction, OsdiNode,
    OsdiNodePair, OsdiNoiseSource, OsdiParamOpvar, OsdiTys, StdlibTarget, ToLlVal, TypeKind,
    JACOBIAN_ENTRY_REACT, JACOBIAN_ENTRY_RESIST, PARA_KIND_INST, PARA_KIND_MASK, PARA_KIND_OPVAR,
    TY_C_BOOL, TY_INT, TY_PTR,
};

fn types() -> (CodegenCx, OsdiTys) {
    let mut ctx = CodegenCx::new();
    let tys = OsdiTys::new(&mut ctx, 4, 4);
    (ctx, tys)
}

#[test]
fn the_types_of_the_descriptor_are_made_in_order() {
    let (ctx, tys) = types();
    assert_eq!(ctx.types.len(), 4 + 13);
    assert_eq!(tys.osdi_lim_function, 4);
    assert_eq!(tys.osdi_init_error_payload, 8);
    assert_eq!(tys.osdi_descriptor, 16);
    assert_eq!(ctx.types[7], TypeKind::AInt(32));
    assert_eq!(ctx.types[8], TypeKind::Array(7, 1));
    assert_eq!(
        ctx.types[tys.osdi_init_error],
        TypeKind::Struct("OsdiInitError".to_string(), vec![TY_INT, 8])
    );
    assert_eq!(
        ctx.types[tys.osdi_node],
        TypeKind::Struct(
            "OsdiNode".to_string(),
            vec![TY_PTR, TY_PTR, TY_PTR, TY_INT, TY_INT, TY_INT, TY_INT, TY_C_BOOL]
        )
    );
    assert_eq!(
        ctx.types[tys.osdi_jacobian_entry],
        TypeKind::Struct(
            "OsdiJacobianEntry".to_string(),
            vec![tys.osdi_node_pair, TY_INT, TY_INT]
        )
    );
    match &ctx.types[tys.osdi_descriptor] {
        TypeKind::Struct(name, fields) => {
            assert_eq!(name, "OsdiDescriptor");
            assert_eq!(fields.len(), 44);
        }
        other => panic!("{other:?}"),
    }
    // an integer of 8 bytes aligned to 4 takes two elements of 32 bits
    let mut ctx = CodegenCx::new();
    OsdiTys::new(&mut ctx, 8, 4);
    assert_eq!(ctx.types[8], TypeKind::Array(7, 2));
}

#[test]
fn a_jacobian_entry_is_laid_out_field_by_field() {
    let (mut ctx, tys) = types();
    let entry = OsdiJacobianEntry {
        nodes: OsdiNodePair { node_1: 3, node_2: 4 },
        react_ptr_off: 16,
        flags: JACOBIAN_ENTRY_RESIST | JACOBIAN_ENTRY_REACT,
    };
    let id = entry.to_ll_val(&mut ctx, &tys);
    assert_eq!(
        ctx.values,
        vec![
            ConstKind::UInt(3),
            ConstKind::UInt(4),
            ConstKind::Struct(tys.osdi_node_pair, vec![0, 1]),
            ConstKind::UInt(16),
            ConstKind::UInt(12),
            ConstKind::Struct(tys.osdi_jacobian_entry, vec![2, 3, 4]),
        ]
    );
    assert_eq!(id, 5);
}

#[test]
fn names_and_aliases_become_an_array() {
    let (mut ctx, tys) = types();
    let param = OsdiParamOpvar {
        name: vec!["r".to_string(), "res".to_string()],
        num_alias: 1,
        description: "resistance".to_string(),
        units: "Ohm".to_string(),
        flags: PARA_KIND_INST,
        len: 0,
    };
    let id = param.to_ll_val(&mut ctx, &tys);
    assert_eq!(ctx.values[0], ConstKind::Str("r".to_string()));
    assert_eq!(ctx.values[1], ConstKind::Str("res".to_string()));
    assert_eq!(ctx.values[2], ConstKind::ArrPtr(TY_PTR, vec![0, 1]));
    assert_eq!(ctx.values[id], ConstKind::Struct(tys.osdi_param_opvar, vec![2, 3, 4, 5, 6, 7]));
    assert_eq!(ctx.values[6], ConstKind::UInt(1 << 30));
    assert_eq!(PARA_KIND_MASK, 3 << 30);
    assert_eq!(PARA_KIND_OPVAR, 2 << 30);

    let node = OsdiNode {
        name: "A".to_string(),
        units: "V".to_string(),
        residual_units: "A".to_string(),
        resist_residual_off: 1,
        react_residual_off: 2,
        resist_limit_rhs_off: 3,
        react_limit_rhs_off: 4,
        is_flow: true,
    };
    let id = node.to_ll_val(&mut ctx, &tys);
    assert_eq!(ctx.values[id - 1], ConstKind::Bool(true));
    let noise = OsdiNoiseSource { name: "n".to_string(), nodes: OsdiNodePair { node_1: 0, node_2: 1 } };
    let id = noise.to_ll_val(&mut ctx, &tys);
    assert!(matches!(&ctx.values[id], ConstKind::Struct(ty, f) if *ty == tys.osdi_noise_source && f.len() == 2));
    let f = ctx.constant(ConstKind::Symbol(9));
    let lim = OsdiLimFunction { name: "pnjlim".to_string(), num_args: 2, func_ptr: f };
    let id = lim.to_ll_val(&mut ctx, &tys);
    assert!(matches!(&ctx.values[id], ConstKind::Struct(_, fields) if fields[2] == f));
}

#[test]
fn the_standard_library_is_chosen_by_triple() {
    assert_eq!(stdlib_bitcode("x86_64-unknown-linux-gnu"), Some(StdlibTarget::X8664UnknownLinuxGnu));
    assert_eq!(stdlib_bitcode("x86_64-pc-windows-msvc"), Some(StdlibTarget::X8664PcWindowsMsvc));
    assert_eq!(stdlib_bitcode("x86_64-apple-macosx10.15.0"), Some(StdlibTarget::X8664AppleMacosx10150));
    assert_eq!(stdlib_bitcode("aarch64-unknown-linux-gnu"), Some(StdlibTarget::Aarch64UnknownLinuxGnu));
    assert_eq!(stdlib_bitcode("aarch64-pc-windows-msvc"), Some(StdlibTarget::Aarch64PcWindowsMsvc));
    assert_eq!(stdlib_bitcode("arm64-apple-macosx11.0.0"), Some(StdlibTarget::Arm64AppleMacosx1100));
    assert_eq!(stdlib_bitcode("riscv64-unknown-linux-gnu"), None);
}

fn declarations() -> Declarations {
    Declarations {
        variables: vec![
            HirVariable { name: 1, variable_type: VariableType::REAL, default_value: Some(0) },
            HirVariable { name: 2, variable_type: VariableType::INTEGER, default_value: Some(1) },
            HirVariable { name: 3, variable_type: VariableType::TIME, default_value: Some(0) },
            HirVariable { name: 4, variable_type: VariableType::REALTIME, default_value: None },
            HirVariable { name: 5, variable_type: VariableType::INTEGER, default_value: None },
        ],
        parameters: vec![
            HirParameter { name: 10, parameter_type: HirParameterType::Numerical(VariableType::REAL) },
            HirParameter {
                name: 11,
                parameter_type: HirParameterType::Numerical(VariableType::INTEGER),
            },
        ],
        sources: vec![70, 71, 72],
    }
}

#[test]
fn variables_get_typed_defaults() {
    let hir = declarations();
    let folded = vec![Some(ExpressionId::Real(40)), Some(ExpressionId::Integer(41))];
    let range = ValueRange {
        start: RangeBound { inclusive: true, bound: 0 },
        end: RangeBound { inclusive: false, bound: 10 },
    };
    let evaluated = vec![
        Some(ParameterValues {
            included_ranges: vec![range],
            excluded_ranges: vec![],
            default_value: 1.5f64.to_bits(),
        }),
        None,
    ];
    let mir = hir.lower(&folded, evaluated, 100).unwrap();
    assert_eq!(
        mir.variables,
        vec![
            Some(MirVariable { name: 1, variable_type: MirVariableType::Real(Some(40)) }),
            Some(MirVariable { name: 2, variable_type: MirVariableType::Integer(Some(41)) }),
            Some(MirVariable { name: 3, variable_type: MirVariableType::Integer(Some(100)) }),
            Some(MirVariable { name: 4, variable_type: MirVariableType::Real(None) }),
            Some(MirVariable { name: 5, variable_type: MirVariableType::Integer(None) }),
        ]
    );
    assert_eq!(mir.casts, vec![RealCast { source: 70, real_expr: 40 }]);
    assert_eq!(mir.parameters.len(), 2);
    match &mir.parameters[0].parameter_type {
        MirParameterType::Real { included_ranges, excluded_ranges, default_value } => {
            assert_eq!(included_ranges, &vec![range]);
            assert!(excluded_ranges.is_empty());
            assert_eq!(*default_value, 1.5f64.to_bits());
        }
        other => panic!("{other:?}"),
    }
    match &mir.parameters[1].parameter_type {
        MirParameterType::Integer { included_ranges, excluded_ranges, default_value } => {
            assert!(included_ranges.is_empty() && excluded_ranges.is_empty());
            assert_eq!(*default_value, 0);
        }
        other => panic!("{other:?}"),
    }
}

#[test]
fn a_string_as_the_default_of_an_integer_is_an_error() {
    let mut hir = declarations();
    hir.parameters.push(HirParameter { name: 12, parameter_type: HirParameterType::String });
    let folded = vec![Some(ExpressionId::String(3)), None];
    let errors = hir.lower(&folded, vec![None, None, None], 0).unwrap_err();
    assert_eq!(
        errors,
        vec![
            Error { error_type: ErrorType::StringParameter, source: 0 },
            Error { error_type: ErrorType::ExpectedNumber, source: 70 },
        ]
    );
    // the variables are lowered one by one
    let mut fold = HirToMirFold::new(&hir, &folded, 0);
    fold.fold_variable(0);
    fold.fold_variable(1);
    fold.fold_variable(2);
    assert_eq!(
        fold.mir.variables[0],
        Some(MirVariable { name: 1, variable_type: MirVariableType::Real(None) })
    );
    assert_eq!(fold.mir.variables[1], None);
    assert_eq!(fold.mir.variables[2], None);
    assert_eq!(fold.errors, vec![Error { error_type: ErrorType::ExpectedNumber, source: 70 }]);
}
