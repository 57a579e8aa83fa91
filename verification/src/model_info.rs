//! What a model offers to the outside: its parameters, the variables that
//! can be retrieved with the variables whose dependencies are broken for
//! that, and the operating-point variables. It is collected from the
//! definitions of a module and the attributes of their declarations.

use vstd::prelude::*;
use crate::collections::{
    param_seq, params_insert, params_new, var_name_map, var_names_insert, var_names_new,
};
use crate::text::{encode, push_str, spec_encode, ALPHANUMERIC_ONLY};

verus! {

/// The type of a variable or a parameter.
#[derive(Clone, Copy, Debug, PartialEq, Eq, Structural)]
pub enum Type {
    Real,
    Integer,
    String,
    Other,
}

impl Type {
    /// Real or integer.
    pub open spec fn spec_is_numeric(self) -> bool {
        self == Type::Real || self == Type::Integer
    }

    #[verifier::when_used_as_spec(spec_is_numeric)]
    pub fn is_numeric(self) -> (res: bool)
        ensures
            res == self.spec_is_numeric(),
    {
        match self {
            Type::Real | Type::Integer => true,
            _ => false,
        }
    }
}

/// What a path in an attribute leads to: a variable with its type, or
/// nothing, with the number of the error that looking it up gave.
#[derive(Clone, Copy, Debug, PartialEq, Eq, Structural)]
pub enum PathTarget {
    Var { var: u32, ty: Type },
    Unresolved { error: u32 },
}

/// An element of an array in a `retrieve` attribute.
#[derive(Clone, Copy, Debug, PartialEq, Eq, Structural)]
pub enum RetrieveItem {
    Path(PathTarget),
    Other,
}

/// The `retrieve` attribute of a declaration of variables.
#[derive(Debug)]
pub enum RetrieveAttr {
    /// The declaration has no such attribute.
    Absent,
    /// The attribute has no value.
    Bare,
    Path(PathTarget),
    Array(Vec<RetrieveItem>),
    /// Any other expression.
    Other,
}

/// The attributes of a declaration of variables.
#[derive(Debug)]
pub struct VarDeclAttrs {
    pub retrieve: RetrieveAttr,
    pub op_var: bool,
}

/// An attribute whose value is to be a string literal.
#[derive(Clone, Copy, Debug, PartialEq, Eq, Structural)]
pub enum StrAttr {
    /// No such attribute, or one without a value.
    Absent,
    /// A string literal, by the number of its text.
    Literal(u32),
    /// Any other expression.
    Other,
}

/// The attributes of a declaration of parameters.
#[derive(Clone, Copy, Debug, PartialEq, Eq, Structural)]
pub struct ParamDeclAttrs {
    pub units: StrAttr,
    pub desc: StrAttr,
    pub group: StrAttr,
}

/// A definition in the scope of a module: a variable or a parameter, with
/// the number of the declaration it stands in, the number of its full
/// name, and its type.
#[derive(Clone, Copy, Debug, PartialEq, Eq, Structural)]
pub enum ScopeDef {
    Var { var: u32, decl: u32, name: u32, ty: Type },
    Param { param: u32, decl: u32, name: u32, ty: Type },
    Other,
}

/// A declaration at the root of a file.
#[derive(Clone, Copy, Debug, PartialEq, Eq, Structural)]
pub enum RootDef {
    Module { name: u32, module: u32 },
    Other,
}

/// What the model is collected from.
#[derive(Debug)]
pub struct ModelSources {
    /// The declarations at the root, in their order.
    pub root: Vec<RootDef>,
    /// For each module, the definitions in its scope, in the order in
    /// which they are visited.
    pub modules: Vec<Vec<ScopeDef>>,
    /// The attributes of each declaration of variables.
    pub var_decls: Vec<VarDeclAttrs>,
    /// The attributes of each declaration of parameters.
    pub param_decls: Vec<ParamDeclAttrs>,
}

/// The attribute that a diagnostic is about.
#[derive(Clone, Copy, Debug, PartialEq, Eq, Structural)]
pub enum Attr {
    Retrieve,
    Units,
    Desc,
    Group,
}

/// What an attribute was expected to hold.
#[derive(Clone, Copy, Debug, PartialEq, Eq, Structural)]
pub enum Expected {
    StringLiteral,
    Path,
    PathOrArray,
}

/// The types that are allowed in a place.
#[derive(Clone, Copy, Debug, PartialEq, Eq, Structural)]
pub enum Allowed {
    /// Calculating real and integer variables.
    CalculatedVariables,
    /// Breaking dependencies on real and integer variables.
    BrokenDependencies,
    /// Real, integer and string parameters.
    Parameters,
}

/// An error found while collecting, with the declaration it is about.
#[derive(Clone, Copy, Debug, PartialEq, Eq, Structural)]
pub enum Diagnostic {
    IllegalExpr { decl: u32, expected: Expected, attr: Attr },
    IllegalType { decl: u32, allowed: Allowed },
    Unresolved { error: u32 },
}

/// A variable that can be retrieved, the variables whose dependencies are
/// broken for it, and the prefix of the names of its functions.
#[derive(Debug, PartialEq, Eq)]
pub struct Function {
    pub var: u32,
    pub dependency_breaking: Vec<u32>,
    pub prefix: String,
}

/// What is known of a parameter: the number of its name, the texts of its
/// unit, description and group where it has them, and its type.
#[derive(Clone, Copy, Debug, PartialEq, Eq, Structural)]
pub struct ParamInfo {
    pub name: u32,
    pub unit: Option<u32>,
    pub description: Option<u32>,
    pub group: Option<u32>,
    pub ty: Type,
}

/// The model.
pub struct ModelInfo {
    pub params: indexmap::IndexMap<u32, ParamInfo, ahash::RandomState>,
    pub functions: Vec<Function>,
    pub var_names: ahash::AHashMap<u32, u32>,
    pub op_vars: Vec<u32>,
    pub module: u32,
}

/// Why no model was collected.
#[derive(Debug, PartialEq, Eq)]
pub enum CollectError {
    /// Errors were found, before collecting or while collecting.
    CompilationFailed(Vec<Diagnostic>),
    /// There is no module, or none with the name that was asked for.
    ModuleNotFound(Option<u32>),
}

/// The first module among the first `n` declarations at the root, or the
/// first with the name `name` where one is asked for.
pub open spec fn spec_find_module(root: Seq<RootDef>, name: Option<u32>, n: nat) -> Option<u32>
    decreases n,
{
    if n == 0 {
        None
    } else {
        match spec_find_module(root, name, (n - 1) as nat) {
            Some(module) => Some(module),
            None => match root[n - 1] {
                RootDef::Module { name: def_name, module } => if name is None || name == Some(
                    def_name,
                ) {
                    Some(module)
                } else {
                    None
                },
                RootDef::Other => None,
            },
        }
    }
}

proof fn lemma_find_module_found(root: Seq<RootDef>, name: Option<u32>, n: nat, m: nat)
    requires
        n <= m,
        spec_find_module(root, name, n) is Some,
    ensures
        spec_find_module(root, name, m) == spec_find_module(root, name, n),
    decreases m - n,
{
    if n < m {
        lemma_find_module_found(root, name, n, (m - 1) as nat);
    }
}

/// See [`spec_find_module`].
pub fn find_module(root: &Vec<RootDef>, name: Option<u32>) -> (res: Option<u32>)
    ensures
        res == spec_find_module(root@, name, root@.len()),
{
    let mut i: usize = 0;
    while i < root.len()
        invariant
            i <= root@.len(),
            spec_find_module(root@, name, i as nat) is None,
        decreases root@.len() - i,
    {
        if let RootDef::Module { name: def_name, module } = root[i] {
            let wanted = match name {
                Some(name) => name == def_name,
                None => true,
            };
            if wanted {
                proof {
                    lemma_find_module_found(root@, name, (i + 1) as nat, root@.len());
                }
                return Some(module);
            }
        }
        i += 1;
    }
    None
}

/// What the first `n` elements of an array in a `retrieve` attribute of
/// the declaration `decl` give: the variables that their paths lead to,
/// and an error for each path that leads nowhere, each variable that is
/// no number, and each element that is no path.
pub open spec fn spec_retrieve_items(items: Seq<RetrieveItem>, decl: u32, n: nat) -> (
    Seq<u32>,
    Seq<Diagnostic>,
)
    decreases n,
{
    if n == 0 {
        (Seq::empty(), Seq::empty())
    } else {
        let (vars, diags) = spec_retrieve_items(items, decl, (n - 1) as nat);
        match items[n - 1] {
            RetrieveItem::Path(PathTarget::Var { var, ty }) => (
                vars.push(var),
                if ty.is_numeric() {
                    diags
                } else {
                    diags.push(
                        Diagnostic::IllegalType { decl, allowed: Allowed::BrokenDependencies },
                    )
                },
            ),
            RetrieveItem::Path(PathTarget::Unresolved { error }) => (
                vars,
                diags.push(Diagnostic::Unresolved { error }),
            ),
            RetrieveItem::Other => (
                vars,
                diags.push(
                    Diagnostic::IllegalExpr { decl, expected: Expected::Path, attr: Attr::Retrieve },
                ),
            ),
        }
    }
}

/// The `retrieve` attribute as a mathematical value.
pub enum RetrieveAttrView {
    Absent,
    Bare,
    Path(PathTarget),
    Array(Seq<RetrieveItem>),
    Other,
}

impl View for RetrieveAttr {
    type V = RetrieveAttrView;

    open spec fn view(&self) -> RetrieveAttrView {
        match self {
            RetrieveAttr::Absent => RetrieveAttrView::Absent,
            RetrieveAttr::Bare => RetrieveAttrView::Bare,
            RetrieveAttr::Path(target) => RetrieveAttrView::Path(*target),
            RetrieveAttr::Array(items) => RetrieveAttrView::Array(items@),
            RetrieveAttr::Other => RetrieveAttrView::Other,
        }
    }
}

/// What the `retrieve` attribute of the declaration `decl` gives for a
/// variable of the type `ty` that it declares: the variables whose
/// dependencies are broken, or `None` where the variable cannot be
/// retrieved, and the errors found. An attribute with a value on a
/// variable that is no number is an error; so is a value that is neither a
/// path nor an array.
pub open spec fn spec_resolve_retrieve(attr: RetrieveAttrView, ty: Type, decl: u32) -> (
    Option<Seq<u32>>,
    Seq<Diagnostic>,
) {
    let first: Seq<Diagnostic> = if ty.is_numeric() {
        Seq::empty()
    } else {
        seq![Diagnostic::IllegalType { decl, allowed: Allowed::CalculatedVariables }]
    };
    match attr {
        RetrieveAttrView::Absent => (None, Seq::empty()),
        RetrieveAttrView::Bare => (Some(Seq::empty()), Seq::empty()),
        RetrieveAttrView::Path(PathTarget::Var { var, ty: dep_ty }) => (
            Some(seq![var]),
            if dep_ty.is_numeric() {
                first
            } else {
                first.push(Diagnostic::IllegalType { decl, allowed: Allowed::BrokenDependencies })
            },
        ),
        RetrieveAttrView::Path(PathTarget::Unresolved { error }) => (
            Some(Seq::empty()),
            first.push(Diagnostic::Unresolved { error }),
        ),
        RetrieveAttrView::Array(items) => (
            Some(spec_retrieve_items(items, decl, items.len()).0),
            first + spec_retrieve_items(items, decl, items.len()).1,
        ),
        RetrieveAttrView::Other => (
            Some(Seq::empty()),
            first.push(
                Diagnostic::IllegalExpr {
                    decl,
                    expected: Expected::PathOrArray,
                    attr: Attr::Retrieve,
                },
            ),
        ),
    }
}

/// See [`spec_resolve_retrieve`]; the errors are added to `diagnostics`.
pub fn resolve_retrieve(
    attr: &RetrieveAttr,
    ty: Type,
    decl: u32,
    diagnostics: &mut Vec<Diagnostic>,
) -> (res: Option<Vec<u32>>)
    ensures
        match res {
            Some(vars) => Some(vars@),
            None => None,
        } == spec_resolve_retrieve(attr@, ty, decl).0,
        final(diagnostics)@ == old(diagnostics)@ + spec_resolve_retrieve(attr@, ty, decl).1,
{
    match attr {
        RetrieveAttr::Absent => {
            assert(diagnostics@ =~= old(diagnostics)@ + Seq::<Diagnostic>::empty());
            return None;
        },
        RetrieveAttr::Bare => {
            assert(diagnostics@ =~= old(diagnostics)@ + Seq::<Diagnostic>::empty());
            return Some(Vec::new());
        },
        _ => {},
    }
    if !ty.is_numeric() {
        diagnostics.push(Diagnostic::IllegalType { decl, allowed: Allowed::CalculatedVariables });
    }
    let ghost first = diagnostics@;
    let mut vars: Vec<u32> = Vec::new();
    match attr {
        RetrieveAttr::Path(PathTarget::Var { var, ty: dep_ty }) => {
            if !dep_ty.is_numeric() {
                diagnostics.push(
                    Diagnostic::IllegalType { decl, allowed: Allowed::BrokenDependencies },
                );
            }
            vars.push(*var);
            assert(vars@ =~= seq![*var]);
        },
        RetrieveAttr::Path(PathTarget::Unresolved { error }) => {
            diagnostics.push(Diagnostic::Unresolved { error: *error });
        },
        RetrieveAttr::Array(items) => {
            let mut i: usize = 0;
            while i < items.len()
                invariant
                    i <= items@.len(),
                    vars@ == spec_retrieve_items(items@, decl, i as nat).0,
                    diagnostics@ == first + spec_retrieve_items(items@, decl, i as nat).1,
                decreases items@.len() - i,
            {
                let ghost before = spec_retrieve_items(items@, decl, i as nat).1;
                match items[i] {
                    RetrieveItem::Path(PathTarget::Var { var, ty: dep_ty }) => {
                        if !dep_ty.is_numeric() {
                            diagnostics.push(
                                Diagnostic::IllegalType {
                                    decl,
                                    allowed: Allowed::BrokenDependencies,
                                },
                            );
                        }
                        vars.push(var);
                    },
                    RetrieveItem::Path(PathTarget::Unresolved { error }) => {
                        diagnostics.push(Diagnostic::Unresolved { error });
                    },
                    RetrieveItem::Other => {
                        diagnostics.push(
                            Diagnostic::IllegalExpr {
                                decl,
                                expected: Expected::Path,
                                attr: Attr::Retrieve,
                            },
                        );
                    },
                }
                i += 1;
                assert(diagnostics@ =~= first + spec_retrieve_items(items@, decl, i as nat).1);
            }
        },
        _ => {
            diagnostics.push(
                Diagnostic::IllegalExpr {
                    decl,
                    expected: Expected::PathOrArray,
                    attr: Attr::Retrieve,
                },
            );
        },
    }
    assert(diagnostics@ =~= old(diagnostics)@ + spec_resolve_retrieve(attr@, ty, decl).1);
    Some(vars)
}

/// The text of an attribute that is to be a string literal, and the error
/// if it is something else.
pub open spec fn spec_str_attr(value: StrAttr, decl: u32, attr: Attr) -> (
    Option<u32>,
    Seq<Diagnostic>,
) {
    match value {
        StrAttr::Absent => (None, Seq::empty()),
        StrAttr::Literal(text) => (Some(text), Seq::empty()),
        StrAttr::Other => (
            None,
            seq![Diagnostic::IllegalExpr { decl, expected: Expected::StringLiteral, attr }],
        ),
    }
}

fn resolve_str_attr(value: StrAttr, decl: u32, attr: Attr, diagnostics: &mut Vec<Diagnostic>) -> (res:
    Option<u32>)
    ensures
        res == spec_str_attr(value, decl, attr).0,
        final(diagnostics)@ == old(diagnostics)@ + spec_str_attr(value, decl, attr).1,
{
    match value {
        StrAttr::Absent => {
            assert(diagnostics@ =~= old(diagnostics)@ + Seq::<Diagnostic>::empty());
            None
        },
        StrAttr::Literal(text) => {
            assert(diagnostics@ =~= old(diagnostics)@ + Seq::<Diagnostic>::empty());
            Some(text)
        },
        StrAttr::Other => {
            diagnostics.push(
                Diagnostic::IllegalExpr { decl, expected: Expected::StringLiteral, attr },
            );
            assert(diagnostics@ =~= old(diagnostics)@ + seq![
                Diagnostic::IllegalExpr { decl, expected: Expected::StringLiteral, attr },
            ]);
            None
        },
    }
}

/// What the attributes of the declaration `decl` give for a parameter of
/// the type `ty` that it declares, but for its name, and the errors
/// found: first that of a type that no parameter may have, then those of
/// the unit, the description and the group.
pub open spec fn spec_param_info(attrs: ParamDeclAttrs, ty: Type, decl: u32) -> (
    ParamInfo,
    Seq<Diagnostic>,
) {
    let first: Seq<Diagnostic> = if ty == Type::Other {
        seq![Diagnostic::IllegalType { decl, allowed: Allowed::Parameters }]
    } else {
        Seq::empty()
    };
    let unit = spec_str_attr(attrs.units, decl, Attr::Units);
    let description = spec_str_attr(attrs.desc, decl, Attr::Desc);
    let group = spec_str_attr(attrs.group, decl, Attr::Group);
    (
        ParamInfo { name: 0, unit: unit.0, description: description.0, group: group.0, ty },
        first + unit.1 + description.1 + group.1,
    )
}

/// See [`spec_param_info`]; the errors are added to `diagnostics`.
pub fn resolve_param_info(
    attrs: ParamDeclAttrs,
    ty: Type,
    decl: u32,
    diagnostics: &mut Vec<Diagnostic>,
) -> (res: ParamInfo)
    ensures
        res == spec_param_info(attrs, ty, decl).0,
        final(diagnostics)@ == old(diagnostics)@ + spec_param_info(attrs, ty, decl).1,
{
    match ty {
        Type::Other => {
            diagnostics.push(Diagnostic::IllegalType { decl, allowed: Allowed::Parameters });
        },
        _ => {},
    }
    let unit = resolve_str_attr(attrs.units, decl, Attr::Units, diagnostics);
    let description = resolve_str_attr(attrs.desc, decl, Attr::Desc, diagnostics);
    let group = resolve_str_attr(attrs.group, decl, Attr::Group, diagnostics);
    assert(diagnostics@ =~= old(diagnostics)@ + spec_param_info(attrs, ty, decl).1);
    ParamInfo { name: 0, unit, description, group, ty }
}

/// The prefix of the functions of the variable that is the `counter`th to
/// be retrieved: `fun.` and the number in the base of letters and digits.
pub open spec fn spec_prefix(counter: nat) -> Seq<char> {
    seq!['f', 'u', 'n', '.'] + spec_encode(counter, ALPHANUMERIC_ONLY as nat)
}

/// See [`spec_prefix`].
pub fn function_prefix(counter: usize) -> (res: String)
    ensures
        res@ == spec_prefix(counter as nat),
{
    proof {
        reveal_strlit("fun.");
    }
    let mut res = String::new();
    push_str(&mut res, "fun.");
    let number = encode(counter as u128, ALPHANUMERIC_ONLY);
    push_str(&mut res, number.as_str());
    assert(res@ =~= spec_prefix(counter as nat));
    res
}

/// A [`Function`] as a mathematical value.
pub struct FunctionView {
    pub var: u32,
    pub dependency_breaking: Seq<u32>,
    pub prefix: Seq<char>,
}

impl View for Function {
    type V = FunctionView;

    open spec fn view(&self) -> FunctionView {
        FunctionView {
            var: self.var,
            dependency_breaking: self.dependency_breaking@,
            prefix: self.prefix@,
        }
    }
}

/// What has been collected.
pub struct Collected {
    pub params: Seq<(u32, ParamInfo)>,
    pub functions: Seq<FunctionView>,
    pub var_names: Map<u32, u32>,
    pub op_vars: Seq<u32>,
    pub diagnostics: Seq<Diagnostic>,
}

/// The type of the first variable among the first `n` definitions that
/// stands in the declaration `decl`.
pub open spec fn spec_first_var_ty(defs: Seq<ScopeDef>, decl: u32, n: nat) -> Option<Type>
    decreases n,
{
    if n == 0 {
        None
    } else {
        match spec_first_var_ty(defs, decl, (n - 1) as nat) {
            Some(ty) => Some(ty),
            None => match defs[n - 1] {
                ScopeDef::Var { decl: d, ty, .. } => if d == decl {
                    Some(ty)
                } else {
                    None
                },
                _ => None,
            },
        }
    }
}

/// The type of the first parameter among the first `n` definitions that
/// stands in the declaration `decl`.
pub open spec fn spec_first_param_ty(defs: Seq<ScopeDef>, decl: u32, n: nat) -> Option<Type>
    decreases n,
{
    if n == 0 {
        None
    } else {
        match spec_first_param_ty(defs, decl, (n - 1) as nat) {
            Some(ty) => Some(ty),
            None => match defs[n - 1] {
                ScopeDef::Param { decl: d, ty, .. } => if d == decl {
                    Some(ty)
                } else {
                    None
                },
                _ => None,
            },
        }
    }
}

/// The parameters with `info` for `param`: in the place of what they held
/// for it, or after all others where they held nothing.
pub open spec fn spec_with_param(params: Seq<(u32, ParamInfo)>, param: u32, info: ParamInfo) -> Seq<
    (u32, ParamInfo),
> {
    if exists|i: int| 0 <= i < params.len() && (#[trigger] params[i]).0 == param {
        let i = choose|i: int| 0 <= i < params.len() && (#[trigger] params[i]).0 == param;
        params.update(i, (param, info))
    } else {
        params.push((param, info))
    }
}

/// No parameter occurs twice.
pub open spec fn spec_params_distinct(params: Seq<(u32, ParamInfo)>) -> bool {
    forall|i: int, j: int|
        0 <= i < params.len() && 0 <= j < params.len() && (#[trigger] params[i]).0 == (
        #[trigger] params[j]).0 ==> i == j
}

impl ModelSources {
    /// The `retrieve` attribute of the declaration `decl` of variables and
    /// whether it marks operating-point variables. A number that names no
    /// declaration has no attributes.
    pub open spec fn spec_var_attrs(&self, decl: u32) -> (RetrieveAttrView, bool) {
        if decl < self.var_decls@.len() {
            (self.var_decls@[decl as int].retrieve@, self.var_decls@[decl as int].op_var)
        } else {
            (RetrieveAttrView::Absent, false)
        }
    }

    /// The attributes of the declaration `decl` of parameters. A number
    /// that names no declaration has no attributes.
    pub open spec fn spec_param_attrs(&self, decl: u32) -> ParamDeclAttrs {
        if decl < self.param_decls@.len() {
            self.param_decls@[decl as int]
        } else {
            ParamDeclAttrs { units: StrAttr::Absent, desc: StrAttr::Absent, group: StrAttr::Absent }
        }
    }

    /// The definitions in the scope of `module`; none for a number that
    /// names no module.
    pub open spec fn spec_defs(&self, module: u32) -> Seq<ScopeDef> {
        if module < self.modules@.len() {
            self.modules@[module as int]@
        } else {
            Seq::empty()
        }
    }

    /// What the definition at position `k` adds. A variable is entered
    /// with its name; if its declaration has a `retrieve` attribute it
    /// becomes a function, and if it is marked so, an operating-point
    /// variable. A parameter is entered with what its declaration says of
    /// it. The attributes of a declaration are looked at once, for the
    /// first definition that stands in it: the errors are reported then,
    /// and what was found holds for the other definitions too. A
    /// definition whose declaration is not known is looked at by itself.
    pub open spec fn spec_collect_def(&self, acc: Collected, defs: Seq<ScopeDef>, k: int)
        -> Collected {
        match defs[k] {
            ScopeDef::Var { var, decl, name, ty } => {
                let first = if decl < self.var_decls@.len() {
                    spec_first_var_ty(defs, decl, k as nat)
                } else {
                    None
                };
                let attrs = self.spec_var_attrs(decl);
                let found = spec_resolve_retrieve(
                    attrs.0,
                    match first {
                        Some(first_ty) => first_ty,
                        None => ty,
                    },
                    decl,
                );
                Collected {
                    functions: match found.0 {
                        Some(vars) => acc.functions.push(
                            FunctionView {
                                var,
                                dependency_breaking: vars,
                                prefix: spec_prefix(acc.functions.len()),
                            },
                        ),
                        None => acc.functions,
                    },
                    op_vars: if attrs.1 {
                        acc.op_vars.push(name)
                    } else {
                        acc.op_vars
                    },
                    var_names: acc.var_names.insert(var, name),
                    diagnostics: if first is None {
                        acc.diagnostics + found.1
                    } else {
                        acc.diagnostics
                    },
                    ..acc
                }
            },
            ScopeDef::Param { param, decl, name, ty } => {
                let first = if decl < self.param_decls@.len() {
                    spec_first_param_ty(defs, decl, k as nat)
                } else {
                    None
                };
                let found = spec_param_info(
                    self.spec_param_attrs(decl),
                    match first {
                        Some(first_ty) => first_ty,
                        None => ty,
                    },
                    decl,
                );
                Collected {
                    params: spec_with_param(acc.params, param, ParamInfo { name, ..found.0 }),
                    diagnostics: if first is None {
                        acc.diagnostics + found.1
                    } else {
                        acc.diagnostics
                    },
                    ..acc
                }
            },
            ScopeDef::Other => acc,
        }
    }

    /// What the first `n` definitions add to nothing.
    pub open spec fn spec_collect(&self, defs: Seq<ScopeDef>, n: nat) -> Collected
        decreases n,
    {
        if n == 0 {
            Collected {
                params: Seq::empty(),
                functions: Seq::empty(),
                var_names: Map::empty(),
                op_vars: Seq::empty(),
                diagnostics: Seq::empty(),
            }
        } else {
            self.spec_collect_def(self.spec_collect(defs, (n - 1) as nat), defs, n - 1)
        }
    }
}

impl View for ModelInfo {
    type V = Collected;

    /// What the model holds; a model holds no errors.
    open spec fn view(&self) -> Collected {
        Collected {
            params: param_seq(self.params),
            functions: Seq::new(self.functions@.len(), |i: int| self.functions@[i]@),
            var_names: var_name_map(self.var_names),
            op_vars: self.op_vars@,
            diagnostics: Seq::empty(),
        }
    }
}

impl ModelInfo {
    /// Collects the model from the module with the name `name`, or from
    /// the first module where no name is given. Without such a module
    /// there is no model; nor is there one where errors were found
    /// upstream, or are found in the attributes: then the errors are
    /// returned.
    pub fn collect(src: &ModelSources, upstream_errors: bool, name: Option<u32>) -> (res: Result<
        ModelInfo,
        CollectError,
    >)
        ensures
            ({
                let found = spec_find_module(src.root@, name, src.root@.len());
                let all = src.spec_collect(
                    src.spec_defs(found.unwrap()),
                    src.spec_defs(found.unwrap()).len(),
                );
                match res {
                    Ok(info) => {
                        &&& !upstream_errors
                        &&& found is Some
                        &&& all.diagnostics.len() == 0
                        &&& info@ == all
                        &&& info.module == found.unwrap()
                    },
                    Err(CollectError::CompilationFailed(d)) => if upstream_errors {
                        d@.len() == 0
                    } else {
                        found is Some && d@.len() > 0 && d@ == all.diagnostics
                    },
                    Err(CollectError::ModuleNotFound(wanted)) => {
                        &&& !upstream_errors
                        &&& found is None
                        &&& wanted == name
                    },
                }
            }),
    {
        if upstream_errors {
            return Err(CollectError::CompilationFailed(Vec::new()));
        }
        let module = match find_module(&src.root, name) {
            Some(module) => module,
            None => {
                return Err(CollectError::ModuleNotFound(name));
            },
        };
        let no_defs: Vec<ScopeDef> = Vec::new();
        let defs = if (module as usize) < src.modules.len() {
            &src.modules[module as usize]
        } else {
            &no_defs
        };
        let mut params = params_new();
        let mut functions: Vec<Function> = Vec::new();
        let mut var_names = var_names_new();
        let mut op_vars: Vec<u32> = Vec::new();
        let mut diagnostics: Vec<Diagnostic> = Vec::new();
        let mut var_seen: Vec<Option<Type>> = Vec::new();
        let mut param_seen: Vec<Option<Type>> = Vec::new();
        let mut i: usize = 0;
        while i < src.var_decls.len()
            invariant
                i <= src.var_decls@.len(),
                var_seen@.len() == i,
                forall|d: int| 0 <= d < i ==> var_seen@[d] is None,
            decreases src.var_decls@.len() - i,
        {
            var_seen.push(None);
            i += 1;
        }
        let mut i: usize = 0;
        while i < src.param_decls.len()
            invariant
                i <= src.param_decls@.len(),
                param_seen@.len() == i,
                forall|d: int| 0 <= d < i ==> param_seen@[d] is None,
            decreases src.param_decls@.len() - i,
        {
            param_seen.push(None);
            i += 1;
        }
        assert(var_name_map(var_names) =~= Map::empty());
        assert(Seq::new(functions@.len(), |i: int| functions@[i]@) =~= Seq::empty());
        let mut k: usize = 0;
        while k < defs.len()
            invariant
                k <= defs@.len(),
                defs@ == src.spec_defs(module),
                var_seen@.len() == src.var_decls@.len(),
                param_seen@.len() == src.param_decls@.len(),
                forall|d: u32|
                    d < var_seen@.len() ==> #[trigger] var_seen@[d as int] == spec_first_var_ty(
                        defs@,
                        d,
                        k as nat,
                    ),
                forall|d: u32|
                    d < param_seen@.len() ==> #[trigger] param_seen@[d as int]
                        == spec_first_param_ty(defs@, d, k as nat),
                spec_params_distinct(param_seq(params)),
                param_seq(params) == src.spec_collect(defs@, k as nat).params,
                Seq::new(functions@.len(), |i: int| functions@[i]@) == src.spec_collect(
                    defs@,
                    k as nat,
                ).functions,
                var_name_map(var_names) == src.spec_collect(defs@, k as nat).var_names,
                op_vars@ == src.spec_collect(defs@, k as nat).op_vars,
                diagnostics@ == src.spec_collect(defs@, k as nat).diagnostics,
            decreases defs@.len() - k,
        {
            let ghost acc = src.spec_collect(defs@, k as nat);
            let ghost next = src.spec_collect_def(acc, defs@, k as int);
            let ghost seen_vars = var_seen@;
            let ghost seen_params = param_seen@;
            match defs[k] {
                ScopeDef::Var { var, decl, name, ty } => {
                    let d = decl as usize;
                    if d < src.var_decls.len() {
                        let attrs = &src.var_decls[d];
                        let resolved = match var_seen[d] {
                            Some(first_ty) => {
                                let mut scratch: Vec<Diagnostic> = Vec::new();
                                resolve_retrieve(&attrs.retrieve, first_ty, decl, &mut scratch)
                            },
                            None => {
                                var_seen.set(d, Some(ty));
                                resolve_retrieve(&attrs.retrieve, ty, decl, &mut diagnostics)
                            },
                        };
                        if let Some(dependency_breaking) = resolved {
                            let prefix = function_prefix(functions.len());
                            functions.push(Function { var, dependency_breaking, prefix });
                        }
                        if attrs.op_var {
                            op_vars.push(name);
                        }
                    } else {
                        assert(diagnostics@ =~= diagnostics@ + Seq::<Diagnostic>::empty());
                    }
                    var_names_insert(&mut var_names, var, name);
                    assert(Seq::new(functions@.len(), |i: int| functions@[i]@) =~= next.functions);
                    assert(diagnostics@ == next.diagnostics);
                    assert forall|e: u32| e < var_seen@.len() implies #[trigger] var_seen@[e as int]
                        == spec_first_var_ty(defs@, e, (k + 1) as nat) by {
                        assert(seen_vars[e as int] == spec_first_var_ty(defs@, e, k as nat));
                    }
                    assert forall|e: u32| e < param_seen@.len() implies #[trigger] param_seen@[e as int]
                        == spec_first_param_ty(defs@, e, (k + 1) as nat) by {
                        assert(seen_params[e as int] == spec_first_param_ty(defs@, e, k as nat));
                    }
                },
                ScopeDef::Param { param, decl, name, ty } => {
                    let d = decl as usize;
                    let found = if d < src.param_decls.len() {
                        match param_seen[d] {
                            Some(first_ty) => {
                                let mut scratch: Vec<Diagnostic> = Vec::new();
                                resolve_param_info(src.param_decls[d], first_ty, decl, &mut scratch)
                            },
                            None => {
                                param_seen.set(d, Some(ty));
                                resolve_param_info(src.param_decls[d], ty, decl, &mut diagnostics)
                            },
                        }
                    } else {
                        let none = ParamDeclAttrs {
                            units: StrAttr::Absent,
                            desc: StrAttr::Absent,
                            group: StrAttr::Absent,
                        };
                        resolve_param_info(none, ty, decl, &mut diagnostics)
                    };
                    let info = ParamInfo {
                        name,
                        unit: found.unit,
                        description: found.description,
                        group: found.group,
                        ty: found.ty,
                    };
                    let ghost before = param_seq(params);
                    params_insert(&mut params, param, info);
                    assert(param_seq(params) == spec_with_param(before, param, info));
                    assert(diagnostics@ == next.diagnostics);
                    assert forall|e: u32| e < var_seen@.len() implies #[trigger] var_seen@[e as int]
                        == spec_first_var_ty(defs@, e, (k + 1) as nat) by {
                        assert(seen_vars[e as int] == spec_first_var_ty(defs@, e, k as nat));
                    }
                    assert forall|e: u32| e < param_seen@.len() implies #[trigger] param_seen@[e as int]
                        == spec_first_param_ty(defs@, e, (k + 1) as nat) by {
                        assert(seen_params[e as int] == spec_first_param_ty(defs@, e, k as nat));
                    }
                },
                ScopeDef::Other => {
                    assert forall|e: u32| e < var_seen@.len() implies #[trigger] var_seen@[e as int]
                        == spec_first_var_ty(defs@, e, (k + 1) as nat) by {
                        assert(seen_vars[e as int] == spec_first_var_ty(defs@, e, k as nat));
                    }
                    assert forall|e: u32| e < param_seen@.len() implies #[trigger] param_seen@[e as int]
                        == spec_first_param_ty(defs@, e, (k + 1) as nat) by {
                        assert(seen_params[e as int] == spec_first_param_ty(defs@, e, k as nat));
                    }
                },
            }
            k += 1;
        }
        if diagnostics.len() == 0 {
            assert(diagnostics@ =~= Seq::<Diagnostic>::empty());
            Ok(ModelInfo { params, functions, op_vars, module, var_names })
        } else {
            Err(CollectError::CompilationFailed(diagnostics))
        }
    }
}

/// An error for the user: what is wrong, and the words that mark the
/// place in the source.
#[derive(Debug, PartialEq, Eq)]
pub struct Report {
    pub message: String,
    pub label: String,
}

impl Attr {
    /// The name of the attribute.
    pub open spec fn spec_name(self) -> Seq<char> {
        match self {
            Attr::Retrieve => "retrieve"@,
            Attr::Units => "units"@,
            Attr::Desc => "desc"@,
            Attr::Group => "group"@,
        }
    }

    pub fn name(self) -> (res: &'static str)
        ensures
            res@ == self.spec_name(),
    {
        match self {
            Attr::Retrieve => "retrieve",
            Attr::Units => "units",
            Attr::Desc => "desc",
            Attr::Group => "group",
        }
    }
}

impl Expected {
    /// What was expected, in words.
    pub open spec fn spec_words(self) -> Seq<char> {
        match self {
            Expected::StringLiteral => "a string literal"@,
            Expected::Path => "a path"@,
            Expected::PathOrArray => "a path or an array"@,
        }
    }

    pub fn words(self) -> (res: &'static str)
        ensures
            res@ == self.spec_words(),
    {
        match self {
            Expected::StringLiteral => "a string literal",
            Expected::Path => "a path",
            Expected::PathOrArray => "a path or an array",
        }
    }
}

impl Allowed {
    /// What is allowed, in words.
    pub open spec fn spec_words(self) -> Seq<char> {
        match self {
            Allowed::CalculatedVariables => "calculating real and integer variables"@,
            Allowed::BrokenDependencies => "breaking dependencies on real and integer variables"@,
            Allowed::Parameters => "real, integer and string parameters"@,
        }
    }

    pub fn words(self) -> (res: &'static str)
        ensures
            res@ == self.spec_words(),
    {
        match self {
            Allowed::CalculatedVariables => "calculating real and integer variables",
            Allowed::BrokenDependencies => "breaking dependencies on real and integer variables",
            Allowed::Parameters => "real, integer and string parameters",
        }
    }
}

impl Diagnostic {
    /// The message of the error. An expression of the wrong kind names the
    /// attribute and what was expected; a type that is not allowed names
    /// what is; a path that leads nowhere has the message of the lookup,
    /// which is not made here.
    pub open spec fn spec_message(self) -> Seq<char> {
        match self {
            Diagnostic::IllegalExpr { expected, attr, .. } =>
                "illegal expression supplied to '"@ + attr.spec_name()
                + "' attribute; expected "@ + expected.spec_words(),
            Diagnostic::IllegalType { allowed, .. } => "VerilogAE only supports "@
                + allowed.spec_words(),
            Diagnostic::Unresolved { .. } => Seq::empty(),
        }
    }

    /// The words that mark the place of the error.
    pub open spec fn spec_label(self) -> Seq<char> {
        match self {
            Diagnostic::IllegalExpr { .. } => "illegal expression"@,
            Diagnostic::IllegalType { .. } => "unsupported type"@,
            Diagnostic::Unresolved { .. } => Seq::empty(),
        }
    }

    /// The error in words, for the user.
    pub fn build_report(&self) -> (res: Report)
        ensures
            res.message@ == self.spec_message(),
            res.label@ == self.spec_label(),
    {
        let mut message = String::new();
        let mut label = String::new();
        match *self {
            Diagnostic::IllegalExpr { expected, attr, .. } => {
                push_str(&mut message, "illegal expression supplied to '");
                push_str(&mut message, attr.name());
                push_str(&mut message, "' attribute; expected ");
                push_str(&mut message, expected.words());
                push_str(&mut label, "illegal expression");
                assert(message@ =~= self.spec_message());
            },
            Diagnostic::IllegalType { allowed, .. } => {
                push_str(&mut message, "VerilogAE only supports ");
                push_str(&mut message, allowed.words());
                push_str(&mut label, "unsupported type");
                assert(message@ =~= self.spec_message());
            },
            Diagnostic::Unresolved { .. } => {},
        }
        assert(label@ =~= self.spec_label());
        Report { message, label }
    }
}

/// How strictly a lint is taken.
#[derive(Clone, Copy, Debug, PartialEq, Eq, Structural)]
pub enum LintLevel {
    Allow,
    Warn,
    Deny,
}

/// The position of the lint with the name `name` among the first `n`
/// known lints.
pub open spec fn spec_lint_from_name(registry: Seq<String>, name: Seq<char>, n: nat) -> Option<
    int,
>
    decreases n,
{
    if n == 0 {
        None
    } else {
        match spec_lint_from_name(registry, name, (n - 1) as nat) {
            Some(lint) => Some(lint),
            None => if registry[n - 1]@ == name {
                Some(n - 1)
            } else {
                None
            },
        }
    }
}

proof fn lemma_lint_found(registry: Seq<String>, name: Seq<char>, n: nat, m: nat)
    requires
        n <= m,
        spec_lint_from_name(registry, name, n) is Some,
    ensures
        spec_lint_from_name(registry, name, m) == spec_lint_from_name(registry, name, n),
    decreases m - n,
{
    if n < m {
        lemma_lint_found(registry, name, n, (m - 1) as nat);
    }
}

/// The lint with the name `name`, by its position among the known lints.
pub fn lint_from_name(registry: &Vec<String>, name: &String) -> (res: Option<usize>)
    ensures
        match res {
            Some(lint) => lint < registry@.len() && spec_lint_from_name(
                registry@,
                name@,
                registry@.len(),
            ) == Some(lint as int),
            None => spec_lint_from_name(registry@, name@, registry@.len()) is None,
        },
{
    let mut i: usize = 0;
    while i < registry.len()
        invariant
            i <= registry@.len(),
            spec_lint_from_name(registry@, name@, i as nat) is None,
        decreases registry@.len() - i,
    {
        if registry[i] == *name {
            proof {
                lemma_lint_found(registry@, name@, (i + 1) as nat, registry@.len());
            }
            return Some(i);
        }
        i += 1;
    }
    None
}

/// The levels that are set for the known lints, and the names that are no
/// lints.
pub struct Overwrites {
    pub levels: Seq<Option<LintLevel>>,
    pub unknown: Seq<Seq<char>>,
}

/// What setting the first `n` of `names` to `level` adds: a known lint
/// gets the level, whatever it had, and any other name is noted.
pub open spec fn spec_set_lints(
    acc: Overwrites,
    registry: Seq<String>,
    names: Seq<String>,
    level: LintLevel,
    n: nat,
) -> Overwrites
    decreases n,
{
    if n == 0 {
        acc
    } else {
        let before = spec_set_lints(acc, registry, names, level, (n - 1) as nat);
        match spec_lint_from_name(registry, names[n - 1]@, registry.len()) {
            Some(lint) => Overwrites { levels: before.levels.update(lint, Some(level)), ..before },
            None => Overwrites { unknown: before.unknown.push(names[n - 1]@), ..before },
        }
    }
}

/// The levels of the lints after those in `allow` were allowed, then
/// those in `warn` set to warn, then those in `deny` denied: where a lint
/// is named more than once, the last counts.
pub open spec fn spec_lint_overwrites(
    registry: Seq<String>,
    allow: Seq<String>,
    warn: Seq<String>,
    deny: Seq<String>,
) -> Overwrites {
    let start = Overwrites {
        levels: Seq::new(registry.len(), |i: int| None::<LintLevel>),
        unknown: Seq::empty(),
    };
    let allowed = spec_set_lints(start, registry, allow, LintLevel::Allow, allow.len());
    let warned = spec_set_lints(allowed, registry, warn, LintLevel::Warn, warn.len());
    spec_set_lints(warned, registry, deny, LintLevel::Deny, deny.len())
}

/// The names as texts.
pub open spec fn spec_texts(names: Seq<String>) -> Seq<Seq<char>> {
    Seq::new(names.len(), |i: int| names[i]@)
}

fn set_lints(
    registry: &Vec<String>,
    names: &Vec<String>,
    level: LintLevel,
    levels: &mut Vec<Option<LintLevel>>,
    unknown: &mut Vec<String>,
)
    requires
        old(levels)@.len() == registry@.len(),
    ensures
        final(levels)@.len() == registry@.len(),
        (Overwrites { levels: final(levels)@, unknown: spec_texts(final(unknown)@) })
            == spec_set_lints(
            Overwrites { levels: old(levels)@, unknown: spec_texts(old(unknown)@) },
            registry@,
            names@,
            level,
            names@.len(),
        ),
{
    let ghost start = Overwrites { levels: levels@, unknown: spec_texts(unknown@) };
    let mut i: usize = 0;
    while i < names.len()
        invariant
            i <= names@.len(),
            levels@.len() == registry@.len(),
            (Overwrites { levels: levels@, unknown: spec_texts(unknown@) }) == spec_set_lints(
                start,
                registry@,
                names@,
                level,
                i as nat,
            ),
        decreases names@.len() - i,
    {
        let ghost before = spec_texts(unknown@);
        match lint_from_name(registry, &names[i]) {
            Some(lint) => {
                levels.set(lint, Some(level));
            },
            None => {
                unknown.push(names[i].clone());
                assert(spec_texts(unknown@) =~= before.push(names@[i as int]@));
            },
        }
        i += 1;
    }
}

/// See [`spec_lint_overwrites`]: the level of each known lint, and the
/// names that are no lints, in the order in which they were met.
pub fn lint_overwrites(
    registry: &Vec<String>,
    allow: &Vec<String>,
    warn: &Vec<String>,
    deny: &Vec<String>,
) -> (res: (Vec<Option<LintLevel>>, Vec<String>))
    ensures
        (Overwrites { levels: res.0@, unknown: spec_texts(res.1@) }) == spec_lint_overwrites(
            registry@,
            allow@,
            warn@,
            deny@,
        ),
{
    let mut levels: Vec<Option<LintLevel>> = Vec::new();
    let mut i: usize = 0;
    while i < registry.len()
        invariant
            i <= registry@.len(),
            levels@ == Seq::new(i as nat, |k: int| None::<LintLevel>),
        decreases registry@.len() - i,
    {
        levels.push(None);
        i += 1;
        assert(levels@ =~= Seq::new(i as nat, |k: int| None::<LintLevel>));
    }
    let mut unknown: Vec<String> = Vec::new();
    assert(spec_texts(unknown@) =~= Seq::empty());
    set_lints(registry, allow, LintLevel::Allow, &mut levels, &mut unknown);
    set_lints(registry, warn, LintLevel::Warn, &mut levels, &mut unknown);
    set_lints(registry, deny, LintLevel::Deny, &mut levels, &mut unknown);
    (levels, unknown)
}

/// Why a root file cannot be used.
#[derive(Clone, Copy, Debug, PartialEq, Eq, Structural)]
pub enum RootFileError {
    /// A path into the virtual file system does not start with `/`.
    NotAbsolute,
    /// The virtual file system has no file with that path.
    NotPresent,
}

/// The position of the file with the path `path` among the first `n`
/// files of the virtual file system, which is found by its path.
pub open spec fn spec_file_id(paths: Seq<String>, path: Seq<char>, n: nat) -> Option<int> {
    spec_lint_from_name(paths, path, n)
}

/// The root file of a compilation from a virtual file system: its path
/// has to start with `/`, and the file system has to have it.
pub fn virtual_root_file(paths: &Vec<String>, root_file: &String) -> (res: Result<
    usize,
    RootFileError,
>)
    ensures
        res == if root_file@.len() == 0 || root_file@[0] != '/' {
            Err::<usize, RootFileError>(RootFileError::NotAbsolute)
        } else {
            match spec_file_id(paths@, root_file@, paths@.len()) {
                Some(id) => Ok(id as usize),
                None => Err(RootFileError::NotPresent),
            }
        },
{
    let text = root_file.as_str();
    if text.unicode_len() == 0 || text.get_char(0) != '/' {
        return Err(RootFileError::NotAbsolute);
    }
    match lint_from_name(paths, root_file) {
        Some(id) => Ok(id),
        None => Err(RootFileError::NotPresent),
    }
}

} // verus!
