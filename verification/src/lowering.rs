//! Lowering of the declarations of a project to their typed form: the
//! default value of each variable is given the type of the variable, and
//! each parameter the values of its default and its ranges. The typed
//! expressions themselves, and the values of the parameters, are made
//! elsewhere and handed in.

use vstd::prelude::*;

verus! {

/// The declared type of a variable or of a numerical parameter.
#[derive(Clone, Copy, Debug, PartialEq, Eq, Structural)]
pub enum VariableType {
    TIME,
    INTEGER,
    REAL,
    REALTIME,
}

/// A declared variable.
#[derive(Clone, Copy, Debug, PartialEq, Eq, Structural)]
pub struct HirVariable {
    pub name: u32,
    pub variable_type: VariableType,
    /// The number of the expression that is the default value.
    pub default_value: Option<u32>,
}

/// The declared type of a parameter.
#[derive(Clone, Copy, Debug, PartialEq, Eq, Structural)]
pub enum HirParameterType {
    String,
    Numerical(VariableType),
}

/// A declared parameter.
#[derive(Clone, Copy, Debug, PartialEq, Eq, Structural)]
pub struct HirParameter {
    pub name: u32,
    pub parameter_type: HirParameterType,
}

/// The declarations that are lowered.
#[derive(Debug)]
pub struct Declarations {
    pub variables: Vec<HirVariable>,
    pub parameters: Vec<HirParameter>,
    /// For each expression, where it stands in the source.
    pub sources: Vec<u32>,
}

/// A typed expression, by its number among the expressions of its type.
#[derive(Clone, Copy, Debug, PartialEq, Eq, Structural)]
pub enum ExpressionId {
    Real(u32),
    Integer(u32),
    String(u32),
}

/// An integer expression that lowering makes itself: a real expression
/// cast to an integer.
#[derive(Clone, Copy, Debug, PartialEq, Eq, Structural)]
pub struct RealCast {
    pub source: u32,
    pub real_expr: u32,
}

/// The type of a lowered variable with its default value.
#[derive(Clone, Copy, Debug, PartialEq, Eq, Structural)]
pub enum MirVariableType {
    Real(Option<u32>),
    Integer(Option<u32>),
}

/// A lowered variable.
#[derive(Clone, Copy, Debug, PartialEq, Eq, Structural)]
pub struct MirVariable {
    pub name: u32,
    pub variable_type: MirVariableType,
}

/// An end of a range, and whether it belongs to the range. A real bound is
/// held by its bit pattern.
#[derive(Clone, Copy, Debug, PartialEq, Eq, Structural)]
pub struct RangeBound {
    pub inclusive: bool,
    pub bound: u64,
}

/// A range of values of a parameter.
#[derive(Clone, Copy, Debug, PartialEq, Eq, Structural)]
pub struct ValueRange {
    pub start: RangeBound,
    pub end: RangeBound,
}

/// The values of a numerical parameter as they were evaluated: the ranges
/// that it may lie in, those that it may not, and its default. Integers
/// are held as they are, reals by their bit patterns.
#[derive(Debug)]
pub struct ParameterValues {
    pub included_ranges: Vec<ValueRange>,
    pub excluded_ranges: Vec<ValueRange>,
    pub default_value: u64,
}

/// The type of a lowered parameter with its values.
#[derive(Debug)]
pub enum MirParameterType {
    Integer { included_ranges: Vec<ValueRange>, excluded_ranges: Vec<ValueRange>, default_value: u64 },
    Real { included_ranges: Vec<ValueRange>, excluded_ranges: Vec<ValueRange>, default_value: u64 },
}

/// A lowered parameter.
#[derive(Debug)]
pub struct MirParameter {
    pub name: u32,
    pub parameter_type: MirParameterType,
}

/// What lowering found wrong.
#[derive(Clone, Copy, Debug, PartialEq, Eq, Structural)]
pub enum ErrorType {
    /// A string stands where a number is needed.
    ExpectedNumber,
    /// String parameters cannot be lowered.
    StringParameter,
}

/// An error with the place in the source that it is about.
#[derive(Clone, Copy, Debug, PartialEq, Eq, Structural)]
pub struct Error {
    pub error_type: ErrorType,
    pub source: u32,
}

/// The lowered declarations. A variable that could not be lowered has no
/// entry.
#[derive(Debug)]
pub struct Mir {
    pub variables: Vec<Option<MirVariable>>,
    pub parameters: Vec<MirParameter>,
    /// The casts that lowering made; the first has the number
    /// `first_cast` among the integer expressions.
    pub casts: Vec<RealCast>,
    pub first_cast: u32,
}

/// The lowering of one project.
pub struct HirToMirFold<'lt> {
    pub errors: Vec<Error>,
    pub hir: &'lt Declarations,
    /// For each expression, the typed expression that it was folded to, or
    /// `None` where folding it failed.
    pub folded: &'lt Vec<Option<ExpressionId>>,
    pub mir: Mir,
}

/// How the default value of a variable is lowered.
pub enum DefaultValue {
    /// The variable has no default value, or a real variable has one that
    /// is no real expression.
    Absent,
    /// The expression of the right type that is the default value.
    Typed(u32),
    /// A real expression that has to be cast to an integer.
    Cast(u32),
    /// A string where a number is needed.
    NotANumber,
    /// Folding the expression had failed.
    Failed,
}

/// How the default value of a variable of the type `variable_type` is
/// lowered, where `folded` is what folding each expression gave. A real
/// variable takes a real expression. An integer variable takes an integer
/// expression as it is and a real one through a cast; a string is an
/// error.
pub open spec fn spec_default_value(
    variable_type: VariableType,
    default_value: Option<u32>,
    folded: Seq<Option<ExpressionId>>,
) -> DefaultValue {
    match default_value {
        None => DefaultValue::Absent,
        Some(expr) => {
            let typed = if expr < folded.len() {
                folded[expr as int]
            } else {
                None
            };
            match variable_type {
                VariableType::REAL | VariableType::REALTIME => match typed {
                    Some(ExpressionId::Real(id)) => DefaultValue::Typed(id),
                    _ => DefaultValue::Absent,
                },
                VariableType::INTEGER | VariableType::TIME => match typed {
                    Some(ExpressionId::Integer(id)) => DefaultValue::Typed(id),
                    Some(ExpressionId::Real(id)) => DefaultValue::Cast(id),
                    Some(ExpressionId::String(_)) => DefaultValue::NotANumber,
                    None => DefaultValue::Failed,
                },
            }
        },
    }
}

/// Where the expression `expr` stands in the source; 0 for an expression
/// without a known place.
pub open spec fn spec_source(hir: &Declarations, expr: u32) -> u32 {
    if expr < hir.sources@.len() {
        hir.sources@[expr as int]
    } else {
        0
    }
}

/// The lowering as a mathematical value.
pub struct FoldView {
    pub errors: Seq<Error>,
    pub variables: Seq<Option<MirVariable>>,
    pub casts: Seq<RealCast>,
}

/// What lowering the variable with the number `variable` adds. The
/// variable gets its entry with its typed default value. Where a real
/// expression is the default of an integer variable, a cast is made for
/// it. Where a string is, the error is reported and the variable gets no
/// entry, as it gets none where folding its default had failed.
pub open spec fn spec_fold_variable(
    fold: FoldView,
    hir: &Declarations,
    folded: Seq<Option<ExpressionId>>,
    first_cast: u32,
    variable: int,
) -> FoldView {
    let decl = hir.variables@[variable];
    let is_real = decl.variable_type == VariableType::REAL || decl.variable_type
        == VariableType::REALTIME;
    match spec_default_value(decl.variable_type, decl.default_value, folded) {
        DefaultValue::Absent => FoldView {
            variables: fold.variables.update(
                variable,
                Some(
                    MirVariable {
                        name: decl.name,
                        variable_type: if is_real {
                            MirVariableType::Real(None)
                        } else {
                            MirVariableType::Integer(None)
                        },
                    },
                ),
            ),
            ..fold
        },
        DefaultValue::Typed(id) => FoldView {
            variables: fold.variables.update(
                variable,
                Some(
                    MirVariable {
                        name: decl.name,
                        variable_type: if is_real {
                            MirVariableType::Real(Some(id))
                        } else {
                            MirVariableType::Integer(Some(id))
                        },
                    },
                ),
            ),
            ..fold
        },
        DefaultValue::Cast(id) => FoldView {
            variables: fold.variables.update(
                variable,
                Some(
                    MirVariable {
                        name: decl.name,
                        variable_type: MirVariableType::Integer(
                            Some((first_cast + fold.casts.len()) as u32),
                        ),
                    },
                ),
            ),
            casts: fold.casts.push(
                RealCast { source: spec_source(hir, decl.default_value.unwrap()), real_expr: id },
            ),
            ..fold
        },
        DefaultValue::NotANumber => FoldView {
            errors: fold.errors.push(
                Error {
                    error_type: ErrorType::ExpectedNumber,
                    source: spec_source(hir, decl.default_value.unwrap()),
                },
            ),
            ..fold
        },
        DefaultValue::Failed => fold,
    }
}

/// What lowering the first `n` variables adds.
pub open spec fn spec_fold_variables(
    fold: FoldView,
    hir: &Declarations,
    folded: Seq<Option<ExpressionId>>,
    first_cast: u32,
    n: nat,
) -> FoldView
    decreases n,
{
    if n == 0 {
        fold
    } else {
        spec_fold_variable(
            spec_fold_variables(fold, hir, folded, first_cast, (n - 1) as nat),
            hir,
            folded,
            first_cast,
            n - 1,
        )
    }
}

impl<'lt> View for HirToMirFold<'lt> {
    type V = FoldView;

    open spec fn view(&self) -> FoldView {
        FoldView { errors: self.errors@, variables: self.mir.variables@, casts: self.mir.casts@ }
    }
}

impl<'lt> HirToMirFold<'lt> {
    /// Every declared variable has its place among the lowered ones, and
    /// there is room for `room` more casts.
    pub open spec fn well_formed(&self, room: int) -> bool {
        &&& self.mir.variables@.len() == self.hir.variables@.len()
        &&& self.mir.first_cast + self.mir.casts@.len() + room <= u32::MAX
    }

    /// Starts a lowering of `hir`, in which `folded` holds what folding
    /// each expression gave and `first_cast` is the number that the first
    /// cast will have among the integer expressions.
    pub fn new(
        hir: &'lt Declarations,
        folded: &'lt Vec<Option<ExpressionId>>,
        first_cast: u32,
    ) -> (res: Self)
        ensures
            res@ == (FoldView {
                errors: Seq::empty(),
                variables: Seq::new(hir.variables@.len(), |i: int| None::<MirVariable>),
                casts: Seq::empty(),
            }),
            res.hir == hir,
            res.folded == folded,
            res.mir.parameters@.len() == 0,
            res.mir.first_cast == first_cast,
    {
        let mut variables: Vec<Option<MirVariable>> = Vec::new();
        let mut i: usize = 0;
        while i < hir.variables.len()
            invariant
                i <= hir.variables@.len(),
                variables@ == Seq::new(i as nat, |k: int| None::<MirVariable>),
            decreases hir.variables@.len() - i,
        {
            variables.push(None);
            i += 1;
            assert(variables@ =~= Seq::new(i as nat, |k: int| None::<MirVariable>));
        }
        HirToMirFold {
            errors: Vec::new(),
            hir,
            folded,
            mir: Mir { variables, parameters: Vec::new(), casts: Vec::new(), first_cast },
        }
    }

    fn source(&self, expr: u32) -> (res: u32)
        ensures
            res == spec_source(self.hir, expr),
    {
        if (expr as usize) < self.hir.sources.len() {
            self.hir.sources[expr as usize]
        } else {
            0
        }
    }

    /// Lowers a variable by giving its default value the type of the
    /// variable, as [`spec_fold_variable`] says.
    pub fn fold_variable(&mut self, variable: u32)
        requires
            old(self).well_formed(1),
            variable < old(self).hir.variables@.len(),
        ensures
            final(self).well_formed(0),
            final(self).hir == old(self).hir,
            final(self).folded == old(self).folded,
            final(self).mir.first_cast == old(self).mir.first_cast,
            final(self).mir.parameters@ == old(self).mir.parameters@,
            final(self).mir.casts@.len() <= old(self).mir.casts@.len() + 1,
            final(self)@ == spec_fold_variable(
                old(self)@,
                old(self).hir,
                old(self).folded@,
                old(self).mir.first_cast,
                variable as int,
            ),
    {
        let decl = self.hir.variables[variable as usize];
        let variable_type = match decl.variable_type {
            VariableType::REAL | VariableType::REALTIME => {
                let default_value = match decl.default_value {
                    Some(expr) => {
                        if (expr as usize) < self.folded.len() {
                            match self.folded[expr as usize] {
                                Some(ExpressionId::Real(id)) => Some(id),
                                _ => None,
                            }
                        } else {
                            None
                        }
                    },
                    None => None,
                };
                MirVariableType::Real(default_value)
            },
            VariableType::INTEGER | VariableType::TIME => {
                let default_value = if let Some(default_value) = decl.default_value {
                    let typed = if (default_value as usize) < self.folded.len() {
                        self.folded[default_value as usize]
                    } else {
                        None
                    };
                    match typed {
                        Some(ExpressionId::Integer(expr)) => Some(expr),
                        Some(ExpressionId::Real(real_expr)) => {
                            let id = self.mir.first_cast + self.mir.casts.len() as u32;
                            let source = self.source(default_value);
                            self.mir.casts.push(RealCast { source, real_expr });
                            Some(id)
                        },
                        Some(ExpressionId::String(_)) => {
                            let source = self.source(default_value);
                            self.errors.push(Error { error_type: ErrorType::ExpectedNumber, source });
                            return ;
                        },
                        None => {
                            return ;
                        },
                    }
                } else {
                    None
                };
                MirVariableType::Integer(default_value)
            },
        };
        self.mir.variables.set(
            variable as usize,
            Some(MirVariable { name: decl.name, variable_type }),
        );
    }
}

/// The values of a parameter as a mathematical value.
pub struct ParameterValuesView {
    pub included_ranges: Seq<ValueRange>,
    pub excluded_ranges: Seq<ValueRange>,
    pub default_value: u64,
}

impl View for ParameterValues {
    type V = ParameterValuesView;

    open spec fn view(&self) -> ParameterValuesView {
        ParameterValuesView {
            included_ranges: self.included_ranges@,
            excluded_ranges: self.excluded_ranges@,
            default_value: self.default_value,
        }
    }
}

/// A lowered parameter as a mathematical value.
pub struct MirParameterView {
    pub name: u32,
    pub is_real: bool,
    pub values: ParameterValuesView,
}

impl View for MirParameter {
    type V = MirParameterView;

    open spec fn view(&self) -> MirParameterView {
        match self.parameter_type {
            MirParameterType::Integer { included_ranges, excluded_ranges, default_value } =>
                MirParameterView {
                name: self.name,
                is_real: false,
                values: ParameterValuesView {
                    included_ranges: included_ranges@,
                    excluded_ranges: excluded_ranges@,
                    default_value,
                },
            },
            MirParameterType::Real { included_ranges, excluded_ranges, default_value } =>
                MirParameterView {
                name: self.name,
                is_real: true,
                values: ParameterValuesView {
                    included_ranges: included_ranges@,
                    excluded_ranges: excluded_ranges@,
                    default_value,
                },
            },
        }
    }
}

/// The lowered form of the parameter `decl`, where `evaluated` holds its
/// values if they could be evaluated. A parameter whose values could not
/// be evaluated, and a string parameter, is lowered to a numerical
/// parameter without ranges and with the default 0, so that every
/// parameter has its entry; a string parameter is lowered to an integer
/// one.
pub open spec fn spec_parameter(decl: HirParameter, evaluated: Option<ParameterValuesView>)
    -> MirParameterView {
    let is_real = decl.parameter_type == HirParameterType::Numerical(VariableType::REAL)
        || decl.parameter_type == HirParameterType::Numerical(VariableType::REALTIME);
    MirParameterView {
        name: decl.name,
        is_real,
        values: match evaluated {
            Some(values) if !(decl.parameter_type is String) => values,
            _ => ParameterValuesView {
                included_ranges: Seq::empty(),
                excluded_ranges: Seq::empty(),
                default_value: 0,
            },
        },
    }
}

/// The errors after the first `n` parameters were lowered: one more for
/// each string parameter, which cannot be lowered.
pub open spec fn spec_parameter_errors(errors: Seq<Error>, hir: &Declarations, n: nat) -> Seq<
    Error,
>
    decreases n,
{
    if n == 0 {
        errors
    } else {
        let before = spec_parameter_errors(errors, hir, (n - 1) as nat);
        if hir.parameters@[n - 1].parameter_type is String {
            before.push(Error { error_type: ErrorType::StringParameter, source: 0 })
        } else {
            before
        }
    }
}

impl<'lt> HirToMirFold<'lt> {
    /// Lowers the parameter with the number `parameter`, which is the next
    /// one to lower, as [`spec_parameter`] says, from its values as they
    /// were evaluated.
    pub fn fold_parameter(&mut self, parameter: u32, evaluated: Option<ParameterValues>)
        requires
            parameter < old(self).hir.parameters@.len(),
            parameter == old(self).mir.parameters@.len(),
        ensures
            final(self).hir == old(self).hir,
            final(self).folded == old(self).folded,
            final(self).mir.first_cast == old(self).mir.first_cast,
            final(self).mir.variables@ == old(self).mir.variables@,
            final(self).mir.casts@ == old(self).mir.casts@,
            final(self).mir.parameters@.len() == old(self).mir.parameters@.len() + 1,
            forall|i: int|
                0 <= i < old(self).mir.parameters@.len() ==> final(self).mir.parameters@[i]
                    == old(self).mir.parameters@[i],
            final(self).mir.parameters@[parameter as int]@ == spec_parameter(
                old(self).hir.parameters@[parameter as int],
                match evaluated {
                    Some(values) => Some(values@),
                    None => None,
                },
            ),
            final(self).errors@ == if old(self).hir.parameters@[parameter as int].parameter_type
                is String {
                old(self).errors@.push(Error { error_type: ErrorType::StringParameter, source: 0 })
            } else {
                old(self).errors@
            },
    {
        let decl = self.hir.parameters[parameter as usize];
        let parameter_type = match decl.parameter_type {
            HirParameterType::String => {
                self.errors.push(Error { error_type: ErrorType::StringParameter, source: 0 });
                MirParameterType::Integer {
                    included_ranges: Vec::new(),
                    excluded_ranges: Vec::new(),
                    default_value: 0,
                }
            },
            HirParameterType::Numerical(parameter_type) => match parameter_type {
                VariableType::INTEGER | VariableType::TIME => {
                    if let Some(type_info) = evaluated {
                        MirParameterType::Integer {
                            included_ranges: type_info.included_ranges,
                            excluded_ranges: type_info.excluded_ranges,
                            default_value: type_info.default_value,
                        }
                    } else {
                        MirParameterType::Integer {
                            included_ranges: Vec::new(),
                            excluded_ranges: Vec::new(),
                            default_value: 0,
                        }
                    }
                },
                VariableType::REAL | VariableType::REALTIME => {
                    if let Some(type_info) = evaluated {
                        MirParameterType::Real {
                            included_ranges: type_info.included_ranges,
                            excluded_ranges: type_info.excluded_ranges,
                            default_value: type_info.default_value,
                        }
                    } else {
                        MirParameterType::Real {
                            included_ranges: Vec::new(),
                            excluded_ranges: Vec::new(),
                            default_value: 0,
                        }
                    }
                },
            },
        };
        self.mir.parameters.push(MirParameter { name: decl.name, parameter_type });
    }

    /// Lowers every parameter and then every variable. The lowered
    /// declarations are returned if no error was found, and the errors
    /// otherwise: those that the lowering started with, then those of the
    /// parameters, then those of the variables.
    pub fn fold(self, evaluated: Vec<Option<ParameterValues>>) -> (res: Result<Mir, Vec<Error>>)
        requires
            self.well_formed(self.hir.variables@.len() as int),
            self.mir.parameters@.len() == 0,
            evaluated@.len() == self.hir.parameters@.len(),
            self.hir.parameters@.len() <= u32::MAX,
            self.hir.variables@.len() <= u32::MAX,
        ensures
            ({
                let start = FoldView {
                    errors: spec_parameter_errors(
                        self.errors@,
                        self.hir,
                        self.hir.parameters@.len(),
                    ),
                    ..self@
                };
                let end = spec_fold_variables(
                    start,
                    self.hir,
                    self.folded@,
                    self.mir.first_cast,
                    self.hir.variables@.len(),
                );
                match res {
                    Ok(mir) => {
                        &&& end.errors.len() == 0
                        &&& mir.variables@ == end.variables
                        &&& mir.casts@ == end.casts
                        &&& mir.first_cast == self.mir.first_cast
                        &&& mir.parameters@.len() == self.hir.parameters@.len()
                        &&& forall|p: int|
                            0 <= p < mir.parameters@.len() ==> (#[trigger] mir.parameters@[p])@
                                == spec_parameter(
                                self.hir.parameters@[p],
                                match evaluated@[p] {
                                    Some(values) => Some(values@),
                                    None => None,
                                },
                            )
                    },
                    Err(errors) => errors@.len() > 0 && errors@ == end.errors,
                }
            }),
    {
        let mut evaluated = evaluated;
        let ghost given = evaluated@;
        let ghost begin = self;
        let mut fold = self;
        let n_par = fold.hir.parameters.len();
        let mut p: usize = 0;
        while p < n_par
            invariant
                p <= n_par,
                n_par == fold.hir.parameters@.len(),
                n_par <= u32::MAX,
                fold.hir == begin.hir,
                fold.folded == begin.folded,
                fold.mir.first_cast == begin.mir.first_cast,
                fold.mir.variables@ == begin.mir.variables@,
                fold.mir.casts@ == begin.mir.casts@,
                fold.mir.parameters@.len() == p,
                evaluated@.len() == n_par,
                given.len() == n_par,
                forall|q: int| p <= q < n_par ==> evaluated@[q] == given[q],
                fold.errors@ == spec_parameter_errors(begin.errors@, begin.hir, p as nat),
                forall|q: int|
                    0 <= q < p ==> (#[trigger] fold.mir.parameters@[q])@ == spec_parameter(
                        begin.hir.parameters@[q],
                        match given[q] {
                            Some(values) => Some(values@),
                            None => None,
                        },
                    ),
            decreases n_par - p,
        {
            let values = evaluated[p].take();
            fold.fold_parameter(p as u32, values);
            p += 1;
        }
        let ghost start = fold@;
        let n_var = fold.hir.variables.len();
        let mut v: usize = 0;
        while v < n_var
            invariant
                v <= n_var,
                n_var == fold.hir.variables@.len(),
                n_var <= u32::MAX,
                fold.hir == begin.hir,
                fold.folded == begin.folded,
                fold.mir.first_cast == begin.mir.first_cast,
                fold.mir.parameters@.len() == begin.hir.parameters@.len(),
                forall|q: int|
                    0 <= q < fold.mir.parameters@.len() ==> (#[trigger] fold.mir.parameters@[q])@
                        == spec_parameter(
                        begin.hir.parameters@[q],
                        match given[q] {
                            Some(values) => Some(values@),
                            None => None,
                        },
                    ),
                fold.well_formed(n_var - v),
                fold@ == spec_fold_variables(
                    start,
                    begin.hir,
                    begin.folded@,
                    begin.mir.first_cast,
                    v as nat,
                ),
            decreases n_var - v,
        {
            fold.fold_variable(v as u32);
            v += 1;
        }
        if fold.errors.len() == 0 {
            Ok(fold.mir)
        } else {
            Err(fold.errors)
        }
    }
}

impl Declarations {
    /// Lowers the declarations, with nothing reported so far.
    pub fn lower(
        &self,
        folded: &Vec<Option<ExpressionId>>,
        evaluated: Vec<Option<ParameterValues>>,
        first_cast: u32,
    ) -> (res: Result<Mir, Vec<Error>>)
        requires
            evaluated@.len() == self.parameters@.len(),
            self.parameters@.len() <= u32::MAX,
            first_cast + self.variables@.len() <= u32::MAX,
        ensures
            ({
                let start = FoldView {
                    errors: spec_parameter_errors(Seq::empty(), self, self.parameters@.len()),
                    variables: Seq::new(self.variables@.len(), |i: int| None::<MirVariable>),
                    casts: Seq::empty(),
                };
                let end = spec_fold_variables(
                    start,
                    self,
                    folded@,
                    first_cast,
                    self.variables@.len(),
                );
                match res {
                    Ok(mir) => {
                        &&& end.errors.len() == 0
                        &&& mir.variables@ == end.variables
                        &&& mir.casts@ == end.casts
                        &&& mir.first_cast == first_cast
                        &&& mir.parameters@.len() == self.parameters@.len()
                        &&& forall|p: int|
                            0 <= p < mir.parameters@.len() ==> (#[trigger] mir.parameters@[p])@
                                == spec_parameter(
                                self.parameters@[p],
                                match evaluated@[p] {
                                    Some(values) => Some(values@),
                                    None => None,
                                },
                            )
                    },
                    Err(errors) => errors@.len() > 0 && errors@ == end.errors,
                }
            }),
    {
        HirToMirFold::new(self, folded, first_cast).fold(evaluated)
    }
}

} // verus!
