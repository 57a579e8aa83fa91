//! The descriptor of a compiled model, and its layout as constants of the
//! code generator.

use vstd::prelude::*;

verus! {

pub const OSDI_VERSION_MAJOR_CURR: u32 = 0;

pub const OSDI_VERSION_MINOR_CURR: u32 = 3;

pub const PARA_TY_MASK: u32 = 3;

pub const PARA_TY_REAL: u32 = 0;

pub const PARA_TY_INT: u32 = 1;

pub const PARA_TY_STR: u32 = 2;

pub const PARA_KIND_MASK: u32 = 0xC000_0000;

pub const PARA_KIND_MODEL: u32 = 0;

pub const PARA_KIND_INST: u32 = 0x4000_0000;

pub const PARA_KIND_OPVAR: u32 = 0x8000_0000;

pub const ACCESS_FLAG_READ: u32 = 0;

pub const ACCESS_FLAG_SET: u32 = 1;

pub const ACCESS_FLAG_INSTANCE: u32 = 4;

pub const JACOBIAN_ENTRY_RESIST_CONST: u32 = 1;

pub const JACOBIAN_ENTRY_REACT_CONST: u32 = 2;

pub const JACOBIAN_ENTRY_RESIST: u32 = 4;

pub const JACOBIAN_ENTRY_REACT: u32 = 8;

pub const CALC_RESIST_RESIDUAL: u32 = 1;

pub const CALC_REACT_RESIDUAL: u32 = 2;

pub const CALC_RESIST_JACOBIAN: u32 = 4;

pub const CALC_REACT_JACOBIAN: u32 = 8;

pub const CALC_NOISE: u32 = 16;

pub const CALC_OP: u32 = 32;

pub const CALC_RESIST_LIM_RHS: u32 = 64;

pub const CALC_REACT_LIM_RHS: u32 = 128;

pub const ENABLE_LIM: u32 = 256;

pub const INIT_LIM: u32 = 512;

pub const ANALYSIS_NOISE: u32 = 1024;

pub const ANALYSIS_DC: u32 = 2048;

pub const ANALYSIS_AC: u32 = 4096;

pub const ANALYSIS_TRAN: u32 = 8192;

pub const ANALYSIS_IC: u32 = 16384;

pub const ANALYSIS_STATIC: u32 = 32768;

pub const ANALYSIS_NODESET: u32 = 65536;

pub const EVAL_RET_FLAG_LIM: u32 = 1;

pub const EVAL_RET_FLAG_FATAL: u32 = 2;

pub const EVAL_RET_FLAG_FINISH: u32 = 4;

pub const EVAL_RET_FLAG_STOP: u32 = 8;

pub const LOG_LVL_MASK: u32 = 7;

pub const LOG_LVL_DEBUG: u32 = 0;

pub const LOG_LVL_DISPLAY: u32 = 1;

pub const LOG_LVL_INFO: u32 = 2;

pub const LOG_LVL_WARN: u32 = 3;

pub const LOG_LVL_ERR: u32 = 4;

pub const LOG_LVL_FATAL: u32 = 5;

pub const LOG_FMT_ERR: u32 = 16;

pub const INIT_ERR_OUT_OF_BOUNDS: u32 = 1;

/// The targets for which the standard library of the models is built.
#[derive(Clone, Copy, Debug, PartialEq, Eq, Structural)]
pub enum StdlibTarget {
    X8664UnknownLinuxGnu,
    X8664PcWindowsMsvc,
    X8664AppleMacosx10150,
    Aarch64UnknownLinuxGnu,
    Aarch64PcWindowsMsvc,
    Arm64AppleMacosx1100,
}

/// The target whose standard library goes with the target triple
/// `llvm_target`, or `None` for a triple that no standard library is built
/// for.
pub open spec fn spec_stdlib_bitcode(llvm_target: Seq<char>) -> Option<StdlibTarget> {
    if llvm_target == "x86_64-unknown-linux-gnu"@ {
        Some(StdlibTarget::X8664UnknownLinuxGnu)
    } else if llvm_target == "x86_64-pc-windows-msvc"@ {
        Some(StdlibTarget::X8664PcWindowsMsvc)
    } else if llvm_target == "x86_64-apple-macosx10.15.0"@ {
        Some(StdlibTarget::X8664AppleMacosx10150)
    } else if llvm_target == "aarch64-unknown-linux-gnu"@ {
        Some(StdlibTarget::Aarch64UnknownLinuxGnu)
    } else if llvm_target == "aarch64-pc-windows-msvc"@ {
        Some(StdlibTarget::Aarch64PcWindowsMsvc)
    } else if llvm_target == "arm64-apple-macosx11.0.0"@ {
        Some(StdlibTarget::Arm64AppleMacosx1100)
    } else {
        None
    }
}

fn same_text(a: &String, b: &str) -> (res: bool)
    ensures
        res == (a@ == b@),
{
    let b = b.to_owned();
    *a == b
}

/// See [`spec_stdlib_bitcode`].
pub fn stdlib_bitcode(llvm_target: &str) -> (res: Option<StdlibTarget>)
    ensures
        res == spec_stdlib_bitcode(llvm_target@),
{
    let target = llvm_target.to_owned();
    if same_text(&target, "x86_64-unknown-linux-gnu") {
        Some(StdlibTarget::X8664UnknownLinuxGnu)
    } else if same_text(&target, "x86_64-pc-windows-msvc") {
        Some(StdlibTarget::X8664PcWindowsMsvc)
    } else if same_text(&target, "x86_64-apple-macosx10.15.0") {
        Some(StdlibTarget::X8664AppleMacosx10150)
    } else if same_text(&target, "aarch64-unknown-linux-gnu") {
        Some(StdlibTarget::Aarch64UnknownLinuxGnu)
    } else if same_text(&target, "aarch64-pc-windows-msvc") {
        Some(StdlibTarget::Aarch64PcWindowsMsvc)
    } else if same_text(&target, "arm64-apple-macosx11.0.0") {
        Some(StdlibTarget::Arm64AppleMacosx1100)
    } else {
        None
    }
}

/// A type of the code generator. A type that is made of others names them
/// by their numbers.
#[derive(Debug, PartialEq, Eq)]
pub enum TypeKind {
    Ptr,
    Int,
    Double,
    CBool,
    /// An integer of this many bits.
    AInt(u32),
    /// An array of this many elements of the type with this number.
    Array(usize, u32),
    Struct(String, Vec<usize>),
}

/// A type of the code generator as a mathematical value.
pub enum TypeKindView {
    Ptr,
    Int,
    Double,
    CBool,
    AInt(u32),
    Array(usize, u32),
    Struct(Seq<char>, Seq<usize>),
}

impl View for TypeKind {
    type V = TypeKindView;

    open spec fn view(&self) -> TypeKindView {
        match self {
            TypeKind::Ptr => TypeKindView::Ptr,
            TypeKind::Int => TypeKindView::Int,
            TypeKind::Double => TypeKindView::Double,
            TypeKind::CBool => TypeKindView::CBool,
            TypeKind::AInt(bits) => TypeKindView::AInt(*bits),
            TypeKind::Array(elem, len) => TypeKindView::Array(*elem, *len),
            TypeKind::Struct(name, fields) => TypeKindView::Struct(name@, fields@),
        }
    }
}

/// A constant of the code generator. A constant that is made of others
/// names them by their numbers.
#[derive(Debug, PartialEq, Eq)]
pub enum ConstKind {
    Str(String),
    UInt(u32),
    Bool(bool),
    /// A function, by the number of its symbol.
    Symbol(u32),
    Struct(usize, Vec<usize>),
    /// A pointer to an array with elements of the type with this number.
    ArrPtr(usize, Vec<usize>),
}

/// A constant of the code generator as a mathematical value.
pub enum ConstKindView {
    Str(Seq<char>),
    UInt(u32),
    Bool(bool),
    Symbol(u32),
    Struct(usize, Seq<usize>),
    ArrPtr(usize, Seq<usize>),
}

impl View for ConstKind {
    type V = ConstKindView;

    open spec fn view(&self) -> ConstKindView {
        match self {
            ConstKind::Str(s) => ConstKindView::Str(s@),
            ConstKind::UInt(v) => ConstKindView::UInt(*v),
            ConstKind::Bool(v) => ConstKindView::Bool(*v),
            ConstKind::Symbol(v) => ConstKindView::Symbol(*v),
            ConstKind::Struct(ty, fields) => ConstKindView::Struct(*ty, fields@),
            ConstKind::ArrPtr(ty, elems) => ConstKindView::ArrPtr(*ty, elems@),
        }
    }
}

/// A constant as a tree.
pub enum LlConst {
    Str(Seq<char>),
    UInt(u32),
    Bool(bool),
    /// The constant with this number, whatever it is.
    Value(usize),
    Struct(usize, Seq<LlConst>),
    ArrPtr(usize, Seq<LlConst>),
}

/// The constant with the number `id` among `values` is the tree `c`.
pub open spec fn spec_represents(values: Seq<ConstKindView>, id: usize, c: LlConst) -> bool
    decreases c,
{
    match c {
        LlConst::Value(v) => id == v,
        LlConst::Str(s) => id < values.len() && values[id as int] == ConstKindView::Str(s),
        LlConst::UInt(v) => id < values.len() && values[id as int] == ConstKindView::UInt(v),
        LlConst::Bool(v) => id < values.len() && values[id as int] == ConstKindView::Bool(v),
        LlConst::Struct(ty, fields) => id < values.len() && match values[id as int] {
            ConstKindView::Struct(t, ids) => t == ty && ids.len() == fields.len() && forall|i: int|
                0 <= i < fields.len() ==> spec_represents(values, #[trigger] ids[i], fields[i]),
            _ => false,
        },
        LlConst::ArrPtr(ty, elems) => id < values.len() && match values[id as int] {
            ConstKindView::ArrPtr(t, ids) => t == ty && ids.len() == elems.len() && forall|i: int|
                0 <= i < elems.len() ==> spec_represents(values, #[trigger] ids[i], elems[i]),
            _ => false,
        },
    }
}

/// `after` holds every constant of `before` under its number.
pub open spec fn spec_extends(before: Seq<ConstKindView>, after: Seq<ConstKindView>) -> bool {
    &&& before.len() <= after.len()
    &&& forall|i: int| 0 <= i < before.len() ==> after[i] == before[i]
}

/// A constant stays the tree that it is when more constants are made.
pub proof fn lemma_represents_extends(
    before: Seq<ConstKindView>,
    after: Seq<ConstKindView>,
    id: usize,
    c: LlConst,
)
    requires
        spec_extends(before, after),
        spec_represents(before, id, c),
    ensures
        spec_represents(after, id, c),
    decreases c,
{
    match c {
        LlConst::Struct(ty, fields) => {
            let ids = match before[id as int] {
                ConstKindView::Struct(_, ids) => ids,
                _ => Seq::empty(),
            };
            assert forall|i: int| 0 <= i < fields.len() implies spec_represents(
                after,
                #[trigger] ids[i],
                fields[i],
            ) by {
                lemma_represents_extends(before, after, ids[i], fields[i]);
            }
        },
        LlConst::ArrPtr(ty, elems) => {
            let ids = match before[id as int] {
                ConstKindView::ArrPtr(_, ids) => ids,
                _ => Seq::empty(),
            };
            assert forall|i: int| 0 <= i < elems.len() implies spec_represents(
                after,
                #[trigger] ids[i],
                elems[i],
            ) by {
                lemma_represents_extends(before, after, ids[i], elems[i]);
            }
        },
        _ => {},
    }
}

/// The types and constants that the code generator has made, each found
/// by its number.
#[derive(Debug)]
pub struct CodegenCx {
    pub types: Vec<TypeKind>,
    pub values: Vec<ConstKind>,
}

/// The number of the pointer type.
pub const TY_PTR: usize = 0;

/// The number of the type of integers.
pub const TY_INT: usize = 1;

/// The number of the type of reals.
pub const TY_DOUBLE: usize = 2;

/// The number of the type of booleans.
pub const TY_C_BOOL: usize = 3;

impl CodegenCx {
    /// The types as mathematical values.
    pub open spec fn spec_types(&self) -> Seq<TypeKindView> {
        Seq::new(self.types@.len(), |i: int| self.types@[i]@)
    }

    /// The constants as mathematical values.
    pub open spec fn spec_values(&self) -> Seq<ConstKindView> {
        Seq::new(self.values@.len(), |i: int| self.values@[i]@)
    }

    /// A code generator with the four basic types and no constants.
    pub fn new() -> (res: CodegenCx)
        ensures
            res.spec_types() == seq![
                TypeKindView::Ptr,
                TypeKindView::Int,
                TypeKindView::Double,
                TypeKindView::CBool,
            ],
            res.spec_values().len() == 0,
    {
        let mut types: Vec<TypeKind> = Vec::new();
        types.push(TypeKind::Ptr);
        types.push(TypeKind::Int);
        types.push(TypeKind::Double);
        types.push(TypeKind::CBool);
        let res = CodegenCx { types, values: Vec::new() };
        assert(res.spec_types() =~= seq![
            TypeKindView::Ptr,
            TypeKindView::Int,
            TypeKindView::Double,
            TypeKindView::CBool,
        ]);
        res
    }

    /// Makes the type `kind` and returns its number.
    pub fn ty(&mut self, kind: TypeKind) -> (id: usize)
        ensures
            id == old(self).spec_types().len(),
            final(self).spec_types() == old(self).spec_types().push(kind@),
            final(self).values == old(self).values,
    {
        let id = self.types.len();
        self.types.push(kind);
        assert(self.spec_types() =~= old(self).spec_types().push(kind@));
        id
    }

    /// Makes the constant `kind` and returns its number.
    pub fn constant(&mut self, kind: ConstKind) -> (id: usize)
        ensures
            id == old(self).spec_values().len(),
            final(self).spec_values() == old(self).spec_values().push(kind@),
            spec_extends(old(self).spec_values(), final(self).spec_values()),
            final(self).types == old(self).types,
    {
        let id = self.values.len();
        self.values.push(kind);
        assert(self.spec_values() =~= old(self).spec_values().push(kind@));
        id
    }

    /// Makes the text `text` a constant.
    pub fn const_str_uninterned(&mut self, text: &str) -> (id: usize)
        ensures
            spec_extends(old(self).spec_values(), final(self).spec_values()),
            spec_represents(final(self).spec_values(), id, LlConst::Str(text@)),
            final(self).types == old(self).types,
    {
        self.constant(ConstKind::Str(text.to_owned()))
    }

    /// Makes the number `value` a constant.
    pub fn const_unsigned_int(&mut self, value: u32) -> (id: usize)
        ensures
            spec_extends(old(self).spec_values(), final(self).spec_values()),
            spec_represents(final(self).spec_values(), id, LlConst::UInt(value)),
            final(self).types == old(self).types,
    {
        self.constant(ConstKind::UInt(value))
    }

    /// Makes the boolean `value` a constant.
    pub fn const_c_bool(&mut self, value: bool) -> (id: usize)
        ensures
            spec_extends(old(self).spec_values(), final(self).spec_values()),
            spec_represents(final(self).spec_values(), id, LlConst::Bool(value)),
            final(self).types == old(self).types,
    {
        self.constant(ConstKind::Bool(value))
    }

    /// Makes a constant of the struct type `ty` from the constants
    /// `fields`.
    pub fn const_struct(&mut self, ty: usize, fields: Vec<usize>) -> (id: usize)
        ensures
            id == old(self).spec_values().len(),
            final(self).spec_values() == old(self).spec_values().push(
                ConstKindView::Struct(ty, fields@),
            ),
            final(self).types == old(self).types,
    {
        self.constant(ConstKind::Struct(ty, fields))
    }

    /// Makes a constant that points to an array of the constants `elems`,
    /// which are of the type `ty`.
    pub fn const_arr_ptr(&mut self, ty: usize, elems: Vec<usize>) -> (id: usize)
        ensures
            id == old(self).spec_values().len(),
            final(self).spec_values() == old(self).spec_values().push(
                ConstKindView::ArrPtr(ty, elems@),
            ),
            final(self).types == old(self).types,
    {
        self.constant(ConstKind::ArrPtr(ty, elems))
    }

    /// [`Self::const_struct`], where each field is known to be a tree.
    fn struct_of(&mut self, ty: usize, fields: Vec<usize>, Ghost(trees): Ghost<Seq<LlConst>>) -> (id:
        usize)
        requires
            trees.len() == fields@.len(),
            forall|i: int|
                0 <= i < trees.len() ==> spec_represents(
                    old(self).spec_values(),
                    #[trigger] fields@[i],
                    trees[i],
                ),
        ensures
            spec_extends(old(self).spec_values(), final(self).spec_values()),
            spec_represents(final(self).spec_values(), id, LlConst::Struct(ty, trees)),
            final(self).types == old(self).types,
    {
        let ghost ids = fields@;
        let id = self.constant(ConstKind::Struct(ty, fields));
        proof {
            assert forall|i: int| 0 <= i < trees.len() implies spec_represents(
                self.spec_values(),
                #[trigger] ids[i],
                trees[i],
            ) by {
                lemma_represents_extends(
                    old(self).spec_values(),
                    self.spec_values(),
                    ids[i],
                    trees[i],
                );
            }
        }
        id
    }

    /// [`Self::const_arr_ptr`], where each element is known to be a tree.
    fn arr_ptr_of(&mut self, ty: usize, elems: Vec<usize>, Ghost(trees): Ghost<Seq<LlConst>>) -> (id:
        usize)
        requires
            trees.len() == elems@.len(),
            forall|i: int|
                0 <= i < trees.len() ==> spec_represents(
                    old(self).spec_values(),
                    #[trigger] elems@[i],
                    trees[i],
                ),
        ensures
            spec_extends(old(self).spec_values(), final(self).spec_values()),
            spec_represents(final(self).spec_values(), id, LlConst::ArrPtr(ty, trees)),
            final(self).types == old(self).types,
    {
        let ghost ids = elems@;
        let id = self.constant(ConstKind::ArrPtr(ty, elems));
        proof {
            assert forall|i: int| 0 <= i < trees.len() implies spec_represents(
                self.spec_values(),
                #[trigger] ids[i],
                trees[i],
            ) by {
                lemma_represents_extends(
                    old(self).spec_values(),
                    self.spec_values(),
                    ids[i],
                    trees[i],
                );
            }
        }
        id
    }
}

/// The struct types of the descriptor, by their numbers.
#[derive(Clone, Copy, Debug, PartialEq, Eq, Structural)]
pub struct OsdiTys {
    pub osdi_lim_function: usize,
    pub osdi_sim_paras: usize,
    pub osdi_sim_info: usize,
    pub osdi_init_error_payload: usize,
    pub osdi_init_error: usize,
    pub osdi_init_info: usize,
    pub osdi_node_pair: usize,
    pub osdi_jacobian_entry: usize,
    pub osdi_node: usize,
    pub osdi_param_opvar: usize,
    pub osdi_noise_source: usize,
    pub osdi_descriptor: usize,
}

/// A part of the descriptor: it has a layout as a tree of constants, and
/// can be made a constant of the code generator with that layout.
pub trait ToLlVal {
    /// The layout.
    spec fn tree(&self, tys: &OsdiTys) -> LlConst;

    /// Makes the constant.
    fn to_ll_val(&self, ctx: &mut CodegenCx, tys: &OsdiTys) -> (id: usize)
        ensures
            spec_extends(old(ctx).spec_values(), final(ctx).spec_values()),
            spec_represents(final(ctx).spec_values(), id, self.tree(tys)),
            final(ctx).types == old(ctx).types,
    ;
}

/// The layouts of `items`, in their order.
pub open spec fn spec_trees<T: ToLlVal>(items: Seq<T>, tys: &OsdiTys) -> Seq<LlConst> {
    Seq::new(items.len(), |i: int| items[i].tree(tys))
}

/// Makes a constant of each of `items` and returns their numbers.
fn emit_all<T: ToLlVal>(items: &Vec<T>, ctx: &mut CodegenCx, tys: &OsdiTys) -> (ids: Vec<usize>)
    ensures
        spec_extends(old(ctx).spec_values(), final(ctx).spec_values()),
        final(ctx).types == old(ctx).types,
        ids@.len() == items@.len(),
        forall|i: int|
            0 <= i < ids@.len() ==> spec_represents(
                final(ctx).spec_values(),
                #[trigger] ids@[i],
                spec_trees(items@, tys)[i],
            ),
{
    let mut ids: Vec<usize> = Vec::new();
    let mut k: usize = 0;
    while k < items.len()
        invariant
            k <= items@.len(),
            ids@.len() == k,
            spec_extends(old(ctx).spec_values(), ctx.spec_values()),
            ctx.types == old(ctx).types,
            forall|i: int|
                0 <= i < k ==> spec_represents(
                    ctx.spec_values(),
                    #[trigger] ids@[i],
                    items@[i].tree(tys),
                ),
        decreases items@.len() - k,
    {
        let ghost before = ctx.spec_values();
        let ghost done = ids@;
        let id = items[k].to_ll_val(ctx, tys);
        ids.push(id);
        proof {
            assert forall|i: int| 0 <= i < k + 1 implies spec_represents(
                ctx.spec_values(),
                #[trigger] ids@[i],
                items@[i].tree(tys),
            ) by {
                if i < k {
                    assert(ids@[i] == done[i]);
                    lemma_represents_extends(before, ctx.spec_values(), done[i], items@[i].tree(tys));
                }
            }
        }
        k += 1;
    }
    ids
}

/// The constants with the numbers `ids` are the trees `trees`, one for
/// one.
pub open spec fn spec_fields_are(values: Seq<ConstKindView>, ids: Seq<usize>, trees: Seq<LlConst>)
    -> bool {
    &&& ids.len() == trees.len()
    &&& forall|i: int| 0 <= i < ids.len() ==> spec_represents(values, #[trigger] ids[i], trees[i])
}

proof fn lemma_fields_extend(
    before: Seq<ConstKindView>,
    after: Seq<ConstKindView>,
    ids: Seq<usize>,
    trees: Seq<LlConst>,
    id: usize,
    tree: LlConst,
)
    requires
        spec_extends(before, after),
        spec_fields_are(before, ids, trees),
        spec_represents(after, id, tree),
    ensures
        spec_fields_are(after, ids.push(id), trees.push(tree)),
{
    assert forall|i: int| 0 <= i < ids.len() + 1 implies spec_represents(
        after,
        #[trigger] ids.push(id)[i],
        trees.push(tree)[i],
    ) by {
        if i < ids.len() {
            lemma_represents_extends(before, after, ids[i], trees[i]);
        }
    }
}

impl CodegenCx {
    fn add_uint(&mut self, fields: &mut Vec<usize>, Ghost(trees): Ghost<Seq<LlConst>>, value: u32)
        requires
            spec_fields_are(old(self).spec_values(), old(fields)@, trees),
        ensures
            spec_extends(old(self).spec_values(), final(self).spec_values()),
            spec_fields_are(
                final(self).spec_values(),
                final(fields)@,
                trees.push(LlConst::UInt(value)),
            ),
            final(self).types == old(self).types,
    {
        let id = self.const_unsigned_int(value);
        proof {
            lemma_fields_extend(
                old(self).spec_values(),
                self.spec_values(),
                fields@,
                trees,
                id,
                LlConst::UInt(value),
            );
        }
        fields.push(id);
    }

    fn add_str(&mut self, fields: &mut Vec<usize>, Ghost(trees): Ghost<Seq<LlConst>>, text: &str)
        requires
            spec_fields_are(old(self).spec_values(), old(fields)@, trees),
        ensures
            spec_extends(old(self).spec_values(), final(self).spec_values()),
            spec_fields_are(
                final(self).spec_values(),
                final(fields)@,
                trees.push(LlConst::Str(text@)),
            ),
            final(self).types == old(self).types,
    {
        let id = self.const_str_uninterned(text);
        proof {
            lemma_fields_extend(
                old(self).spec_values(),
                self.spec_values(),
                fields@,
                trees,
                id,
                LlConst::Str(text@),
            );
        }
        fields.push(id);
    }

    fn add_bool(&mut self, fields: &mut Vec<usize>, Ghost(trees): Ghost<Seq<LlConst>>, value: bool)
        requires
            spec_fields_are(old(self).spec_values(), old(fields)@, trees),
        ensures
            spec_extends(old(self).spec_values(), final(self).spec_values()),
            spec_fields_are(
                final(self).spec_values(),
                final(fields)@,
                trees.push(LlConst::Bool(value)),
            ),
            final(self).types == old(self).types,
    {
        let id = self.const_c_bool(value);
        proof {
            lemma_fields_extend(
                old(self).spec_values(),
                self.spec_values(),
                fields@,
                trees,
                id,
                LlConst::Bool(value),
            );
        }
        fields.push(id);
    }

    fn add_value(&self, fields: &mut Vec<usize>, Ghost(trees): Ghost<Seq<LlConst>>, value: usize)
        requires
            spec_fields_are(self.spec_values(), old(fields)@, trees),
        ensures
            spec_fields_are(self.spec_values(), final(fields)@, trees.push(LlConst::Value(value))),
    {
        proof {
            lemma_fields_extend(
                self.spec_values(),
                self.spec_values(),
                fields@,
                trees,
                value,
                LlConst::Value(value),
            );
        }
        fields.push(value);
    }

    fn add_part<T: ToLlVal>(
        &mut self,
        fields: &mut Vec<usize>,
        Ghost(trees): Ghost<Seq<LlConst>>,
        part: &T,
        tys: &OsdiTys,
    )
        requires
            spec_fields_are(old(self).spec_values(), old(fields)@, trees),
        ensures
            spec_extends(old(self).spec_values(), final(self).spec_values()),
            spec_fields_are(final(self).spec_values(), final(fields)@, trees.push(part.tree(tys))),
            final(self).types == old(self).types,
    {
        let id = part.to_ll_val(self, tys);
        proof {
            lemma_fields_extend(
                old(self).spec_values(),
                self.spec_values(),
                fields@,
                trees,
                id,
                part.tree(tys),
            );
        }
        fields.push(id);
    }

    fn add_array<T: ToLlVal>(
        &mut self,
        fields: &mut Vec<usize>,
        Ghost(trees): Ghost<Seq<LlConst>>,
        elem_ty: usize,
        items: &Vec<T>,
        tys: &OsdiTys,
    )
        requires
            spec_fields_are(old(self).spec_values(), old(fields)@, trees),
        ensures
            spec_extends(old(self).spec_values(), final(self).spec_values()),
            spec_fields_are(
                final(self).spec_values(),
                final(fields)@,
                trees.push(LlConst::ArrPtr(elem_ty, spec_trees(items@, tys))),
            ),
            final(self).types == old(self).types,
    {
        let ids = emit_all(items, self, tys);
        let ghost mid = self.spec_values();
        let id = self.arr_ptr_of(elem_ty, ids, Ghost(spec_trees(items@, tys)));
        proof {
            assert(spec_extends(old(self).spec_values(), self.spec_values()));
            lemma_fields_extend(
                old(self).spec_values(),
                self.spec_values(),
                fields@,
                trees,
                id,
                LlConst::ArrPtr(elem_ty, spec_trees(items@, tys)),
            );
        }
        fields.push(id);
    }
}

/// A text is laid out as a constant that holds it.
impl ToLlVal for String {
    open spec fn tree(&self, tys: &OsdiTys) -> LlConst {
        LlConst::Str(self@)
    }

    fn to_ll_val(&self, ctx: &mut CodegenCx, tys: &OsdiTys) -> (id: usize) {
        ctx.const_str_uninterned(self.as_str())
    }
}

/// Two nodes.
#[derive(Clone, Copy, Debug, PartialEq, Eq, Structural)]
pub struct OsdiNodePair {
    pub node_1: u32,
    pub node_2: u32,
}

impl ToLlVal for OsdiNodePair {
    open spec fn tree(&self, tys: &OsdiTys) -> LlConst {
        LlConst::Struct(
            tys.osdi_node_pair,
            seq![
                LlConst::UInt(self.node_1),
                LlConst::UInt(self.node_2),
            ],
        )
    }

    fn to_ll_val(&self, ctx: &mut CodegenCx, tys: &OsdiTys) -> (id: usize) {
        let mut fields: Vec<usize> = Vec::new();
        let ghost t0 = Seq::<LlConst>::empty();
        ctx.add_uint(&mut fields, Ghost(t0), self.node_1);
        let ghost t1 = t0.push(LlConst::UInt(self.node_1));
        ctx.add_uint(&mut fields, Ghost(t1), self.node_2);
        let ghost t2 = t1.push(LlConst::UInt(self.node_2));
        assert(t2 =~= seq![
            LlConst::UInt(self.node_1),
            LlConst::UInt(self.node_2),
        ]);
        ctx.struct_of(tys.osdi_node_pair, fields, Ghost(t2))
    }
}

/// An entry of the Jacobian: its row and column, where its reactive part is kept, and its flags.
#[derive(Clone, Copy, Debug, PartialEq, Eq, Structural)]
pub struct OsdiJacobianEntry {
    pub nodes: OsdiNodePair,
    pub react_ptr_off: u32,
    pub flags: u32,
}

impl ToLlVal for OsdiJacobianEntry {
    open spec fn tree(&self, tys: &OsdiTys) -> LlConst {
        LlConst::Struct(
            tys.osdi_jacobian_entry,
            seq![
                self.nodes.tree(tys),
                LlConst::UInt(self.react_ptr_off),
                LlConst::UInt(self.flags),
            ],
        )
    }

    fn to_ll_val(&self, ctx: &mut CodegenCx, tys: &OsdiTys) -> (id: usize) {
        let mut fields: Vec<usize> = Vec::new();
        let ghost t0 = Seq::<LlConst>::empty();
        ctx.add_part(&mut fields, Ghost(t0), &self.nodes, tys);
        let ghost t1 = t0.push(self.nodes.tree(tys));
        ctx.add_uint(&mut fields, Ghost(t1), self.react_ptr_off);
        let ghost t2 = t1.push(LlConst::UInt(self.react_ptr_off));
        ctx.add_uint(&mut fields, Ghost(t2), self.flags);
        let ghost t3 = t2.push(LlConst::UInt(self.flags));
        assert(t3 =~= seq![
            self.nodes.tree(tys),
            LlConst::UInt(self.react_ptr_off),
            LlConst::UInt(self.flags),
        ]);
        ctx.struct_of(tys.osdi_jacobian_entry, fields, Ghost(t3))
    }
}

/// A node of the model.
#[derive(Debug)]
pub struct OsdiNode {
    pub name: String,
    pub units: String,
    pub residual_units: String,
    pub resist_residual_off: u32,
    pub react_residual_off: u32,
    pub resist_limit_rhs_off: u32,
    pub react_limit_rhs_off: u32,
    pub is_flow: bool,
}

impl ToLlVal for OsdiNode {
    open spec fn tree(&self, tys: &OsdiTys) -> LlConst {
        LlConst::Struct(
            tys.osdi_node,
            seq![
                LlConst::Str(self.name@),
                LlConst::Str(self.units@),
                LlConst::Str(self.residual_units@),
                LlConst::UInt(self.resist_residual_off),
                LlConst::UInt(self.react_residual_off),
                LlConst::UInt(self.resist_limit_rhs_off),
                LlConst::UInt(self.react_limit_rhs_off),
                LlConst::Bool(self.is_flow),
            ],
        )
    }

    fn to_ll_val(&self, ctx: &mut CodegenCx, tys: &OsdiTys) -> (id: usize) {
        let mut fields: Vec<usize> = Vec::new();
        let ghost t0 = Seq::<LlConst>::empty();
        ctx.add_str(&mut fields, Ghost(t0), self.name.as_str());
        let ghost t1 = t0.push(LlConst::Str(self.name@));
        ctx.add_str(&mut fields, Ghost(t1), self.units.as_str());
        let ghost t2 = t1.push(LlConst::Str(self.units@));
        ctx.add_str(&mut fields, Ghost(t2), self.residual_units.as_str());
        let ghost t3 = t2.push(LlConst::Str(self.residual_units@));
        ctx.add_uint(&mut fields, Ghost(t3), self.resist_residual_off);
        let ghost t4 = t3.push(LlConst::UInt(self.resist_residual_off));
        ctx.add_uint(&mut fields, Ghost(t4), self.react_residual_off);
        let ghost t5 = t4.push(LlConst::UInt(self.react_residual_off));
        ctx.add_uint(&mut fields, Ghost(t5), self.resist_limit_rhs_off);
        let ghost t6 = t5.push(LlConst::UInt(self.resist_limit_rhs_off));
        ctx.add_uint(&mut fields, Ghost(t6), self.react_limit_rhs_off);
        let ghost t7 = t6.push(LlConst::UInt(self.react_limit_rhs_off));
        ctx.add_bool(&mut fields, Ghost(t7), self.is_flow);
        let ghost t8 = t7.push(LlConst::Bool(self.is_flow));
        assert(t8 =~= seq![
            LlConst::Str(self.name@),
            LlConst::Str(self.units@),
            LlConst::Str(self.residual_units@),
            LlConst::UInt(self.resist_residual_off),
            LlConst::UInt(self.react_residual_off),
            LlConst::UInt(self.resist_limit_rhs_off),
            LlConst::UInt(self.react_limit_rhs_off),
            LlConst::Bool(self.is_flow),
        ]);
        ctx.struct_of(tys.osdi_node, fields, Ghost(t8))
    }
}

/// A parameter or an operating-point variable, with its name and its aliases.
#[derive(Debug)]
pub struct OsdiParamOpvar {
    pub name: Vec<String>,
    pub num_alias: u32,
    pub description: String,
    pub units: String,
    pub flags: u32,
    pub len: u32,
}

impl ToLlVal for OsdiParamOpvar {
    open spec fn tree(&self, tys: &OsdiTys) -> LlConst {
        LlConst::Struct(
            tys.osdi_param_opvar,
            seq![
                LlConst::ArrPtr(TY_PTR, spec_trees(self.name@, tys)),
                LlConst::UInt(self.num_alias),
                LlConst::Str(self.description@),
                LlConst::Str(self.units@),
                LlConst::UInt(self.flags),
                LlConst::UInt(self.len),
            ],
        )
    }

    fn to_ll_val(&self, ctx: &mut CodegenCx, tys: &OsdiTys) -> (id: usize) {
        let mut fields: Vec<usize> = Vec::new();
        let ghost t0 = Seq::<LlConst>::empty();
        ctx.add_array(&mut fields, Ghost(t0), TY_PTR, &self.name, tys);
        let ghost t1 = t0.push(LlConst::ArrPtr(TY_PTR, spec_trees(self.name@, tys)));
        ctx.add_uint(&mut fields, Ghost(t1), self.num_alias);
        let ghost t2 = t1.push(LlConst::UInt(self.num_alias));
        ctx.add_str(&mut fields, Ghost(t2), self.description.as_str());
        let ghost t3 = t2.push(LlConst::Str(self.description@));
        ctx.add_str(&mut fields, Ghost(t3), self.units.as_str());
        let ghost t4 = t3.push(LlConst::Str(self.units@));
        ctx.add_uint(&mut fields, Ghost(t4), self.flags);
        let ghost t5 = t4.push(LlConst::UInt(self.flags));
        ctx.add_uint(&mut fields, Ghost(t5), self.len);
        let ghost t6 = t5.push(LlConst::UInt(self.len));
        assert(t6 =~= seq![
            LlConst::ArrPtr(TY_PTR, spec_trees(self.name@, tys)),
            LlConst::UInt(self.num_alias),
            LlConst::Str(self.description@),
            LlConst::Str(self.units@),
            LlConst::UInt(self.flags),
            LlConst::UInt(self.len),
        ]);
        ctx.struct_of(tys.osdi_param_opvar, fields, Ghost(t6))
    }
}

/// A source of noise between two nodes.
#[derive(Debug)]
pub struct OsdiNoiseSource {
    pub name: String,
    pub nodes: OsdiNodePair,
}

impl ToLlVal for OsdiNoiseSource {
    open spec fn tree(&self, tys: &OsdiTys) -> LlConst {
        LlConst::Struct(
            tys.osdi_noise_source,
            seq![
                LlConst::Str(self.name@),
                self.nodes.tree(tys),
            ],
        )
    }

    fn to_ll_val(&self, ctx: &mut CodegenCx, tys: &OsdiTys) -> (id: usize) {
        let mut fields: Vec<usize> = Vec::new();
        let ghost t0 = Seq::<LlConst>::empty();
        ctx.add_str(&mut fields, Ghost(t0), self.name.as_str());
        let ghost t1 = t0.push(LlConst::Str(self.name@));
        ctx.add_part(&mut fields, Ghost(t1), &self.nodes, tys);
        let ghost t2 = t1.push(self.nodes.tree(tys));
        assert(t2 =~= seq![
            LlConst::Str(self.name@),
            self.nodes.tree(tys),
        ]);
        ctx.struct_of(tys.osdi_noise_source, fields, Ghost(t2))
    }
}

/// A limiting function: its name, the number of its arguments, and the function.
#[derive(Debug)]
pub struct OsdiLimFunction {
    pub name: String,
    pub num_args: u32,
    pub func_ptr: usize,
}

impl ToLlVal for OsdiLimFunction {
    open spec fn tree(&self, tys: &OsdiTys) -> LlConst {
        LlConst::Struct(
            tys.osdi_lim_function,
            seq![
                LlConst::Str(self.name@),
                LlConst::UInt(self.num_args),
                LlConst::Value(self.func_ptr),
            ],
        )
    }

    fn to_ll_val(&self, ctx: &mut CodegenCx, tys: &OsdiTys) -> (id: usize) {
        let mut fields: Vec<usize> = Vec::new();
        let ghost t0 = Seq::<LlConst>::empty();
        ctx.add_str(&mut fields, Ghost(t0), self.name.as_str());
        let ghost t1 = t0.push(LlConst::Str(self.name@));
        ctx.add_uint(&mut fields, Ghost(t1), self.num_args);
        let ghost t2 = t1.push(LlConst::UInt(self.num_args));
        ctx.add_value(&mut fields, Ghost(t2), self.func_ptr);
        let ghost t3 = t2.push(LlConst::Value(self.func_ptr));
        assert(t3 =~= seq![
            LlConst::Str(self.name@),
            LlConst::UInt(self.num_args),
            LlConst::Value(self.func_ptr),
        ]);
        ctx.struct_of(tys.osdi_lim_function, fields, Ghost(t3))
    }
}

/// The descriptor of a model. The order of the fields is the order of the layout. The functions of the model are constants of the code generator, named by their numbers.
#[derive(Debug)]
pub struct OsdiDescriptor {
    pub name: String,
    pub num_nodes: u32,
    pub num_terminals: u32,
    pub nodes: Vec<OsdiNode>,
    pub num_jacobian_entries: u32,
    pub jacobian_entries: Vec<OsdiJacobianEntry>,
    pub num_collapsible: u32,
    pub collapsible: Vec<OsdiNodePair>,
    pub collapsed_offset: u32,
    pub noise_sources: Vec<OsdiNoiseSource>,
    pub num_noise_src: u32,
    pub num_params: u32,
    pub num_instance_params: u32,
    pub num_opvars: u32,
    pub param_opvar: Vec<OsdiParamOpvar>,
    pub node_mapping_offset: u32,
    pub jacobian_ptr_resist_offset: u32,
    pub num_states: u32,
    pub state_idx_off: u32,
    pub bound_step_offset: u32,
    pub instance_size: u32,
    pub model_size: u32,
    pub access: usize,
    pub setup_model: usize,
    pub setup_instance: usize,
    pub eval: usize,
    pub load_noise: usize,
    pub load_residual_resist: usize,
    pub load_residual_react: usize,
    pub load_limit_rhs_resist: usize,
    pub load_limit_rhs_react: usize,
    pub load_spice_rhs_dc: usize,
    pub load_spice_rhs_tran: usize,
    pub load_jacobian_resist: usize,
    pub load_jacobian_react: usize,
    pub load_jacobian_tran: usize,
    pub given_flag_model: usize,
    pub given_flag_instance: usize,
    pub num_resistive_jacobian_entries: u32,
    pub num_reactive_jacobian_entries: u32,
    pub write_jacobian_array_resist: usize,
    pub write_jacobian_array_react: usize,
    pub num_inputs: u32,
    pub inputs: Vec<OsdiNodePair>,
    pub load_jacobian_with_offset_resist: usize,
    pub load_jacobian_with_offset_react: usize,
}

impl ToLlVal for OsdiDescriptor {
    open spec fn tree(&self, tys: &OsdiTys) -> LlConst {
        LlConst::Struct(
            tys.osdi_descriptor,
            seq![
                LlConst::Str(self.name@),
                LlConst::UInt(self.num_nodes),
                LlConst::UInt(self.num_terminals),
                LlConst::ArrPtr(tys.osdi_node, spec_trees(self.nodes@, tys)),
                LlConst::UInt(self.num_jacobian_entries),
                LlConst::ArrPtr(tys.osdi_jacobian_entry, spec_trees(self.jacobian_entries@, tys)),
                LlConst::UInt(self.num_collapsible),
                LlConst::ArrPtr(tys.osdi_node_pair, spec_trees(self.collapsible@, tys)),
                LlConst::UInt(self.collapsed_offset),
                LlConst::ArrPtr(tys.osdi_noise_source, spec_trees(self.noise_sources@, tys)),
                LlConst::UInt(self.num_noise_src),
                LlConst::UInt(self.num_params),
                LlConst::UInt(self.num_instance_params),
                LlConst::UInt(self.num_opvars),
                LlConst::ArrPtr(tys.osdi_param_opvar, spec_trees(self.param_opvar@, tys)),
                LlConst::UInt(self.node_mapping_offset),
                LlConst::UInt(self.jacobian_ptr_resist_offset),
                LlConst::UInt(self.num_states),
                LlConst::UInt(self.state_idx_off),
                LlConst::UInt(self.bound_step_offset),
                LlConst::UInt(self.instance_size),
                LlConst::UInt(self.model_size),
                LlConst::Value(self.access),
                LlConst::Value(self.setup_model),
                LlConst::Value(self.setup_instance),
                LlConst::Value(self.eval),
                LlConst::Value(self.load_noise),
                LlConst::Value(self.load_residual_resist),
                LlConst::Value(self.load_residual_react),
                LlConst::Value(self.load_limit_rhs_resist),
                LlConst::Value(self.load_limit_rhs_react),
                LlConst::Value(self.load_spice_rhs_dc),
                LlConst::Value(self.load_spice_rhs_tran),
                LlConst::Value(self.load_jacobian_resist),
                LlConst::Value(self.load_jacobian_react),
                LlConst::Value(self.load_jacobian_tran),
                LlConst::Value(self.given_flag_model),
                LlConst::Value(self.given_flag_instance),
                LlConst::UInt(self.num_resistive_jacobian_entries),
                LlConst::UInt(self.num_reactive_jacobian_entries),
                LlConst::Value(self.write_jacobian_array_resist),
                LlConst::Value(self.write_jacobian_array_react),
                LlConst::UInt(self.num_inputs),
                LlConst::ArrPtr(tys.osdi_node_pair, spec_trees(self.inputs@, tys)),
                LlConst::Value(self.load_jacobian_with_offset_resist),
                LlConst::Value(self.load_jacobian_with_offset_react),
            ],
        )
    }

    fn to_ll_val(&self, ctx: &mut CodegenCx, tys: &OsdiTys) -> (id: usize) {
        let mut fields: Vec<usize> = Vec::new();
        let ghost t0 = Seq::<LlConst>::empty();
        ctx.add_str(&mut fields, Ghost(t0), self.name.as_str());
        let ghost t1 = t0.push(LlConst::Str(self.name@));
        ctx.add_uint(&mut fields, Ghost(t1), self.num_nodes);
        let ghost t2 = t1.push(LlConst::UInt(self.num_nodes));
        ctx.add_uint(&mut fields, Ghost(t2), self.num_terminals);
        let ghost t3 = t2.push(LlConst::UInt(self.num_terminals));
        ctx.add_array(&mut fields, Ghost(t3), tys.osdi_node, &self.nodes, tys);
        let ghost t4 = t3.push(LlConst::ArrPtr(tys.osdi_node, spec_trees(self.nodes@, tys)));
        ctx.add_uint(&mut fields, Ghost(t4), self.num_jacobian_entries);
        let ghost t5 = t4.push(LlConst::UInt(self.num_jacobian_entries));
        ctx.add_array(&mut fields, Ghost(t5), tys.osdi_jacobian_entry, &self.jacobian_entries, tys);
        let ghost t6 = t5.push(LlConst::ArrPtr(tys.osdi_jacobian_entry, spec_trees(self.jacobian_entries@, tys)));
        ctx.add_uint(&mut fields, Ghost(t6), self.num_collapsible);
        let ghost t7 = t6.push(LlConst::UInt(self.num_collapsible));
        ctx.add_array(&mut fields, Ghost(t7), tys.osdi_node_pair, &self.collapsible, tys);
        let ghost t8 = t7.push(LlConst::ArrPtr(tys.osdi_node_pair, spec_trees(self.collapsible@, tys)));
        ctx.add_uint(&mut fields, Ghost(t8), self.collapsed_offset);
        let ghost t9 = t8.push(LlConst::UInt(self.collapsed_offset));
        ctx.add_array(&mut fields, Ghost(t9), tys.osdi_noise_source, &self.noise_sources, tys);
        let ghost t10 = t9.push(LlConst::ArrPtr(tys.osdi_noise_source, spec_trees(self.noise_sources@, tys)));
        ctx.add_uint(&mut fields, Ghost(t10), self.num_noise_src);
        let ghost t11 = t10.push(LlConst::UInt(self.num_noise_src));
        ctx.add_uint(&mut fields, Ghost(t11), self.num_params);
        let ghost t12 = t11.push(LlConst::UInt(self.num_params));
        ctx.add_uint(&mut fields, Ghost(t12), self.num_instance_params);
        let ghost t13 = t12.push(LlConst::UInt(self.num_instance_params));
        ctx.add_uint(&mut fields, Ghost(t13), self.num_opvars);
        let ghost t14 = t13.push(LlConst::UInt(self.num_opvars));
        ctx.add_array(&mut fields, Ghost(t14), tys.osdi_param_opvar, &self.param_opvar, tys);
        let ghost t15 = t14.push(LlConst::ArrPtr(tys.osdi_param_opvar, spec_trees(self.param_opvar@, tys)));
        ctx.add_uint(&mut fields, Ghost(t15), self.node_mapping_offset);
        let ghost t16 = t15.push(LlConst::UInt(self.node_mapping_offset));
        ctx.add_uint(&mut fields, Ghost(t16), self.jacobian_ptr_resist_offset);
        let ghost t17 = t16.push(LlConst::UInt(self.jacobian_ptr_resist_offset));
        ctx.add_uint(&mut fields, Ghost(t17), self.num_states);
        let ghost t18 = t17.push(LlConst::UInt(self.num_states));
        ctx.add_uint(&mut fields, Ghost(t18), self.state_idx_off);
        let ghost t19 = t18.push(LlConst::UInt(self.state_idx_off));
        ctx.add_uint(&mut fields, Ghost(t19), self.bound_step_offset);
        let ghost t20 = t19.push(LlConst::UInt(self.bound_step_offset));
        ctx.add_uint(&mut fields, Ghost(t20), self.instance_size);
        let ghost t21 = t20.push(LlConst::UInt(self.instance_size));
        ctx.add_uint(&mut fields, Ghost(t21), self.model_size);
        let ghost t22 = t21.push(LlConst::UInt(self.model_size));
        ctx.add_value(&mut fields, Ghost(t22), self.access);
        let ghost t23 = t22.push(LlConst::Value(self.access));
        ctx.add_value(&mut fields, Ghost(t23), self.setup_model);
        let ghost t24 = t23.push(LlConst::Value(self.setup_model));
        ctx.add_value(&mut fields, Ghost(t24), self.setup_instance);
        let ghost t25 = t24.push(LlConst::Value(self.setup_instance));
        ctx.add_value(&mut fields, Ghost(t25), self.eval);
        let ghost t26 = t25.push(LlConst::Value(self.eval));
        ctx.add_value(&mut fields, Ghost(t26), self.load_noise);
        let ghost t27 = t26.push(LlConst::Value(self.load_noise));
        ctx.add_value(&mut fields, Ghost(t27), self.load_residual_resist);
        let ghost t28 = t27.push(LlConst::Value(self.load_residual_resist));
        ctx.add_value(&mut fields, Ghost(t28), self.load_residual_react);
        let ghost t29 = t28.push(LlConst::Value(self.load_residual_react));
        ctx.add_value(&mut fields, Ghost(t29), self.load_limit_rhs_resist);
        let ghost t30 = t29.push(LlConst::Value(self.load_limit_rhs_resist));
        ctx.add_value(&mut fields, Ghost(t30), self.load_limit_rhs_react);
        let ghost t31 = t30.push(LlConst::Value(self.load_limit_rhs_react));
        ctx.add_value(&mut fields, Ghost(t31), self.load_spice_rhs_dc);
        let ghost t32 = t31.push(LlConst::Value(self.load_spice_rhs_dc));
        ctx.add_value(&mut fields, Ghost(t32), self.load_spice_rhs_tran);
        let ghost t33 = t32.push(LlConst::Value(self.load_spice_rhs_tran));
        ctx.add_value(&mut fields, Ghost(t33), self.load_jacobian_resist);
        let ghost t34 = t33.push(LlConst::Value(self.load_jacobian_resist));
        ctx.add_value(&mut fields, Ghost(t34), self.load_jacobian_react);
        let ghost t35 = t34.push(LlConst::Value(self.load_jacobian_react));
        ctx.add_value(&mut fields, Ghost(t35), self.load_jacobian_tran);
        let ghost t36 = t35.push(LlConst::Value(self.load_jacobian_tran));
        ctx.add_value(&mut fields, Ghost(t36), self.given_flag_model);
        let ghost t37 = t36.push(LlConst::Value(self.given_flag_model));
        ctx.add_value(&mut fields, Ghost(t37), self.given_flag_instance);
        let ghost t38 = t37.push(LlConst::Value(self.given_flag_instance));
        ctx.add_uint(&mut fields, Ghost(t38), self.num_resistive_jacobian_entries);
        let ghost t39 = t38.push(LlConst::UInt(self.num_resistive_jacobian_entries));
        ctx.add_uint(&mut fields, Ghost(t39), self.num_reactive_jacobian_entries);
        let ghost t40 = t39.push(LlConst::UInt(self.num_reactive_jacobian_entries));
        ctx.add_value(&mut fields, Ghost(t40), self.write_jacobian_array_resist);
        let ghost t41 = t40.push(LlConst::Value(self.write_jacobian_array_resist));
        ctx.add_value(&mut fields, Ghost(t41), self.write_jacobian_array_react);
        let ghost t42 = t41.push(LlConst::Value(self.write_jacobian_array_react));
        ctx.add_uint(&mut fields, Ghost(t42), self.num_inputs);
        let ghost t43 = t42.push(LlConst::UInt(self.num_inputs));
        ctx.add_array(&mut fields, Ghost(t43), tys.osdi_node_pair, &self.inputs, tys);
        let ghost t44 = t43.push(LlConst::ArrPtr(tys.osdi_node_pair, spec_trees(self.inputs@, tys)));
        ctx.add_value(&mut fields, Ghost(t44), self.load_jacobian_with_offset_resist);
        let ghost t45 = t44.push(LlConst::Value(self.load_jacobian_with_offset_resist));
        ctx.add_value(&mut fields, Ghost(t45), self.load_jacobian_with_offset_react);
        let ghost t46 = t45.push(LlConst::Value(self.load_jacobian_with_offset_react));
        assert(t46 =~= seq![
            LlConst::Str(self.name@),
            LlConst::UInt(self.num_nodes),
            LlConst::UInt(self.num_terminals),
            LlConst::ArrPtr(tys.osdi_node, spec_trees(self.nodes@, tys)),
            LlConst::UInt(self.num_jacobian_entries),
            LlConst::ArrPtr(tys.osdi_jacobian_entry, spec_trees(self.jacobian_entries@, tys)),
            LlConst::UInt(self.num_collapsible),
            LlConst::ArrPtr(tys.osdi_node_pair, spec_trees(self.collapsible@, tys)),
            LlConst::UInt(self.collapsed_offset),
            LlConst::ArrPtr(tys.osdi_noise_source, spec_trees(self.noise_sources@, tys)),
            LlConst::UInt(self.num_noise_src),
            LlConst::UInt(self.num_params),
            LlConst::UInt(self.num_instance_params),
            LlConst::UInt(self.num_opvars),
            LlConst::ArrPtr(tys.osdi_param_opvar, spec_trees(self.param_opvar@, tys)),
            LlConst::UInt(self.node_mapping_offset),
            LlConst::UInt(self.jacobian_ptr_resist_offset),
            LlConst::UInt(self.num_states),
            LlConst::UInt(self.state_idx_off),
            LlConst::UInt(self.bound_step_offset),
            LlConst::UInt(self.instance_size),
            LlConst::UInt(self.model_size),
            LlConst::Value(self.access),
            LlConst::Value(self.setup_model),
            LlConst::Value(self.setup_instance),
            LlConst::Value(self.eval),
            LlConst::Value(self.load_noise),
            LlConst::Value(self.load_residual_resist),
            LlConst::Value(self.load_residual_react),
            LlConst::Value(self.load_limit_rhs_resist),
            LlConst::Value(self.load_limit_rhs_react),
            LlConst::Value(self.load_spice_rhs_dc),
            LlConst::Value(self.load_spice_rhs_tran),
            LlConst::Value(self.load_jacobian_resist),
            LlConst::Value(self.load_jacobian_react),
            LlConst::Value(self.load_jacobian_tran),
            LlConst::Value(self.given_flag_model),
            LlConst::Value(self.given_flag_instance),
            LlConst::UInt(self.num_resistive_jacobian_entries),
            LlConst::UInt(self.num_reactive_jacobian_entries),
            LlConst::Value(self.write_jacobian_array_resist),
            LlConst::Value(self.write_jacobian_array_react),
            LlConst::UInt(self.num_inputs),
            LlConst::ArrPtr(tys.osdi_node_pair, spec_trees(self.inputs@, tys)),
            LlConst::Value(self.load_jacobian_with_offset_resist),
            LlConst::Value(self.load_jacobian_with_offset_react),
        ]);
        ctx.struct_of(tys.osdi_descriptor, fields, Ghost(t46))
    }
}

/// The element type and the length of the array that holds the payload of
/// an initialisation error, for a target on which an integer has `int_size`
/// bytes and is aligned to `int_align`: integers of `int_align` bytes, and
/// as many of them as it takes to hold `int_size` bytes.
pub open spec fn spec_payload(int_size: u32, int_align: u32) -> (u32, u32) {
    ((int_align * 8) as u32, ((int_size + int_align - 1) / (int_align as int)) as u32)
}

/// The types of the descriptor, in the order in which they are made, where
/// `base` is the number that the first of them gets.
pub open spec fn spec_osdi_types(base: int, int_size: u32, int_align: u32) -> Seq<TypeKindView> {
    seq![
        TypeKindView::Struct("OsdiLimFunction"@, seq![TY_PTR, TY_INT, TY_PTR]),
        TypeKindView::Struct("OsdiSimParas"@, seq![TY_PTR, TY_PTR, TY_PTR, TY_PTR]),
        TypeKindView::Struct("OsdiSimInfo"@, seq![(base + 1) as usize, TY_DOUBLE, TY_PTR, TY_PTR, TY_PTR, TY_INT]),
        TypeKindView::AInt(spec_payload(int_size, int_align).0),
        TypeKindView::Array((base + 3) as usize, spec_payload(int_size, int_align).1),
        TypeKindView::Struct("OsdiInitError"@, seq![TY_INT, (base + 4) as usize]),
        TypeKindView::Struct("OsdiInitInfo"@, seq![TY_INT, TY_INT, TY_PTR]),
        TypeKindView::Struct("OsdiNodePair"@, seq![TY_INT, TY_INT]),
        TypeKindView::Struct("OsdiJacobianEntry"@, seq![(base + 7) as usize, TY_INT, TY_INT]),
        TypeKindView::Struct("OsdiNode"@, seq![TY_PTR, TY_PTR, TY_PTR, TY_INT, TY_INT, TY_INT, TY_INT, TY_C_BOOL]),
        TypeKindView::Struct("OsdiParamOpvar"@, seq![TY_PTR, TY_INT, TY_PTR, TY_PTR, TY_INT, TY_INT]),
        TypeKindView::Struct("OsdiNoiseSource"@, seq![TY_PTR, (base + 7) as usize]),
        TypeKindView::Struct("OsdiDescriptor"@, seq![TY_PTR, TY_INT, TY_INT, TY_PTR, TY_INT, TY_PTR, TY_INT, TY_PTR, TY_INT, TY_PTR, TY_INT, TY_INT, TY_INT, TY_INT, TY_PTR, TY_INT, TY_INT, TY_INT, TY_INT, TY_INT, TY_INT, TY_INT, TY_PTR, TY_PTR, TY_PTR, TY_PTR, TY_PTR, TY_PTR, TY_PTR, TY_PTR, TY_PTR, TY_PTR, TY_PTR, TY_PTR, TY_PTR, TY_PTR, TY_PTR, TY_PTR, TY_INT, TY_INT, TY_PTR, TY_PTR, TY_INT, TY_PTR]),
    ]
}

/// The numbers of the types of the descriptor, where `base` is the number
/// of the first type that was made for it.
pub open spec fn spec_osdi_tys(base: int) -> OsdiTys {
    OsdiTys {
        osdi_lim_function: (base + 0) as usize,
        osdi_sim_paras: (base + 1) as usize,
        osdi_sim_info: (base + 2) as usize,
        osdi_init_error_payload: (base + 4) as usize,
        osdi_init_error: (base + 5) as usize,
        osdi_init_info: (base + 6) as usize,
        osdi_node_pair: (base + 7) as usize,
        osdi_jacobian_entry: (base + 8) as usize,
        osdi_node: (base + 9) as usize,
        osdi_param_opvar: (base + 10) as usize,
        osdi_noise_source: (base + 11) as usize,
        osdi_descriptor: (base + 12) as usize,
    }
}

struct OsdiTyBuilder {
    osdi_lim_function: Option<usize>,
    osdi_sim_paras: Option<usize>,
    osdi_sim_info: Option<usize>,
    osdi_init_error_payload: Option<usize>,
    osdi_init_error: Option<usize>,
    osdi_init_info: Option<usize>,
    osdi_node_pair: Option<usize>,
    osdi_jacobian_entry: Option<usize>,
    osdi_node: Option<usize>,
    osdi_param_opvar: Option<usize>,
    osdi_noise_source: Option<usize>,
    osdi_descriptor: Option<usize>,
}

fn struct_ty(ctx: &mut CodegenCx, name: &str, fields: Vec<usize>) -> (id: usize)
    ensures
        id == old(ctx).spec_types().len(),
        final(ctx).spec_types() == old(ctx).spec_types().push(
            TypeKindView::Struct(name@, fields@),
        ),
        final(ctx).values == old(ctx).values,
{
    ctx.ty(TypeKind::Struct(name.to_owned(), fields))
}

impl OsdiTyBuilder {
    fn osdi_lim_function(&mut self, ctx: &mut CodegenCx)
        ensures
            final(ctx).spec_types() == old(ctx).spec_types().push(
                TypeKindView::Struct("OsdiLimFunction"@, seq![TY_PTR, TY_INT, TY_PTR]),
            ),
            final(ctx).values == old(ctx).values,
            *final(self) == (OsdiTyBuilder {
                osdi_lim_function: Some(old(ctx).spec_types().len() as usize),
                ..*old(self)
            }),
    {
        let mut fields: Vec<usize> = Vec::new();
        fields.push(TY_PTR);
        fields.push(TY_INT);
        fields.push(TY_PTR);
        assert(fields@ =~= seq![TY_PTR, TY_INT, TY_PTR]);
        let ty = struct_ty(ctx, "OsdiLimFunction", fields);
        self.osdi_lim_function = Some(ty);
    }

    fn osdi_sim_paras(&mut self, ctx: &mut CodegenCx)
        ensures
            final(ctx).spec_types() == old(ctx).spec_types().push(
                TypeKindView::Struct("OsdiSimParas"@, seq![TY_PTR, TY_PTR, TY_PTR, TY_PTR]),
            ),
            final(ctx).values == old(ctx).values,
            *final(self) == (OsdiTyBuilder {
                osdi_sim_paras: Some(old(ctx).spec_types().len() as usize),
                ..*old(self)
            }),
    {
        let mut fields: Vec<usize> = Vec::new();
        fields.push(TY_PTR);
        fields.push(TY_PTR);
        fields.push(TY_PTR);
        fields.push(TY_PTR);
        assert(fields@ =~= seq![TY_PTR, TY_PTR, TY_PTR, TY_PTR]);
        let ty = struct_ty(ctx, "OsdiSimParas", fields);
        self.osdi_sim_paras = Some(ty);
    }

    fn osdi_sim_info(&mut self, ctx: &mut CodegenCx)
        requires
            old(self).osdi_sim_paras is Some,
        ensures
            final(ctx).spec_types() == old(ctx).spec_types().push(
                TypeKindView::Struct("OsdiSimInfo"@, seq![old(self).osdi_sim_paras.unwrap(), TY_DOUBLE, TY_PTR, TY_PTR, TY_PTR, TY_INT]),
            ),
            final(ctx).values == old(ctx).values,
            *final(self) == (OsdiTyBuilder {
                osdi_sim_info: Some(old(ctx).spec_types().len() as usize),
                ..*old(self)
            }),
    {
        let mut fields: Vec<usize> = Vec::new();
        fields.push(self.osdi_sim_paras.unwrap());
        fields.push(TY_DOUBLE);
        fields.push(TY_PTR);
        fields.push(TY_PTR);
        fields.push(TY_PTR);
        fields.push(TY_INT);
        assert(fields@ =~= seq![self.osdi_sim_paras.unwrap(), TY_DOUBLE, TY_PTR, TY_PTR, TY_PTR, TY_INT]);
        let ty = struct_ty(ctx, "OsdiSimInfo", fields);
        self.osdi_sim_info = Some(ty);
    }

    fn osdi_init_error_payload(&mut self, ctx: &mut CodegenCx, int_size: u32, int_align: u32)
        requires
            int_align > 0,
            int_size + int_align <= u32::MAX,
            int_align * 8 <= u32::MAX,
        ensures
            final(ctx).spec_types() == old(ctx).spec_types().push(
                TypeKindView::AInt(spec_payload(int_size, int_align).0),
            ).push(
                TypeKindView::Array(
                    old(ctx).spec_types().len() as usize,
                    spec_payload(int_size, int_align).1,
                ),
            ),
            final(ctx).values == old(ctx).values,
            *final(self) == (OsdiTyBuilder {
                osdi_init_error_payload: Some((old(ctx).spec_types().len() + 1) as usize),
                ..*old(self)
            }),
    {
        let align = int_align;
        let mut size = int_size;
        size = (size + align - 1) / align;
        let elem = ctx.ty(TypeKind::AInt(align * 8));
        let ty = ctx.ty(TypeKind::Array(elem, size));
        self.osdi_init_error_payload = Some(ty);
    }

    fn osdi_init_error(&mut self, ctx: &mut CodegenCx)
        requires
            old(self).osdi_init_error_payload is Some,
        ensures
            final(ctx).spec_types() == old(ctx).spec_types().push(
                TypeKindView::Struct("OsdiInitError"@, seq![TY_INT, old(self).osdi_init_error_payload.unwrap()]),
            ),
            final(ctx).values == old(ctx).values,
            *final(self) == (OsdiTyBuilder {
                osdi_init_error: Some(old(ctx).spec_types().len() as usize),
                ..*old(self)
            }),
    {
        let mut fields: Vec<usize> = Vec::new();
        fields.push(TY_INT);
        fields.push(self.osdi_init_error_payload.unwrap());
        assert(fields@ =~= seq![TY_INT, self.osdi_init_error_payload.unwrap()]);
        let ty = struct_ty(ctx, "OsdiInitError", fields);
        self.osdi_init_error = Some(ty);
    }

    fn osdi_init_info(&mut self, ctx: &mut CodegenCx)
        ensures
            final(ctx).spec_types() == old(ctx).spec_types().push(
                TypeKindView::Struct("OsdiInitInfo"@, seq![TY_INT, TY_INT, TY_PTR]),
            ),
            final(ctx).values == old(ctx).values,
            *final(self) == (OsdiTyBuilder {
                osdi_init_info: Some(old(ctx).spec_types().len() as usize),
                ..*old(self)
            }),
    {
        let mut fields: Vec<usize> = Vec::new();
        fields.push(TY_INT);
        fields.push(TY_INT);
        fields.push(TY_PTR);
        assert(fields@ =~= seq![TY_INT, TY_INT, TY_PTR]);
        let ty = struct_ty(ctx, "OsdiInitInfo", fields);
        self.osdi_init_info = Some(ty);
    }

    fn osdi_node_pair(&mut self, ctx: &mut CodegenCx)
        ensures
            final(ctx).spec_types() == old(ctx).spec_types().push(
                TypeKindView::Struct("OsdiNodePair"@, seq![TY_INT, TY_INT]),
            ),
            final(ctx).values == old(ctx).values,
            *final(self) == (OsdiTyBuilder {
                osdi_node_pair: Some(old(ctx).spec_types().len() as usize),
                ..*old(self)
            }),
    {
        let mut fields: Vec<usize> = Vec::new();
        fields.push(TY_INT);
        fields.push(TY_INT);
        assert(fields@ =~= seq![TY_INT, TY_INT]);
        let ty = struct_ty(ctx, "OsdiNodePair", fields);
        self.osdi_node_pair = Some(ty);
    }

    fn osdi_jacobian_entry(&mut self, ctx: &mut CodegenCx)
        requires
            old(self).osdi_node_pair is Some,
        ensures
            final(ctx).spec_types() == old(ctx).spec_types().push(
                TypeKindView::Struct("OsdiJacobianEntry"@, seq![old(self).osdi_node_pair.unwrap(), TY_INT, TY_INT]),
            ),
            final(ctx).values == old(ctx).values,
            *final(self) == (OsdiTyBuilder {
                osdi_jacobian_entry: Some(old(ctx).spec_types().len() as usize),
                ..*old(self)
            }),
    {
        let mut fields: Vec<usize> = Vec::new();
        fields.push(self.osdi_node_pair.unwrap());
        fields.push(TY_INT);
        fields.push(TY_INT);
        assert(fields@ =~= seq![self.osdi_node_pair.unwrap(), TY_INT, TY_INT]);
        let ty = struct_ty(ctx, "OsdiJacobianEntry", fields);
        self.osdi_jacobian_entry = Some(ty);
    }

    fn osdi_node(&mut self, ctx: &mut CodegenCx)
        ensures
            final(ctx).spec_types() == old(ctx).spec_types().push(
                TypeKindView::Struct("OsdiNode"@, seq![TY_PTR, TY_PTR, TY_PTR, TY_INT, TY_INT, TY_INT, TY_INT, TY_C_BOOL]),
            ),
            final(ctx).values == old(ctx).values,
            *final(self) == (OsdiTyBuilder {
                osdi_node: Some(old(ctx).spec_types().len() as usize),
                ..*old(self)
            }),
    {
        let mut fields: Vec<usize> = Vec::new();
        fields.push(TY_PTR);
        fields.push(TY_PTR);
        fields.push(TY_PTR);
        fields.push(TY_INT);
        fields.push(TY_INT);
        fields.push(TY_INT);
        fields.push(TY_INT);
        fields.push(TY_C_BOOL);
        assert(fields@ =~= seq![TY_PTR, TY_PTR, TY_PTR, TY_INT, TY_INT, TY_INT, TY_INT, TY_C_BOOL]);
        let ty = struct_ty(ctx, "OsdiNode", fields);
        self.osdi_node = Some(ty);
    }

    fn osdi_param_opvar(&mut self, ctx: &mut CodegenCx)
        ensures
            final(ctx).spec_types() == old(ctx).spec_types().push(
                TypeKindView::Struct("OsdiParamOpvar"@, seq![TY_PTR, TY_INT, TY_PTR, TY_PTR, TY_INT, TY_INT]),
            ),
            final(ctx).values == old(ctx).values,
            *final(self) == (OsdiTyBuilder {
                osdi_param_opvar: Some(old(ctx).spec_types().len() as usize),
                ..*old(self)
            }),
    {
        let mut fields: Vec<usize> = Vec::new();
        fields.push(TY_PTR);
        fields.push(TY_INT);
        fields.push(TY_PTR);
        fields.push(TY_PTR);
        fields.push(TY_INT);
        fields.push(TY_INT);
        assert(fields@ =~= seq![TY_PTR, TY_INT, TY_PTR, TY_PTR, TY_INT, TY_INT]);
        let ty = struct_ty(ctx, "OsdiParamOpvar", fields);
        self.osdi_param_opvar = Some(ty);
    }

    fn osdi_noise_source(&mut self, ctx: &mut CodegenCx)
        requires
            old(self).osdi_node_pair is Some,
        ensures
            final(ctx).spec_types() == old(ctx).spec_types().push(
                TypeKindView::Struct("OsdiNoiseSource"@, seq![TY_PTR, old(self).osdi_node_pair.unwrap()]),
            ),
            final(ctx).values == old(ctx).values,
            *final(self) == (OsdiTyBuilder {
                osdi_noise_source: Some(old(ctx).spec_types().len() as usize),
                ..*old(self)
            }),
    {
        let mut fields: Vec<usize> = Vec::new();
        fields.push(TY_PTR);
        fields.push(self.osdi_node_pair.unwrap());
        assert(fields@ =~= seq![TY_PTR, self.osdi_node_pair.unwrap()]);
        let ty = struct_ty(ctx, "OsdiNoiseSource", fields);
        self.osdi_noise_source = Some(ty);
    }

    fn osdi_descriptor(&mut self, ctx: &mut CodegenCx)
        ensures
            final(ctx).spec_types() == old(ctx).spec_types().push(
                TypeKindView::Struct("OsdiDescriptor"@, seq![TY_PTR, TY_INT, TY_INT, TY_PTR, TY_INT, TY_PTR, TY_INT, TY_PTR, TY_INT, TY_PTR, TY_INT, TY_INT, TY_INT, TY_INT, TY_PTR, TY_INT, TY_INT, TY_INT, TY_INT, TY_INT, TY_INT, TY_INT, TY_PTR, TY_PTR, TY_PTR, TY_PTR, TY_PTR, TY_PTR, TY_PTR, TY_PTR, TY_PTR, TY_PTR, TY_PTR, TY_PTR, TY_PTR, TY_PTR, TY_PTR, TY_PTR, TY_INT, TY_INT, TY_PTR, TY_PTR, TY_INT, TY_PTR]),
            ),
            final(ctx).values == old(ctx).values,
            *final(self) == (OsdiTyBuilder {
                osdi_descriptor: Some(old(ctx).spec_types().len() as usize),
                ..*old(self)
            }),
    {
        let mut fields: Vec<usize> = Vec::new();
        fields.push(TY_PTR);
        fields.push(TY_INT);
        fields.push(TY_INT);
        fields.push(TY_PTR);
        fields.push(TY_INT);
        fields.push(TY_PTR);
        fields.push(TY_INT);
        fields.push(TY_PTR);
        fields.push(TY_INT);
        fields.push(TY_PTR);
        fields.push(TY_INT);
        fields.push(TY_INT);
        fields.push(TY_INT);
        fields.push(TY_INT);
        fields.push(TY_PTR);
        fields.push(TY_INT);
        fields.push(TY_INT);
        fields.push(TY_INT);
        fields.push(TY_INT);
        fields.push(TY_INT);
        fields.push(TY_INT);
        fields.push(TY_INT);
        fields.push(TY_PTR);
        fields.push(TY_PTR);
        fields.push(TY_PTR);
        fields.push(TY_PTR);
        fields.push(TY_PTR);
        fields.push(TY_PTR);
        fields.push(TY_PTR);
        fields.push(TY_PTR);
        fields.push(TY_PTR);
        fields.push(TY_PTR);
        fields.push(TY_PTR);
        fields.push(TY_PTR);
        fields.push(TY_PTR);
        fields.push(TY_PTR);
        fields.push(TY_PTR);
        fields.push(TY_PTR);
        fields.push(TY_INT);
        fields.push(TY_INT);
        fields.push(TY_PTR);
        fields.push(TY_PTR);
        fields.push(TY_INT);
        fields.push(TY_PTR);
        assert(fields@ =~= seq![TY_PTR, TY_INT, TY_INT, TY_PTR, TY_INT, TY_PTR, TY_INT, TY_PTR, TY_INT, TY_PTR, TY_INT, TY_INT, TY_INT, TY_INT, TY_PTR, TY_INT, TY_INT, TY_INT, TY_INT, TY_INT, TY_INT, TY_INT, TY_PTR, TY_PTR, TY_PTR, TY_PTR, TY_PTR, TY_PTR, TY_PTR, TY_PTR, TY_PTR, TY_PTR, TY_PTR, TY_PTR, TY_PTR, TY_PTR, TY_PTR, TY_PTR, TY_INT, TY_INT, TY_PTR, TY_PTR, TY_INT, TY_PTR]);
        let ty = struct_ty(ctx, "OsdiDescriptor", fields);
        self.osdi_descriptor = Some(ty);
    }

    fn finish(self) -> (res: OsdiTys)
        requires
            self.osdi_lim_function is Some,
            self.osdi_sim_paras is Some,
            self.osdi_sim_info is Some,
            self.osdi_init_error_payload is Some,
            self.osdi_init_error is Some,
            self.osdi_init_info is Some,
            self.osdi_node_pair is Some,
            self.osdi_jacobian_entry is Some,
            self.osdi_node is Some,
            self.osdi_param_opvar is Some,
            self.osdi_noise_source is Some,
            self.osdi_descriptor is Some,
        ensures
            res == (OsdiTys {
                osdi_lim_function: self.osdi_lim_function.unwrap(),
                osdi_sim_paras: self.osdi_sim_paras.unwrap(),
                osdi_sim_info: self.osdi_sim_info.unwrap(),
                osdi_init_error_payload: self.osdi_init_error_payload.unwrap(),
                osdi_init_error: self.osdi_init_error.unwrap(),
                osdi_init_info: self.osdi_init_info.unwrap(),
                osdi_node_pair: self.osdi_node_pair.unwrap(),
                osdi_jacobian_entry: self.osdi_jacobian_entry.unwrap(),
                osdi_node: self.osdi_node.unwrap(),
                osdi_param_opvar: self.osdi_param_opvar.unwrap(),
                osdi_noise_source: self.osdi_noise_source.unwrap(),
                osdi_descriptor: self.osdi_descriptor.unwrap(),
            }),
    {
        OsdiTys {
            osdi_lim_function: self.osdi_lim_function.unwrap(),
            osdi_sim_paras: self.osdi_sim_paras.unwrap(),
            osdi_sim_info: self.osdi_sim_info.unwrap(),
            osdi_init_error_payload: self.osdi_init_error_payload.unwrap(),
            osdi_init_error: self.osdi_init_error.unwrap(),
            osdi_init_info: self.osdi_init_info.unwrap(),
            osdi_node_pair: self.osdi_node_pair.unwrap(),
            osdi_jacobian_entry: self.osdi_jacobian_entry.unwrap(),
            osdi_node: self.osdi_node.unwrap(),
            osdi_param_opvar: self.osdi_param_opvar.unwrap(),
            osdi_noise_source: self.osdi_noise_source.unwrap(),
            osdi_descriptor: self.osdi_descriptor.unwrap(),
        }
    }
}

impl OsdiTys {
    /// Makes the types of the descriptor, as [`spec_osdi_types`] lists
    /// them, for a target on which an integer has `int_size` bytes and is
    /// aligned to `int_align`.
    pub fn new(ctx: &mut CodegenCx, int_size: u32, int_align: u32) -> (res: OsdiTys)
        requires
            int_align > 0,
            int_size + int_align <= u32::MAX,
            int_align * 8 <= u32::MAX,
            old(ctx).spec_types().len() + 13 <= usize::MAX,
        ensures
            final(ctx).spec_types() == old(ctx).spec_types() + spec_osdi_types(
                old(ctx).spec_types().len() as int,
                int_size,
                int_align,
            ),
            final(ctx).values == old(ctx).values,
            res == spec_osdi_tys(old(ctx).spec_types().len() as int),
    {
        let mut builder = OsdiTyBuilder {
            osdi_lim_function: None,
            osdi_sim_paras: None,
            osdi_sim_info: None,
            osdi_init_error_payload: None,
            osdi_init_error: None,
            osdi_init_info: None,
            osdi_node_pair: None,
            osdi_jacobian_entry: None,
            osdi_node: None,
            osdi_param_opvar: None,
            osdi_noise_source: None,
            osdi_descriptor: None,
        };
        builder.osdi_lim_function(ctx);
        builder.osdi_sim_paras(ctx);
        builder.osdi_sim_info(ctx);
        builder.osdi_init_error_payload(ctx, int_size, int_align);
        builder.osdi_init_error(ctx);
        builder.osdi_init_info(ctx);
        builder.osdi_node_pair(ctx);
        builder.osdi_jacobian_entry(ctx);
        builder.osdi_node(ctx);
        builder.osdi_param_opvar(ctx);
        builder.osdi_noise_source(ctx);
        builder.osdi_descriptor(ctx);
        assert(ctx.spec_types() =~= old(ctx).spec_types() + spec_osdi_types(
            old(ctx).spec_types().len() as int,
            int_size,
            int_align,
        ));
        builder.finish()
    }
}

} // verus!
