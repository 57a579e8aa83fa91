//! The value-based function body into which the Jacobian entries are
//! emitted: numbered SSA values, and the instructions that define them.

use vstd::prelude::*;
use crate::graph::{Const, REAL_ZERO};

verus! {

/// The value that is the literal real zero in every function.
pub const F_ZERO: u32 = 0;

/// The operators that the assembly of the Jacobian emits.
#[derive(Clone, Copy, Debug, PartialEq, Eq, Structural)]
pub enum Opcode {
    Fadd,
    Fsub,
    Fneg,
    /// Hands its operand on unchanged and keeps optimisations from looking
    /// through it.
    OptBarrier,
}

/// An instruction: its operator and the values it reads.
#[derive(Clone, Copy, Debug, PartialEq, Eq, Structural)]
pub enum InstructionData {
    Unary { opcode: Opcode, arg: u32 },
    Binary { opcode: Opcode, lhs: u32, rhs: u32 },
}

impl InstructionData {
    /// The first value that the instruction reads.
    pub open spec fn spec_first_arg(self) -> u32 {
        match self {
            InstructionData::Unary { arg, .. } => arg,
            InstructionData::Binary { lhs, .. } => lhs,
        }
    }

    #[verifier::when_used_as_spec(spec_first_arg)]
    pub fn first_arg(self) -> (res: u32)
        ensures
            res == self.spec_first_arg(),
    {
        match self {
            InstructionData::Unary { arg, .. } => arg,
            InstructionData::Binary { lhs, .. } => lhs,
        }
    }
}

/// Where a value comes from.
#[derive(Clone, Copy, Debug, PartialEq, Eq, Structural)]
pub enum ValueDef {
    /// A literal.
    Const(Const),
    /// A parameter of the function.
    Param(u32),
    /// The result of the instruction with this number.
    Result(u32),
}

/// A function body. Values and instructions are numbered in the order in
/// which they were made; an instruction may have been taken out of the
/// layout again, and is then no longer executed.
#[derive(Debug)]
pub struct Function {
    pub values: Vec<ValueDef>,
    pub insts: Vec<InstructionData>,
    pub in_layout: Vec<bool>,
}

/// A function body as a mathematical value.
pub struct FunctionView {
    pub values: Seq<ValueDef>,
    pub insts: Seq<InstructionData>,
    pub in_layout: Seq<bool>,
}

impl FunctionView {
    /// The body with one more instruction, whose result is a new value.
    pub open spec fn push_inst(self, data: InstructionData) -> FunctionView {
        FunctionView {
            values: self.values.push(ValueDef::Result(self.insts.len() as u32)),
            insts: self.insts.push(data),
            in_layout: self.in_layout.push(true),
        }
    }

    /// The body with the instruction `inst` taken out of the layout.
    pub open spec fn remove_inst(self, inst: u32) -> FunctionView {
        FunctionView { in_layout: self.in_layout.update(inst as int, false), ..self }
    }

    /// Every value and instruction has a number that fits, the value
    /// [`F_ZERO`] is the literal zero, and each instruction has its place in
    /// the layout.
    pub open spec fn well_formed(self) -> bool {
        &&& 0 < self.values.len() <= u32::MAX
        &&& self.insts.len() <= u32::MAX
        &&& self.in_layout.len() == self.insts.len()
        &&& self.values[F_ZERO as int] == ValueDef::Const(Const::Real(REAL_ZERO))
    }
}

impl View for Function {
    type V = FunctionView;

    open spec fn view(&self) -> FunctionView {
        FunctionView { values: self.values@, insts: self.insts@, in_layout: self.in_layout@ }
    }
}

impl Function {
    /// A body without instructions, whose only value is [`F_ZERO`].
    pub fn new() -> (res: Function)
        ensures
            res@.well_formed(),
            res@.values == seq![ValueDef::Const(Const::Real(REAL_ZERO))],
            res@.insts.len() == 0,
    {
        let mut values: Vec<ValueDef> = Vec::new();
        values.push(ValueDef::Const(Const::Real(REAL_ZERO)));
        let res = Function { values, insts: Vec::new(), in_layout: Vec::new() };
        assert(res@.values =~= seq![ValueDef::Const(Const::Real(REAL_ZERO))]);
        res
    }

    pub fn num_values(&self) -> (n: usize)
        ensures
            n == self@.values.len(),
    {
        self.values.len()
    }

    /// There is room for `n` more values and instructions.
    pub open spec fn spec_has_room(&self, n: int) -> bool {
        self@.values.len() + n <= u32::MAX && self@.insts.len() + n <= u32::MAX
    }

    /// A new value that stands for the parameter `index`.
    pub fn make_param(&mut self, index: u32) -> (value: u32)
        requires
            old(self)@.well_formed(),
            old(self)@.values.len() < u32::MAX,
        ensures
            final(self)@.well_formed(),
            value == old(self)@.values.len(),
            final(self)@ == (FunctionView {
                values: old(self)@.values.push(ValueDef::Param(index)),
                ..old(self)@
            }),
    {
        let value = self.values.len() as u32;
        self.values.push(ValueDef::Param(index));
        value
    }

    /// Appends an instruction; its result is a new value.
    pub fn push_inst(&mut self, data: InstructionData) -> (value: u32)
        requires
            old(self)@.well_formed(),
            old(self).spec_has_room(1),
        ensures
            final(self)@.well_formed(),
            value == old(self)@.values.len(),
            final(self)@ == old(self)@.push_inst(data),
    {
        let value = self.values.len() as u32;
        let inst = self.insts.len() as u32;
        self.values.push(ValueDef::Result(inst));
        self.insts.push(data);
        self.in_layout.push(true);
        value
    }

    /// Appends `lhs + rhs`.
    pub fn fadd(&mut self, lhs: u32, rhs: u32) -> (value: u32)
        requires
            old(self)@.well_formed(),
            old(self).spec_has_room(1),
        ensures
            final(self)@.well_formed(),
            value == old(self)@.values.len(),
            final(self)@ == old(self)@.push_inst(
                InstructionData::Binary { opcode: Opcode::Fadd, lhs, rhs },
            ),
    {
        self.push_inst(InstructionData::Binary { opcode: Opcode::Fadd, lhs, rhs })
    }

    /// Appends `lhs - rhs`.
    pub fn fsub(&mut self, lhs: u32, rhs: u32) -> (value: u32)
        requires
            old(self)@.well_formed(),
            old(self).spec_has_room(1),
        ensures
            final(self)@.well_formed(),
            value == old(self)@.values.len(),
            final(self)@ == old(self)@.push_inst(
                InstructionData::Binary { opcode: Opcode::Fsub, lhs, rhs },
            ),
    {
        self.push_inst(InstructionData::Binary { opcode: Opcode::Fsub, lhs, rhs })
    }

    /// Appends `-arg`.
    pub fn fneg(&mut self, arg: u32) -> (value: u32)
        requires
            old(self)@.well_formed(),
            old(self).spec_has_room(1),
        ensures
            final(self)@.well_formed(),
            value == old(self)@.values.len(),
            final(self)@ == old(self)@.push_inst(
                InstructionData::Unary { opcode: Opcode::Fneg, arg },
            ),
    {
        self.push_inst(InstructionData::Unary { opcode: Opcode::Fneg, arg })
    }

    /// Appends a barrier around `arg`.
    pub fn optbarrier(&mut self, arg: u32) -> (value: u32)
        requires
            old(self)@.well_formed(),
            old(self).spec_has_room(1),
        ensures
            final(self)@.well_formed(),
            value == old(self)@.values.len(),
            final(self)@ == old(self)@.push_inst(
                InstructionData::Unary { opcode: Opcode::OptBarrier, arg },
            ),
    {
        self.push_inst(InstructionData::Unary { opcode: Opcode::OptBarrier, arg })
    }

    /// Where `value` comes from, or `None` for a number that is no value of
    /// the function.
    pub fn value_def(&self, value: u32) -> (res: Option<ValueDef>)
        ensures
            res == if (value as int) < self@.values.len() {
                Some(self@.values[value as int])
            } else {
                None
            },
    {
        if (value as usize) < self.values.len() {
            Some(self.values[value as usize])
        } else {
            None
        }
    }

    /// The instruction `inst`, or `None` for a number that is no
    /// instruction of the function.
    pub fn inst_data(&self, inst: u32) -> (res: Option<InstructionData>)
        ensures
            res == if (inst as int) < self@.insts.len() {
                Some(self@.insts[inst as int])
            } else {
                None
            },
    {
        if (inst as usize) < self.insts.len() {
            Some(self.insts[inst as usize])
        } else {
            None
        }
    }

    /// Takes the instruction `inst` out of the layout.
    pub fn remove_inst(&mut self, inst: u32)
        requires
            old(self)@.well_formed(),
            (inst as int) < old(self)@.insts.len(),
        ensures
            final(self)@.well_formed(),
            final(self)@ == old(self)@.remove_inst(inst),
    {
        self.in_layout.set(inst as usize, false);
    }
}

} // verus!
