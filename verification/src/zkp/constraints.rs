//! Algebraic constraints over named witness cells: symbolic expressions,
//! the constraints a trace gives rise to, and their evaluation.

use super::names::{
    numbered, pc_after_name, pc_after_var, pc_before_name, pc_before_var, reg_after_column,
    reg_after_name, reg_after_var, reg_before_column, reg_before_name, reg_before_var,
};
use super::prover::{ExecutionTrace, MemoryAccess, TraceStep, TraceStepView};
use super::witness::Witness;
use crate::vm::execution::{add_wrapping, mul_wrapping, sub_wrapping, wrap_add, wrap_mul, wrap_sub};
use crate::vm::opcodes::{Instruction, Opcode};
use vstd::arithmetic::power2::pow2;
use vstd::bits::{lemma_u32_pow2_no_overflow, lemma_u32_shl_is_mul};
use vstd::prelude::*;
use vstd::string::StringExecFns;

verus! {

/// The mathematical content of an [`Expression`].
pub enum ExpressionView {
    Constant(u32),
    Variable(Seq<char>),
    Add(Box<ExpressionView>, Box<ExpressionView>),
    Mul(Box<ExpressionView>, Box<ExpressionView>),
    Sub(Box<ExpressionView>, Box<ExpressionView>),
}

impl ExpressionView {
    /// The value of this expression under `witness`, computed modulo
    /// 2^32; none where a variable has no value.
    pub open spec fn eval(self, witness: Map<Seq<char>, u32>) -> Option<u32>
        decreases self,
    {
        match self {
            ExpressionView::Constant(value) => Some(value),
            ExpressionView::Variable(name) => if witness.contains_key(name) {
                Some(witness[name])
            } else {
                None
            },
            ExpressionView::Add(left, right) => match (left.eval(witness), right.eval(witness)) {
                (Some(a), Some(b)) => Some(wrap_add(a, b)),
                _ => None,
            },
            ExpressionView::Mul(left, right) => match (left.eval(witness), right.eval(witness)) {
                (Some(a), Some(b)) => Some(wrap_mul(a, b)),
                _ => None,
            },
            ExpressionView::Sub(left, right) => match (left.eval(witness), right.eval(witness)) {
                (Some(a), Some(b)) => Some(wrap_sub(a, b)),
                _ => None,
            },
        }
    }
}

/// The mathematical content of a [`Constraint`].
pub enum ConstraintView {
    Equality { left: ExpressionView, right: ExpressionView },
    RangeCheck { value: ExpressionView, max_bits: u32 },
    MemoryConsistency { addr: ExpressionView, value_read: ExpressionView, value_written: ExpressionView },
}

impl ConstraintView {
    /// Whether this constraint holds under `witness`.
    ///
    /// An equality holds where both sides have a value and the values are
    /// equal. A range check holds where the value exists and is below
    /// 2^`max_bits`, which every 32-bit value is once `max_bits` reaches
    /// 32. Memory consistency is a reserved kind: it always holds.
    pub open spec fn holds(self, witness: Map<Seq<char>, u32>) -> bool {
        match self {
            ConstraintView::Equality { left, right } => left.eval(witness) is Some && left.eval(
                witness,
            ) == right.eval(witness),
            ConstraintView::RangeCheck { value, max_bits } => match value.eval(witness) {
                Some(v) => max_bits >= 32 || v < pow2(max_bits as nat),
                None => false,
            },
            ConstraintView::MemoryConsistency { .. } => true,
        }
    }
}

/// The mathematical content of a [`ConstraintSystem`].
pub struct ConstraintSystemView {
    pub constraints: Seq<ConstraintView>,
    pub witness_columns: Seq<Seq<char>>,
    pub public_columns: Seq<Seq<char>>,
}

impl ConstraintSystemView {
    /// Whether every constraint holds under `witness`.
    pub open spec fn satisfied_by(self, witness: Map<Seq<char>, u32>) -> bool {
        forall|i: int| 0 <= i < self.constraints.len() ==> (#[trigger] self.constraints[i]).holds(
            witness,
        )
    }
}

/// The expression that names a cell.
pub open spec fn cell(name: Seq<char>) -> ExpressionView {
    ExpressionView::Variable(name)
}

/// The constraint that step `step` moves the program counter on by four.
pub open spec fn sequential_pc_constraint(step: nat) -> ConstraintView {
    ConstraintView::Equality {
        left: cell(pc_after_name(step)),
        right: ExpressionView::Add(
            Box::new(cell(pc_before_name(step))),
            Box::new(ExpressionView::Constant(4)),
        ),
    }
}

/// The constraint that ties the destination of an `Add`, `Sub` or `Mul`
/// after step `step` to its sources before it.
pub open spec fn arithmetic_constraint(inst: Instruction, step: nat) -> ConstraintView
    recommends
        inst.opcode == Opcode::Add || inst.opcode == Opcode::Sub || inst.opcode == Opcode::Mul,
{
    let a = Box::new(cell(reg_before_name(inst.rs1 as nat, step)));
    let b = Box::new(cell(reg_before_name(inst.rs2 as nat, step)));
    ConstraintView::Equality {
        left: cell(reg_after_name(inst.rd as nat, step)),
        right: match inst.opcode {
            Opcode::Sub => ExpressionView::Sub(a, b),
            Opcode::Mul => ExpressionView::Mul(a, b),
            _ => ExpressionView::Add(a, b),
        },
    }
}

/// The constraint for one memory access.
pub open spec fn access_constraint(access: MemoryAccess) -> ConstraintView {
    ConstraintView::MemoryConsistency {
        addr: ExpressionView::Constant(access.addr),
        value_read: ExpressionView::Constant(access.value_before),
        value_written: ExpressionView::Constant(access.value_after),
    }
}

/// The constraint that register 0 holds zero after step `step`.
pub open spec fn zero_register_constraint(step: nat) -> ConstraintView {
    ConstraintView::Equality {
        left: cell(reg_after_name(0, step)),
        right: ExpressionView::Constant(0),
    }
}

/// The constraint that register `reg` fits in 32 bits after step `step`.
pub open spec fn range_constraint(reg: nat, step: nat) -> ConstraintView {
    ConstraintView::RangeCheck { value: cell(reg_after_name(reg, step)), max_bits: 32 }
}

/// The constraint on the program counter of a step: none for a branch or
/// a jump.
pub open spec fn pc_constraints(step: TraceStepView, index: nat) -> Seq<ConstraintView> {
    if step.instruction.opcode == Opcode::Branch || step.instruction.opcode == Opcode::Jump {
        Seq::empty()
    } else {
        seq![sequential_pc_constraint(index)]
    }
}

/// The constraints that depend on the operation of a step.
pub open spec fn operation_constraints(step: TraceStepView, index: nat) -> Seq<ConstraintView> {
    match step.instruction.opcode {
        Opcode::Add => seq![arithmetic_constraint(step.instruction, index)],
        Opcode::Sub => seq![arithmetic_constraint(step.instruction, index)],
        Opcode::Mul => seq![arithmetic_constraint(step.instruction, index)],
        Opcode::Load => step.memory_accesses.map_values(|a: MemoryAccess| access_constraint(a)),
        Opcode::Store => step.memory_accesses.map_values(|a: MemoryAccess| access_constraint(a)),
        _ => Seq::empty(),
    }
}

/// The range checks of a step, one for each register.
pub open spec fn range_constraints(index: nat) -> Seq<ConstraintView> {
    Seq::new(32, |reg: int| range_constraint(reg as nat, index))
}

/// All constraints of the step at position `index`, in order: the
/// program counter, the operation, register 0, the range checks.
pub open spec fn step_constraints(step: TraceStepView, index: nat) -> Seq<ConstraintView> {
    pc_constraints(step, index) + operation_constraints(step, index) + seq![
        zero_register_constraint(index),
    ] + range_constraints(index)
}

/// The constraints of a sequence of steps, step by step.
pub open spec fn trace_constraints(steps: Seq<TraceStepView>) -> Seq<ConstraintView>
    decreases steps.len(),
{
    if steps.len() == 0 {
        Seq::empty()
    } else {
        trace_constraints(steps.drop_last()) + step_constraints(
            steps.last(),
            (steps.len() - 1) as nat,
        )
    }
}

/// The columns of the first `count` registers: for each, the one before
/// a step and the one after.
pub open spec fn register_columns(count: nat) -> Seq<Seq<char>> {
    Seq::new(
        2 * count,
        |j: int|
            if j % 2 == 0 {
                reg_before_column((j / 2) as nat)
            } else {
                reg_after_column((j / 2) as nat)
            },
    )
}

/// The witness columns of every trace.
pub open spec fn standard_witness_columns() -> Seq<Seq<char>> {
    seq!["step"@, "pc_before"@, "pc_after"@] + register_columns(32)
}

/// The public columns of every trace.
pub open spec fn standard_public_columns() -> Seq<Seq<char>> {
    seq!["initial_pc"@, "final_pc"@]
}

/// A symbolic expression over constants and named cells.
#[derive(Debug)]
pub enum Expression {
    Constant(u32),
    Variable(String),
    Add(Box<Expression>, Box<Expression>),
    Mul(Box<Expression>, Box<Expression>),
    Sub(Box<Expression>, Box<Expression>),
}

impl Expression {
    /// The mathematical content of this expression.
    pub open spec fn model(&self) -> ExpressionView
        decreases self,
    {
        match self {
            Expression::Constant(value) => ExpressionView::Constant(*value),
            Expression::Variable(name) => ExpressionView::Variable(name@),
            Expression::Add(left, right) => ExpressionView::Add(
                Box::new(left.model()),
                Box::new(right.model()),
            ),
            Expression::Mul(left, right) => ExpressionView::Mul(
                Box::new(left.model()),
                Box::new(right.model()),
            ),
            Expression::Sub(left, right) => ExpressionView::Sub(
                Box::new(left.model()),
                Box::new(right.model()),
            ),
        }
    }

    /// A copy of this expression.
    pub fn duplicate(&self) -> (copy: Self)
        ensures
            copy@ == self@,
        decreases self,
    {
        match self {
            Expression::Constant(value) => Expression::Constant(*value),
            Expression::Variable(name) => Expression::Variable(name.clone()),
            Expression::Add(left, right) => Expression::Add(
                Box::new(left.duplicate()),
                Box::new(right.duplicate()),
            ),
            Expression::Mul(left, right) => Expression::Mul(
                Box::new(left.duplicate()),
                Box::new(right.duplicate()),
            ),
            Expression::Sub(left, right) => Expression::Sub(
                Box::new(left.duplicate()),
                Box::new(right.duplicate()),
            ),
        }
    }
}

impl View for Expression {
    type V = ExpressionView;

    open spec fn view(&self) -> ExpressionView {
        self.model()
    }
}

impl Clone for Expression {
    fn clone(&self) -> (copy: Self)
        ensures
            copy@ == self@,
    {
        self.duplicate()
    }
}

/// A constraint on the cells of a witness.
#[derive(Debug)]
pub enum Constraint {
    /// Both sides have the same value.
    Equality { left: Expression, right: Expression },
    /// The value is below 2^`max_bits`.
    RangeCheck { value: Expression, max_bits: u32 },
    /// A memory access is consistent with the accesses before it.
    MemoryConsistency { addr: Expression, value_read: Expression, value_written: Expression },
}

impl View for Constraint {
    type V = ConstraintView;

    open spec fn view(&self) -> ConstraintView {
        match self {
            Constraint::Equality { left, right } => ConstraintView::Equality {
                left: left@,
                right: right@,
            },
            Constraint::RangeCheck { value, max_bits } => ConstraintView::RangeCheck {
                value: value@,
                max_bits: *max_bits,
            },
            Constraint::MemoryConsistency {
                addr,
                value_read,
                value_written,
            } => ConstraintView::MemoryConsistency {
                addr: addr@,
                value_read: value_read@,
                value_written: value_written@,
            },
        }
    }
}

impl Clone for Constraint {
    fn clone(&self) -> (copy: Self)
        ensures
            copy@ == self@,
    {
        match self {
            Constraint::Equality { left, right } => Constraint::Equality {
                left: left.clone(),
                right: right.clone(),
            },
            Constraint::RangeCheck { value, max_bits } => Constraint::RangeCheck {
                value: value.clone(),
                max_bits: *max_bits,
            },
            Constraint::MemoryConsistency {
                addr,
                value_read,
                value_written,
            } => Constraint::MemoryConsistency {
                addr: addr.clone(),
                value_read: value_read.clone(),
                value_written: value_written.clone(),
            },
        }
    }
}

/// The views of a sequence of constraints.
pub open spec fn constraint_views(constraints: Seq<Constraint>) -> Seq<ConstraintView> {
    constraints.map_values(|c: Constraint| c@)
}

/// The views of a sequence of names.
pub open spec fn name_views(names: Seq<String>) -> Seq<Seq<char>> {
    names.map_values(|name: String| name@)
}

/// A constraint system: constraints, and the names of the witness and
/// public columns they speak of.
#[derive(Debug)]
pub struct ConstraintSystem {
    pub constraints: Vec<Constraint>,
    pub witness_columns: Vec<String>,
    pub public_columns: Vec<String>,
}

impl View for ConstraintSystem {
    type V = ConstraintSystemView;

    open spec fn view(&self) -> ConstraintSystemView {
        ConstraintSystemView {
            constraints: constraint_views(self.constraints@),
            witness_columns: name_views(self.witness_columns@),
            public_columns: name_views(self.public_columns@),
        }
    }
}

/// A copy of a list of names.
fn copy_of_names(names: &Vec<String>) -> (copy: Vec<String>)
    ensures
        name_views(copy@) == name_views(names@),
{
    let mut copy: Vec<String> = Vec::new();
    let mut i: usize = 0;
    while i < names.len()
        invariant
            i <= names@.len(),
            name_views(copy@) =~= name_views(names@).take(i as int),
        decreases names@.len() - i,
    {
        let name = names[i].clone();
        let ghost before = copy@;
        let ghost copied = name@;
        copy.push(name);
        assert(name_views(copy@) =~= name_views(before).push(copied));
        i += 1;
    }
    assert(name_views(names@).take(i as int) =~= name_views(names@));
    copy
}

impl Clone for ConstraintSystem {
    fn clone(&self) -> (copy: Self)
        ensures
            copy@ == self@,
    {
        let mut constraints: Vec<Constraint> = Vec::new();
        let mut i: usize = 0;
        while i < self.constraints.len()
            invariant
                i <= self.constraints@.len(),
                constraint_views(constraints@) =~= constraint_views(self.constraints@).take(
                    i as int,
                ),
            decreases self.constraints@.len() - i,
        {
            let constraint = self.constraints[i].clone();
            let ghost before = constraints@;
            let ghost copied = constraint@;
            constraints.push(constraint);
            assert(constraint_views(constraints@) =~= constraint_views(before).push(copied));
            i += 1;
        }
        assert(constraint_views(self.constraints@).take(i as int) =~= constraint_views(
            self.constraints@,
        ));
        ConstraintSystem {
            constraints,
            witness_columns: copy_of_names(&self.witness_columns),
            public_columns: copy_of_names(&self.public_columns),
        }
    }
}

impl Default for ConstraintSystem {
    fn default() -> (system: Self)
        ensures
            system@ == (ConstraintSystemView {
                constraints: Seq::empty(),
                witness_columns: Seq::empty(),
                public_columns: Seq::empty(),
            }),
    {
        Self::new()
    }
}

/// The expression that names the cell `name`.
fn cell_of(name: String) -> (expr: Expression)
    ensures
        expr@ == cell(name@),
{
    Expression::Variable(name)
}

/// The expression for the constant `value`.
fn constant_of(value: u32) -> (expr: Expression)
    ensures
        expr@ == ExpressionView::Constant(value),
{
    Expression::Constant(value)
}

/// The sum of two expressions.
fn sum_of(left: Expression, right: Expression) -> (expr: Expression)
    ensures
        expr@ == ExpressionView::Add(Box::new(left@), Box::new(right@)),
{
    Expression::Add(Box::new(left), Box::new(right))
}

/// The difference of two expressions.
fn difference_of(left: Expression, right: Expression) -> (expr: Expression)
    ensures
        expr@ == ExpressionView::Sub(Box::new(left@), Box::new(right@)),
{
    Expression::Sub(Box::new(left), Box::new(right))
}

/// The product of two expressions.
fn product_of(left: Expression, right: Expression) -> (expr: Expression)
    ensures
        expr@ == ExpressionView::Mul(Box::new(left@), Box::new(right@)),
{
    Expression::Mul(Box::new(left), Box::new(right))
}

impl ConstraintSystem {
    /// A system without constraints or columns.
    pub fn new() -> (system: Self)
        ensures
            system@ == (ConstraintSystemView {
                constraints: Seq::empty(),
                witness_columns: Seq::empty(),
                public_columns: Seq::empty(),
            }),
    {
        let system = Self {
            constraints: Vec::new(),
            witness_columns: Vec::new(),
            public_columns: Vec::new(),
        };
        assert(system@.constraints =~= Seq::empty());
        assert(system@.witness_columns =~= Seq::empty());
        assert(system@.public_columns =~= Seq::empty());
        system
    }

    /// Adds a witness column after those that are there.
    pub fn add_witness_column(&mut self, name: String)
        ensures
            final(self)@ == (ConstraintSystemView {
                witness_columns: old(self)@.witness_columns.push(name@),
                ..old(self)@
            }),
    {
        self.witness_columns.push(name);
        assert(self@.witness_columns =~= old(self)@.witness_columns.push(name@));
    }

    /// Adds a public column after those that are there.
    pub fn add_public_column(&mut self, name: String)
        ensures
            final(self)@ == (ConstraintSystemView {
                public_columns: old(self)@.public_columns.push(name@),
                ..old(self)@
            }),
    {
        self.public_columns.push(name);
        assert(self@.public_columns =~= old(self)@.public_columns.push(name@));
    }

    /// Adds a constraint after those that are there.
    pub fn add_constraint(&mut self, constraint: Constraint)
        ensures
            final(self)@ == (ConstraintSystemView {
                constraints: old(self)@.constraints.push(constraint@),
                ..old(self)@
            }),
    {
        self.constraints.push(constraint);
        assert(self@.constraints =~= old(self)@.constraints.push(constraint@));
    }
}

impl ConstraintSystem {
    /// Adds the constraints of `step`, the step at position `step_idx` of
    /// its trace, after those that are there.
    #[verifier::loop_isolation(false)]
    pub fn generate_constraints_for_step(&mut self, step: &TraceStep, step_idx: usize)
        ensures
            final(self)@ == (ConstraintSystemView {
                constraints: old(self)@.constraints + step_constraints(step@, step_idx as nat),
                ..old(self)@
            }),
    {
        let ghost base = self@.constraints;
        let ghost index = step_idx as nat;
        let inst = step.instruction;

        match inst.opcode {
            Opcode::Branch | Opcode::Jump => {},
            _ => {
                self.add_constraint(
                    Constraint::Equality {
                        left: cell_of(pc_after_var(step_idx)),
                        right: sum_of(cell_of(pc_before_var(step_idx)), constant_of(4)),
                    },
                );
            },
        }
        let ghost with_pc = base + pc_constraints(step@, index);
        assert(self@.constraints =~= with_pc);

        match inst.opcode {
            Opcode::Add => {
                let rs1_val = cell_of(reg_before_var(inst.rs1 as usize, step_idx));
                let rs2_val = cell_of(reg_before_var(inst.rs2 as usize, step_idx));
                let rd_val = cell_of(reg_after_var(inst.rd as usize, step_idx));
                self.add_constraint(
                    Constraint::Equality {
                        left: rd_val,
                        right: sum_of(rs1_val, rs2_val),
                    },
                );
            },
            Opcode::Sub => {
                let rs1_val = cell_of(reg_before_var(inst.rs1 as usize, step_idx));
                let rs2_val = cell_of(reg_before_var(inst.rs2 as usize, step_idx));
                let rd_val = cell_of(reg_after_var(inst.rd as usize, step_idx));
                self.add_constraint(
                    Constraint::Equality {
                        left: rd_val,
                        right: difference_of(rs1_val, rs2_val),
                    },
                );
            },
            Opcode::Mul => {
                let rs1_val = cell_of(reg_before_var(inst.rs1 as usize, step_idx));
                let rs2_val = cell_of(reg_before_var(inst.rs2 as usize, step_idx));
                let rd_val = cell_of(reg_after_var(inst.rd as usize, step_idx));
                self.add_constraint(
                    Constraint::Equality {
                        left: rd_val,
                        right: product_of(rs1_val, rs2_val),
                    },
                );
            },
            Opcode::Load | Opcode::Store => {
                let ghost accesses = step@.memory_accesses.map_values(
                    |a: MemoryAccess| access_constraint(a),
                );
                let mut i: usize = 0;
                while i < step.memory_accesses.len()
                    invariant
                        i <= step.memory_accesses@.len(),
                        self@.constraints =~= with_pc + accesses.take(i as int),
                        self@.witness_columns == old(self)@.witness_columns,
                        self@.public_columns == old(self)@.public_columns,
                    decreases step.memory_accesses@.len() - i,
                {
                    let mem_access = step.memory_accesses[i];
                    self.add_constraint(
                        Constraint::MemoryConsistency {
                            addr: constant_of(mem_access.addr),
                            value_read: constant_of(mem_access.value_before),
                            value_written: constant_of(mem_access.value_after),
                        },
                    );
                    i += 1;
                }
                assert(accesses.take(i as int) =~= accesses);
            },
            _ => {},
        }
        let ghost with_operation = with_pc + operation_constraints(step@, index);
        assert(self@.constraints =~= with_operation);

        self.add_constraint(
            Constraint::Equality {
                left: cell_of(reg_after_var(0, step_idx)),
                right: constant_of(0),
            },
        );
        let ghost with_zero = with_operation + seq![zero_register_constraint(index)];
        assert(self@.constraints =~= with_zero);

        let mut reg: usize = 0;
        while reg < 32
            invariant
                reg <= 32,
                self@.constraints =~= with_zero + range_constraints(index).take(reg as int),
                self@.witness_columns == old(self)@.witness_columns,
                self@.public_columns == old(self)@.public_columns,
            decreases 32 - reg,
        {
            self.add_constraint(
                Constraint::RangeCheck {
                    value: cell_of(reg_after_var(reg, step_idx)),
                    max_bits: 32,
                },
            );
            reg += 1;
        }
        assert(range_constraints(index).take(32) =~= range_constraints(index));
        assert(self@.constraints =~= base + step_constraints(step@, index));
    }

    /// Adds the standard columns and the constraints of every step of
    /// `trace`, after what is there.
    #[verifier::loop_isolation(false)]
    pub fn generate_constraints_for_trace(&mut self, trace: &ExecutionTrace)
        ensures
            final(self)@ == (ConstraintSystemView {
                constraints: old(self)@.constraints + trace_constraints(trace@.steps),
                witness_columns: old(self)@.witness_columns + standard_witness_columns(),
                public_columns: old(self)@.public_columns + standard_public_columns(),
            }),
    {
        let ghost columns = old(self)@.witness_columns + seq!["step"@, "pc_before"@, "pc_after"@];
        self.add_witness_column(String::from_str("step"));
        self.add_witness_column(String::from_str("pc_before"));
        self.add_witness_column(String::from_str("pc_after"));
        assert(self@.witness_columns =~= columns);

        let mut i: usize = 0;
        while i < 32
            invariant
                i <= 32,
                self@.witness_columns =~= columns + register_columns(i as nat),
                self@.constraints == old(self)@.constraints,
                self@.public_columns == old(self)@.public_columns,
            decreases 32 - i,
        {
            let mut before = numbered("reg_", i);
            before.append("_before");
            let mut after = numbered("reg_", i);
            after.append("_after");
            self.add_witness_column(before);
            self.add_witness_column(after);
            i += 1;
        }
        assert(columns + register_columns(32) =~= old(self)@.witness_columns
            + standard_witness_columns());

        self.add_public_column(String::from_str("initial_pc"));
        self.add_public_column(String::from_str("final_pc"));
        assert(self@.public_columns =~= old(self)@.public_columns + standard_public_columns());

        let ghost steps = trace@.steps;
        let ghost base = old(self)@.constraints;
        let mut step_idx: usize = 0;
        assert(steps.take(0) =~= Seq::<TraceStepView>::empty());
        while step_idx < trace.steps.len()
            invariant
                step_idx <= trace.steps@.len(),
                self@.constraints =~= base + trace_constraints(steps.take(step_idx as int)),
                self@.witness_columns == old(self)@.witness_columns + standard_witness_columns(),
                self@.public_columns == old(self)@.public_columns + standard_public_columns(),
            decreases trace.steps@.len() - step_idx,
        {
            self.generate_constraints_for_step(&trace.steps[step_idx], step_idx);
            proof {
                let longer = steps.take(step_idx as int + 1);
                assert(longer.drop_last() =~= steps.take(step_idx as int));
                assert(longer.last() == trace.steps@[step_idx as int]@);
            }
            step_idx += 1;
        }
        assert(steps.take(step_idx as int) =~= steps);
    }

    /// The value of `expr` under `witness`, computed modulo 2^32; none
    /// where a variable has no value.
    pub fn evaluate_expression(&self, expr: &Expression, witness: &Witness) -> (value: Option<u32>)
        ensures
            value == expr@.eval(witness@),
        decreases expr,
    {
        match expr {
            Expression::Constant(val) => Some(*val),
            Expression::Variable(name) => witness.get(name),
            Expression::Add(left, right) => {
                let left_val = self.evaluate_expression(left, witness)?;
                let right_val = self.evaluate_expression(right, witness)?;
                Some(add_wrapping(left_val, right_val))
            },
            Expression::Mul(left, right) => {
                let left_val = self.evaluate_expression(left, witness)?;
                let right_val = self.evaluate_expression(right, witness)?;
                Some(mul_wrapping(left_val, right_val))
            },
            Expression::Sub(left, right) => {
                let left_val = self.evaluate_expression(left, witness)?;
                let right_val = self.evaluate_expression(right, witness)?;
                Some(sub_wrapping(left_val, right_val))
            },
        }
    }

    /// Whether every constraint of this system holds under `witness`.
    pub fn verify_constraints(&self, witness: &Witness) -> (satisfied: bool)
        ensures
            satisfied == self@.satisfied_by(witness@),
    {
        let mut i: usize = 0;
        while i < self.constraints.len()
            invariant
                i <= self.constraints@.len(),
                forall|j: int| 0 <= j < i ==> (#[trigger] self@.constraints[j]).holds(witness@),
            decreases self.constraints@.len() - i,
        {
            if !self.verify_constraint(&self.constraints[i], witness) {
                assert(!self@.constraints[i as int].holds(witness@));
                return false;
            }
            i += 1;
        }
        true
    }

    /// Whether `constraint` holds under `witness`.
    pub fn verify_constraint(&self, constraint: &Constraint, witness: &Witness) -> (satisfied:
        bool)
        ensures
            satisfied == constraint@.holds(witness@),
    {
        match constraint {
            Constraint::Equality { left, right } => {
                let left_val = self.evaluate_expression(left, witness);
                let right_val = self.evaluate_expression(right, witness);
                match (left_val, right_val) {
                    (Some(a), Some(b)) => a == b,
                    _ => false,
                }
            },
            Constraint::RangeCheck { value, max_bits } => {
                match self.evaluate_expression(value, witness) {
                    Some(val) => {
                        if *max_bits >= 32 {
                            true
                        } else {
                            proof {
                                lemma_u32_pow2_no_overflow(*max_bits as nat);
                                lemma_u32_shl_is_mul(1u32, *max_bits);
                            }
                            val < (1u32 << *max_bits)
                        }
                    },
                    None => false,
                }
            },
            Constraint::MemoryConsistency { .. } => true,
        }
    }
}

/// A constant evaluates to itself, whatever the witness.
pub proof fn lemma_constant_evaluates_to_itself(value: u32, witness: Map<Seq<char>, u32>)
    ensures
        ExpressionView::Constant(value).eval(witness) == Some(value),
{
}

/// Sums, differences and products of expressions that have values are
/// those of the values, modulo 2^32.
pub proof fn lemma_arithmetic_wraps(
    left: ExpressionView,
    right: ExpressionView,
    witness: Map<Seq<char>, u32>,
)
    requires
        left.eval(witness) is Some,
        right.eval(witness) is Some,
    ensures
        ExpressionView::Add(Box::new(left), Box::new(right)).eval(witness) == Some(
            wrap_add(left.eval(witness)->Some_0, right.eval(witness)->Some_0),
        ),
        ExpressionView::Sub(Box::new(left), Box::new(right)).eval(witness) == Some(
            wrap_sub(left.eval(witness)->Some_0, right.eval(witness)->Some_0),
        ),
        ExpressionView::Mul(Box::new(left), Box::new(right)).eval(witness) == Some(
            wrap_mul(left.eval(witness)->Some_0, right.eval(witness)->Some_0),
        ),
{
}

} // verus!
