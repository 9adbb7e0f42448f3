//! What the constraints of a trace say of its steps: under the witness of
//! the trace, they hold exactly where every step obeys the rules they
//! stand for.

use super::constraints::{
    access_constraint, arithmetic_constraint, cell, operation_constraints, pc_constraints,
    range_constraint, range_constraints, sequential_pc_constraint, step_constraints,
    trace_constraints, zero_register_constraint, ConstraintView, ExpressionView,
};
use super::name_laws::{
    lemma_pc_after_names_differ, lemma_pc_before_names_differ, lemma_pc_names_apart,
    lemma_reg_after_names_differ, lemma_reg_before_names_differ, lemma_reg_names_apart,
};
use super::names::{pc_after_name, pc_before_name, reg_after_name, reg_before_name};
use super::prover::TraceStepView;
use super::prover::MemoryAccess;
use super::stark::{
    constraint_evaluations, evaluations_under, register_cells, step_cells, trace_witness,
};
use crate::vm::execution::{wrap_add, wrap_mul, wrap_sub};
use crate::vm::opcodes::Opcode;
use vstd::prelude::*;

verus! {

/// Whether `name` names a cell of the step at position `index`.
pub open spec fn is_cell_of_step(name: Seq<char>, index: nat) -> bool {
    ||| name == pc_before_name(index)
    ||| name == pc_after_name(index)
    ||| exists|reg: nat| reg < 32 && name == #[trigger] reg_before_name(reg, index)
    ||| exists|reg: nat| reg < 32 && name == #[trigger] reg_after_name(reg, index)
}

/// Whether `witness` gives every cell of the step at position `index` the
/// value that `step` has for it.
pub open spec fn records_step(witness: Map<Seq<char>, u32>, step: TraceStepView, index: nat) -> bool {
    &&& witness.contains_key(pc_before_name(index))
    &&& witness[pc_before_name(index)] == step.pc_before
    &&& witness.contains_key(pc_after_name(index))
    &&& witness[pc_after_name(index)] == step.pc_after
    &&& forall|reg: nat|
        reg < 32 ==> witness.contains_key(#[trigger] reg_before_name(reg, index))
            && witness[reg_before_name(reg, index)] == step.registers_before[reg as int]
    &&& forall|reg: nat|
        reg < 32 ==> witness.contains_key(#[trigger] reg_after_name(reg, index))
            && witness[reg_after_name(reg, index)] == step.registers_after[reg as int]
}

/// The rules that the constraints of a step stand for: an instruction
/// that is neither a branch nor a jump moves the program counter on by
/// four; an addition, subtraction or multiplication leaves its result in
/// its destination; and register 0 holds zero after the step.
pub open spec fn step_obeys_rules(step: TraceStepView) -> bool {
    let inst = step.instruction;
    let a = step.registers_before[inst.rs1 as int];
    let b = step.registers_before[inst.rs2 as int];
    let result = step.registers_after[inst.rd as int];
    &&& inst.opcode != Opcode::Branch && inst.opcode != Opcode::Jump ==> step.pc_after == wrap_add(
        step.pc_before,
        4,
    )
    &&& inst.opcode == Opcode::Add ==> result == wrap_add(a, b)
    &&& inst.opcode == Opcode::Sub ==> result == wrap_sub(a, b)
    &&& inst.opcode == Opcode::Mul ==> result == wrap_mul(a, b)
    &&& step.registers_after[0] == 0
}

/// Whether all of `constraints` hold under `witness`.
pub open spec fn all_hold(constraints: Seq<ConstraintView>, witness: Map<Seq<char>, u32>) -> bool {
    forall|i: int| 0 <= i < constraints.len() ==> (#[trigger] constraints[i]).holds(witness)
}

/// The cells of the first `count` registers, once added, have the values
/// of the step.
proof fn lemma_register_cells_own(
    base: Map<Seq<char>, u32>,
    step: TraceStepView,
    index: nat,
    count: nat,
    reg: nat,
)
    requires
        reg < count,
    ensures
        register_cells(base, step, index, count).contains_key(reg_before_name(reg, index)),
        register_cells(base, step, index, count)[reg_before_name(reg, index)]
            == step.registers_before[reg as int],
        register_cells(base, step, index, count).contains_key(reg_after_name(reg, index)),
        register_cells(base, step, index, count)[reg_after_name(reg, index)]
            == step.registers_after[reg as int],
    decreases count,
{
    let last = (count - 1) as nat;
    lemma_reg_names_apart(reg, index, last, index);
    lemma_reg_names_apart(last, index, reg, index);
    if reg < last {
        lemma_register_cells_own(base, step, index, last, reg);
        if reg_before_name(reg, index) == reg_before_name(last, index) {
            lemma_reg_before_names_differ(reg, index, last, index);
        }
        if reg_after_name(reg, index) == reg_after_name(last, index) {
            lemma_reg_after_names_differ(reg, index, last, index);
        }
    }
}

/// Adding the cells of registers leaves every other name as it was.
proof fn lemma_register_cells_other(
    base: Map<Seq<char>, u32>,
    step: TraceStepView,
    index: nat,
    count: nat,
    name: Seq<char>,
)
    requires
        forall|reg: nat| reg < count ==> name != #[trigger] reg_before_name(reg, index),
        forall|reg: nat| reg < count ==> name != #[trigger] reg_after_name(reg, index),
    ensures
        register_cells(base, step, index, count).contains_key(name) == base.contains_key(name),
        register_cells(base, step, index, count)[name] == base[name],
    decreases count,
{
    if count > 0 {
        let last = (count - 1) as nat;
        assert(name != reg_before_name(last, index) && name != reg_after_name(last, index));
        lemma_register_cells_other(base, step, index, last, name);
    }
}

/// The cells of a step, once added, have the values of the step.
proof fn lemma_step_cells_own(base: Map<Seq<char>, u32>, step: TraceStepView, index: nat)
    ensures
        records_step(step_cells(base, step, index), step, index),
{
    let with_pc = base.insert(pc_before_name(index), step.pc_before).insert(
        pc_after_name(index),
        step.pc_after,
    );
    let all = step_cells(base, step, index);
    let before = pc_before_name(index);
    let after = pc_after_name(index);
    assert forall|reg: nat| reg < 32 implies before != #[trigger] reg_before_name(reg, index) by {
        lemma_pc_names_apart(index, index, reg);
    }
    assert forall|reg: nat| reg < 32 implies before != #[trigger] reg_after_name(reg, index) by {
        lemma_pc_names_apart(index, index, reg);
    }
    assert forall|reg: nat| reg < 32 implies after != #[trigger] reg_before_name(reg, index) by {
        lemma_pc_names_apart(index, index, reg);
    }
    assert forall|reg: nat| reg < 32 implies after != #[trigger] reg_after_name(reg, index) by {
        lemma_pc_names_apart(index, index, reg);
    }
    lemma_pc_names_apart(index, index, 0);
    lemma_register_cells_other(with_pc, step, index, 32, before);
    lemma_register_cells_other(with_pc, step, index, 32, after);
    assert forall|reg: nat| reg < 32 implies all.contains_key(
        #[trigger] reg_before_name(reg, index),
    ) && all[reg_before_name(reg, index)] == step.registers_before[reg as int] by {
        lemma_register_cells_own(with_pc, step, index, 32, reg);
    }
    assert forall|reg: nat| reg < 32 implies all.contains_key(
        #[trigger] reg_after_name(reg, index),
    ) && all[reg_after_name(reg, index)] == step.registers_after[reg as int] by {
        lemma_register_cells_own(with_pc, step, index, 32, reg);
    }
}

/// Adding the cells of a step leaves every name of another step as it
/// was.
proof fn lemma_step_cells_other(
    base: Map<Seq<char>, u32>,
    step: TraceStepView,
    index: nat,
    name: Seq<char>,
)
    requires
        !is_cell_of_step(name, index),
    ensures
        step_cells(base, step, index).contains_key(name) == base.contains_key(name),
        step_cells(base, step, index)[name] == base[name],
{
    let with_pc = base.insert(pc_before_name(index), step.pc_before).insert(
        pc_after_name(index),
        step.pc_after,
    );
    lemma_register_cells_other(with_pc, step, index, 32, name);
}

/// A cell of one step is no cell of another.
proof fn lemma_cells_of_steps_apart(name: Seq<char>, a: nat, b: nat)
    requires
        is_cell_of_step(name, a),
        a != b,
    ensures
        !is_cell_of_step(name, b),
{
    if is_cell_of_step(name, b) {
        if name == pc_before_name(a) {
            if name == pc_before_name(b) {
                lemma_pc_before_names_differ(a, b);
            } else if name == pc_after_name(b) {
                lemma_pc_names_apart(a, b, 0);
            } else if exists|reg: nat| reg < 32 && name == #[trigger] reg_before_name(reg, b) {
                let reg = choose|reg: nat| reg < 32 && name == #[trigger] reg_before_name(reg, b);
                lemma_pc_names_apart(a, b, reg);
            } else {
                let reg = choose|reg: nat| reg < 32 && name == #[trigger] reg_after_name(reg, b);
                lemma_pc_names_apart(a, b, reg);
            }
        } else if name == pc_after_name(a) {
            if name == pc_before_name(b) {
                lemma_pc_names_apart(b, a, 0);
            } else if name == pc_after_name(b) {
                lemma_pc_after_names_differ(a, b);
            } else if exists|reg: nat| reg < 32 && name == #[trigger] reg_before_name(reg, b) {
                let reg = choose|reg: nat| reg < 32 && name == #[trigger] reg_before_name(reg, b);
                lemma_pc_names_apart(a, b, reg);
            } else {
                let reg = choose|reg: nat| reg < 32 && name == #[trigger] reg_after_name(reg, b);
                lemma_pc_names_apart(a, b, reg);
            }
        } else if exists|reg: nat| reg < 32 && name == #[trigger] reg_before_name(reg, a) {
            let reg_a = choose|reg: nat| reg < 32 && name == #[trigger] reg_before_name(reg, a);
            if name == pc_before_name(b) || name == pc_after_name(b) {
                lemma_pc_names_apart(b, a, reg_a);
            } else if exists|reg: nat| reg < 32 && name == #[trigger] reg_before_name(reg, b) {
                let reg_b = choose|reg: nat| reg < 32 && name == #[trigger] reg_before_name(reg, b);
                lemma_reg_before_names_differ(reg_a, a, reg_b, b);
            } else {
                let reg_b = choose|reg: nat| reg < 32 && name == #[trigger] reg_after_name(reg, b);
                lemma_reg_names_apart(reg_a, a, reg_b, b);
            }
        } else {
            let reg_a = choose|reg: nat| reg < 32 && name == #[trigger] reg_after_name(reg, a);
            if name == pc_before_name(b) || name == pc_after_name(b) {
                lemma_pc_names_apart(b, a, reg_a);
            } else if exists|reg: nat| reg < 32 && name == #[trigger] reg_before_name(reg, b) {
                let reg_b = choose|reg: nat| reg < 32 && name == #[trigger] reg_before_name(reg, b);
                lemma_reg_names_apart(reg_b, b, reg_a, a);
            } else {
                let reg_b = choose|reg: nat| reg < 32 && name == #[trigger] reg_after_name(reg, b);
                lemma_reg_after_names_differ(reg_a, a, reg_b, b);
            }
        }
    }
}

/// A witness that records a step still records it after the cells of
/// another step are added.
proof fn lemma_record_kept(
    base: Map<Seq<char>, u32>,
    recorded: TraceStepView,
    at: nat,
    added: TraceStepView,
    index: nat,
)
    requires
        records_step(base, recorded, at),
        at != index,
    ensures
        records_step(step_cells(base, added, index), recorded, at),
{
    let all = step_cells(base, added, index);
    lemma_cells_of_steps_apart(pc_before_name(at), at, index);
    lemma_step_cells_other(base, added, index, pc_before_name(at));
    lemma_cells_of_steps_apart(pc_after_name(at), at, index);
    lemma_step_cells_other(base, added, index, pc_after_name(at));
    assert forall|reg: nat| reg < 32 implies all.contains_key(#[trigger] reg_before_name(reg, at))
        && all[reg_before_name(reg, at)] == recorded.registers_before[reg as int] by {
        lemma_cells_of_steps_apart(reg_before_name(reg, at), at, index);
        lemma_step_cells_other(base, added, index, reg_before_name(reg, at));
    }
    assert forall|reg: nat| reg < 32 implies all.contains_key(#[trigger] reg_after_name(reg, at))
        && all[reg_after_name(reg, at)] == recorded.registers_after[reg as int] by {
        lemma_cells_of_steps_apart(reg_after_name(reg, at), at, index);
        lemma_step_cells_other(base, added, index, reg_after_name(reg, at));
    }
}

/// The witness of a trace records every step of the trace: each cell has
/// the value that its step has for it.
pub proof fn lemma_trace_witness_records(steps: Seq<TraceStepView>, index: nat)
    requires
        index < steps.len(),
    ensures
        records_step(trace_witness(steps), steps[index as int], index),
    decreases steps.len(),
{
    let last = (steps.len() - 1) as nat;
    let earlier = trace_witness(steps.drop_last());
    if index == last {
        lemma_step_cells_own(earlier, steps.last(), last);
    } else {
        lemma_trace_witness_records(steps.drop_last(), index);
        lemma_record_kept(earlier, steps[index as int], index, steps.last(), last);
    }
}

/// All of two lists of constraints hold exactly where all of each hold.
pub proof fn lemma_all_hold_of_both(
    first: Seq<ConstraintView>,
    second: Seq<ConstraintView>,
    witness: Map<Seq<char>, u32>,
)
    ensures
        all_hold(first + second, witness) <==> all_hold(first, witness) && all_hold(
            second,
            witness,
        ),
{
    let both = first + second;
    if all_hold(both, witness) {
        assert forall|i: int| 0 <= i < first.len() implies (#[trigger] first[i]).holds(witness) by {
            assert(both[i] == first[i]);
        }
        assert forall|i: int| 0 <= i < second.len() implies (#[trigger] second[i]).holds(
            witness,
        ) by {
            assert(both[first.len() + i] == second[i]);
        }
    }
    if all_hold(first, witness) && all_hold(second, witness) {
        assert forall|i: int| 0 <= i < both.len() implies (#[trigger] both[i]).holds(witness) by {
            if i < first.len() {
                assert(both[i] == first[i]);
            } else {
                assert(both[i] == second[i - first.len()]);
            }
        }
    }
}

/// A cell that a witness has evaluates to its value.
proof fn lemma_cell_value(witness: Map<Seq<char>, u32>, name: Seq<char>)
    requires
        witness.contains_key(name),
    ensures
        cell(name).eval(witness) == Some(witness[name]),
{
}

/// Under a witness that records a step, the constraint on its program
/// counter holds exactly where the rule on the program counter does.
proof fn lemma_pc_constraints_meaning(
    witness: Map<Seq<char>, u32>,
    step: TraceStepView,
    index: nat,
)
    requires
        records_step(witness, step, index),
    ensures
        all_hold(pc_constraints(step, index), witness) <==> (step.instruction.opcode
            != Opcode::Branch && step.instruction.opcode != Opcode::Jump ==> step.pc_after
            == wrap_add(step.pc_before, 4)),
{
    reveal_with_fuel(ExpressionView::eval, 3);
    let constraints = pc_constraints(step, index);
    if constraints.len() > 0 {
        lemma_cell_value(witness, pc_after_name(index));
        lemma_cell_value(witness, pc_before_name(index));
        assert(constraints[0] == sequential_pc_constraint(index));
        assert(sequential_pc_constraint(index).holds(witness) <==> step.pc_after == wrap_add(
            step.pc_before,
            4,
        ));
    }
}

/// Under a witness that records a step, the constraints of its operation
/// hold exactly where the rule on its result does.
proof fn lemma_operation_constraints_meaning(
    witness: Map<Seq<char>, u32>,
    step: TraceStepView,
    index: nat,
)
    requires
        records_step(witness, step, index),
        step.instruction.well_formed(),
    ensures
        all_hold(operation_constraints(step, index), witness) <==> {
            let inst = step.instruction;
            let a = step.registers_before[inst.rs1 as int];
            let b = step.registers_before[inst.rs2 as int];
            let result = step.registers_after[inst.rd as int];
            &&& inst.opcode == Opcode::Add ==> result == wrap_add(a, b)
            &&& inst.opcode == Opcode::Sub ==> result == wrap_sub(a, b)
            &&& inst.opcode == Opcode::Mul ==> result == wrap_mul(a, b)
        },
{
    reveal_with_fuel(ExpressionView::eval, 3);
    let inst = step.instruction;
    let constraints = operation_constraints(step, index);
    match inst.opcode {
        Opcode::Add | Opcode::Sub | Opcode::Mul => {
            let rs1 = inst.rs1 as nat;
            let rs2 = inst.rs2 as nat;
            let rd = inst.rd as nat;
            assert(witness.contains_key(reg_before_name(rs1, index)));
            assert(witness.contains_key(reg_before_name(rs2, index)));
            assert(witness.contains_key(reg_after_name(rd, index)));
            lemma_cell_value(witness, reg_before_name(rs1, index));
            lemma_cell_value(witness, reg_before_name(rs2, index));
            lemma_cell_value(witness, reg_after_name(rd, index));
            assert(constraints[0] == arithmetic_constraint(inst, index));
        },
        Opcode::Load | Opcode::Store => {
            assert forall|i: int| 0 <= i < constraints.len() implies (#[trigger] constraints[i]).holds(
                witness,
            ) by {
                assert(constraints[i] == access_constraint(step.memory_accesses[i]));
            }
        },
        _ => {},
    }
}

/// Under a witness that records a step, the constraint on register 0
/// holds exactly where register 0 holds zero after the step, and every
/// range check holds.
proof fn lemma_register_constraints_meaning(
    witness: Map<Seq<char>, u32>,
    step: TraceStepView,
    index: nat,
)
    requires
        records_step(witness, step, index),
    ensures
        all_hold(seq![zero_register_constraint(index)], witness) <==> step.registers_after[0] == 0,
        all_hold(range_constraints(index), witness),
{
    reveal_with_fuel(ExpressionView::eval, 3);
    assert(witness.contains_key(reg_after_name(0, index)));
    lemma_cell_value(witness, reg_after_name(0, index));
    let zero = seq![zero_register_constraint(index)];
    assert(zero[0] == zero_register_constraint(index));
    assert(zero_register_constraint(index).holds(witness) <==> step.registers_after[0] == 0);
    let ranges = range_constraints(index);
    assert forall|i: int| 0 <= i < ranges.len() implies (#[trigger] ranges[i]).holds(witness) by {
        assert(witness.contains_key(reg_after_name(i as nat, index)));
        lemma_cell_value(witness, reg_after_name(i as nat, index));
        assert(ranges[i] == range_constraint(i as nat, index));
    }
}

/// Under a witness that records a step, the constraints of the step hold
/// exactly where the step obeys the rules.
pub proof fn lemma_step_constraints_meaning(
    witness: Map<Seq<char>, u32>,
    step: TraceStepView,
    index: nat,
)
    requires
        records_step(witness, step, index),
        step.instruction.well_formed(),
    ensures
        all_hold(step_constraints(step, index), witness) <==> step_obeys_rules(step),
{
    let pc = pc_constraints(step, index);
    let operation = operation_constraints(step, index);
    let zero = seq![zero_register_constraint(index)];
    let ranges = range_constraints(index);
    lemma_pc_constraints_meaning(witness, step, index);
    lemma_operation_constraints_meaning(witness, step, index);
    lemma_register_constraints_meaning(witness, step, index);
    lemma_all_hold_of_both(pc, operation, witness);
    lemma_all_hold_of_both(pc + operation, zero, witness);
    lemma_all_hold_of_both(pc + operation + zero, ranges, witness);
}

/// The constraints of a trace all hold exactly where those of each of its
/// steps do.
pub proof fn lemma_trace_constraints_step_by_step(
    steps: Seq<TraceStepView>,
    witness: Map<Seq<char>, u32>,
)
    ensures
        all_hold(trace_constraints(steps), witness) <==> forall|k: int|
            0 <= k < steps.len() ==> all_hold(
                #[trigger] step_constraints(steps[k], k as nat),
                witness,
            ),
    decreases steps.len(),
{
    if steps.len() > 0 {
        let earlier = steps.drop_last();
        let last = (steps.len() - 1) as int;
        lemma_trace_constraints_step_by_step(earlier, witness);
        lemma_all_hold_of_both(
            trace_constraints(earlier),
            step_constraints(steps.last(), last as nat),
            witness,
        );
        assert forall|k: int| 0 <= k < earlier.len() implies earlier[k] == steps[k] by {}
        if all_hold(trace_constraints(steps), witness) {
            assert forall|k: int| 0 <= k < steps.len() implies all_hold(
                #[trigger] step_constraints(steps[k], k as nat),
                witness,
            ) by {
                if k < last {
                    assert(all_hold(step_constraints(earlier[k], k as nat), witness));
                }
            }
        }
        if forall|k: int|
            0 <= k < steps.len() ==> all_hold(
                #[trigger] step_constraints(steps[k], k as nat),
                witness,
            ) {
            assert forall|k: int| 0 <= k < earlier.len() implies all_hold(
                #[trigger] step_constraints(earlier[k], k as nat),
                witness,
            ) by {
                assert(all_hold(step_constraints(steps[k], k as nat), witness));
            }
            assert(all_hold(step_constraints(steps[last], last as nat), witness));
        }
    }
}

/// The constraint evaluations of a trace are all zero exactly where every
/// step of the trace obeys the rules that its constraints stand for.
pub proof fn lemma_evaluations_meaning(steps: Seq<TraceStepView>)
    requires
        forall|k: int| 0 <= k < steps.len() ==> (#[trigger] steps[k]).instruction.well_formed(),
    ensures
        (forall|i: int|
            0 <= i < constraint_evaluations(steps).len() ==> constraint_evaluations(steps)[i] == 0)
            <==> (forall|k: int| 0 <= k < steps.len() ==> step_obeys_rules(#[trigger] steps[k])),
{
    let witness = trace_witness(steps);
    let constraints = trace_constraints(steps);
    let evaluations = constraint_evaluations(steps);
    lemma_trace_constraints_step_by_step(steps, witness);
    assert forall|k: int| 0 <= k < steps.len() implies (all_hold(
        #[trigger] step_constraints(steps[k], k as nat),
        witness,
    ) <==> step_obeys_rules(steps[k])) by {
        lemma_trace_witness_records(steps, k as nat);
        lemma_step_constraints_meaning(witness, steps[k], k as nat);
    }
    if forall|i: int| 0 <= i < evaluations.len() ==> evaluations[i] == 0 {
        assert forall|i: int| 0 <= i < constraints.len() implies (#[trigger] constraints[i]).holds(
            witness,
        ) by {
            assert(evaluations[i] == 0);
        }
        assert forall|k: int| 0 <= k < steps.len() implies step_obeys_rules(#[trigger] steps[k]) by {
            assert(all_hold(step_constraints(steps[k], k as nat), witness));
        }
    }
    if forall|k: int| 0 <= k < steps.len() ==> step_obeys_rules(#[trigger] steps[k]) {
        assert forall|k: int| 0 <= k < steps.len() implies all_hold(
            #[trigger] step_constraints(steps[k], k as nat),
            witness,
        ) by {
            assert(step_obeys_rules(steps[k]));
        }
        assert(all_hold(constraints, witness));
        assert forall|i: int| 0 <= i < evaluations.len() implies evaluations[i] == 0 by {
            assert(constraints[i].holds(witness));
        }
    }
}

} // verus!
