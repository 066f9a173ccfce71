//! Rewrites instructions whose operands x86-64 does not accept together.
use vstd::prelude::*;

use crate::assembly;

verus! {

/// The operand constraints that this pass enforces: no instruction reads and
/// writes two memory operands at once, `idiv` takes no immediate, `imul` does not
/// write to memory and the second operand of `cmp` is not an immediate.
pub open spec fn obeys_operand_constraints(instruction: assembly::Instruction) -> bool {
    match instruction {
        assembly::Instruction::Move { src, dst } => !(src.is_stack() && dst.is_stack()),
        assembly::Instruction::Binary { op, left, right } => match op {
            assembly::BinaryOp::Mult => !right.is_stack(),
            _ => !(left.is_stack() && right.is_stack()),
        },
        assembly::Instruction::Idiv(operand) => !operand.is_imm(),
        assembly::Instruction::Cmp { left, right } => !(left.is_stack() && right.is_stack())
            && !right.is_imm(),
        _ => true,
    }
}

pub open spec fn r10() -> assembly::Operand {
    assembly::Operand::Register(assembly::Register::R10)
}

pub open spec fn r11() -> assembly::Operand {
    assembly::Operand::Register(assembly::Register::R11)
}

/// The instructions that stand in for `instruction` after fix-up.
pub open spec fn spec_fix_instruction(instruction: assembly::Instruction) -> Seq<assembly::Instruction> {
    match instruction {
        assembly::Instruction::Move { src, dst } => if src.is_stack() && dst.is_stack() {
            seq![
                assembly::Instruction::Move { src, dst: r10() },
                assembly::Instruction::Move { src: r10(), dst },
            ]
        } else {
            seq![instruction]
        },
        assembly::Instruction::Binary { op, left, right } => if (op == assembly::BinaryOp::Add || op
            == assembly::BinaryOp::Sub) && left.is_stack() && right.is_stack() {
            seq![
                assembly::Instruction::Move { src: left, dst: r10() },
                assembly::Instruction::Binary { op, left: r10(), right },
            ]
        } else if op == assembly::BinaryOp::Mult && right.is_stack() {
            seq![
                assembly::Instruction::Move { src: right, dst: r11() },
                assembly::Instruction::Binary { op: assembly::BinaryOp::Mult, left, right: r11() },
                assembly::Instruction::Move { src: r11(), dst: right },
            ]
        } else {
            seq![instruction]
        },
        assembly::Instruction::Idiv(operand) => match operand {
            assembly::Operand::Imm(i) => seq![
                assembly::Instruction::Move { src: assembly::Operand::Imm(i), dst: r10() },
                assembly::Instruction::Idiv(r10()),
            ],
            _ => seq![instruction],
        },
        assembly::Instruction::Cmp { left, right } => if left.is_stack() && right.is_stack() {
            seq![
                assembly::Instruction::Move { src: left, dst: r10() },
                assembly::Instruction::Cmp { left: r10(), right },
            ]
        } else if right.is_imm() {
            seq![
                assembly::Instruction::Move { src: right, dst: r11() },
                assembly::Instruction::Cmp { left, right: r11() },
            ]
        } else {
            seq![instruction]
        },
        _ => seq![instruction],
    }
}

/// The fixed-up body of a function: the stack allocation, then the fix-up of each
/// instruction in order.
pub open spec fn spec_fix_instructions(instructions: Seq<assembly::Instruction>) -> Seq<assembly::Instruction>
    decreases instructions.len(),
{
    if instructions.len() == 0 {
        seq![]
    } else {
        spec_fix_instructions(instructions.drop_last()) + spec_fix_instruction(
            instructions.last(),
        )
    }
}

/// `fixed` is `function` with a stack allocation of `function.stack_size` bytes
/// prepended and each instruction fixed up in order.
pub open spec fn is_fixed_function(function: assembly::Function, fixed: assembly::Function) -> bool {
    &&& fixed.name == function.name
    &&& fixed.stack_size == function.stack_size
    &&& fixed.instructions@ == seq![assembly::Instruction::AllocateStack(function.stack_size)]
        + spec_fix_instructions(function.instructions@)
}

pub fn fix_program(program: assembly::Program) -> (result: assembly::Program)
    ensures
        result.functions@.len() == program.functions@.len(),
        forall|i: int|
            0 <= i < program.functions@.len() ==> is_fixed_function(
                program.functions@[i],
                #[trigger] result.functions@[i],
            ),
{
    let mut functions: Vec<assembly::Function> = Vec::new();
    for function in it: program.functions
        invariant
            it.seq() == program.functions@,
            functions@.len() == it.index(),
            forall|i: int|
                0 <= i < it.index() ==> is_fixed_function(
                    program.functions@[i],
                    #[trigger] functions@[i],
                ),
    {
        functions.push(fix_function(function));
    }
    assembly::Program { functions }
}

pub fn fix_function(function: assembly::Function) -> (result: assembly::Function)
    ensures
        is_fixed_function(function, result),
{
    let mut instructions: Vec<assembly::Instruction> = Vec::new();
    instructions.push(assembly::Instruction::AllocateStack(function.stack_size));
    let ghost before_fix = function.instructions@;
    for instruction in it: function.instructions
        invariant
            it.seq() == before_fix,
            instructions@ == seq![assembly::Instruction::AllocateStack(function.stack_size)]
                + spec_fix_instructions(before_fix.take(it.index() as int)),
    {
        let mut fixed = fix_instruction(instruction);
        instructions.append(&mut fixed);
        proof {
            assert(before_fix.take(it.index() + 1).drop_last() =~= before_fix.take(it.index() as int));
        }
    }
    proof {
        assert(before_fix.take(before_fix.len() as int) =~= before_fix);
    }
    assembly::Function {
        name: function.name,
        instructions,
        stack_size: function.stack_size,
    }
}

pub fn fix_instruction(instruction: assembly::Instruction) -> (result: Vec<assembly::Instruction>)
    ensures
        result@ == spec_fix_instruction(instruction),
{
    match instruction {
        assembly::Instruction::Move { src, dst } => {
            if src.is_stack_operand() && dst.is_stack_operand() {
                vec![
                    assembly::Instruction::Move { src, dst: assembly::Operand::Register(assembly::Register::R10) },
                    assembly::Instruction::Move { src: assembly::Operand::Register(assembly::Register::R10), dst },
                ]
            } else {
                vec![assembly::Instruction::Move { src, dst }]
            }
        },
        assembly::Instruction::Binary { op, left, right } => {
            if (op == assembly::BinaryOp::Add || op == assembly::BinaryOp::Sub) && left.is_stack_operand()
                && right.is_stack_operand() {
                vec![
                    assembly::Instruction::Move { src: left, dst: assembly::Operand::Register(assembly::Register::R10) },
                    assembly::Instruction::Binary {
                        op,
                        left: assembly::Operand::Register(assembly::Register::R10),
                        right,
                    },
                ]
            } else if op == assembly::BinaryOp::Mult && right.is_stack_operand() {
                vec![
                    assembly::Instruction::Move { src: right.clone(), dst: assembly::Operand::Register(assembly::Register::R11) },
                    assembly::Instruction::Binary {
                        op: assembly::BinaryOp::Mult,
                        left,
                        right: assembly::Operand::Register(assembly::Register::R11),
                    },
                    assembly::Instruction::Move { src: assembly::Operand::Register(assembly::Register::R11), dst: right },
                ]
            } else {
                vec![assembly::Instruction::Binary { op, left, right }]
            }
        },
        assembly::Instruction::Idiv(operand) => match operand {
            assembly::Operand::Imm(i) => vec![
                assembly::Instruction::Move { src: assembly::Operand::Imm(i), dst: assembly::Operand::Register(assembly::Register::R10) },
                assembly::Instruction::Idiv(assembly::Operand::Register(assembly::Register::R10)),
            ],
            other => vec![assembly::Instruction::Idiv(other)],
        },
        assembly::Instruction::Cmp { left, right } => {
            if left.is_stack_operand() && right.is_stack_operand() {
                vec![
                    assembly::Instruction::Move { src: left, dst: assembly::Operand::Register(assembly::Register::R10) },
                    assembly::Instruction::Cmp { left: assembly::Operand::Register(assembly::Register::R10), right },
                ]
            } else if right.is_imm_operand() {
                vec![
                    assembly::Instruction::Move { src: right, dst: assembly::Operand::Register(assembly::Register::R11) },
                    assembly::Instruction::Cmp { left, right: assembly::Operand::Register(assembly::Register::R11) },
                ]
            } else {
                vec![assembly::Instruction::Cmp { left, right }]
            }
        },
        other => vec![other],
    }
}

/// Every instruction that fix-up produces obeys the operand constraints, whatever
/// instruction it started from.
pub proof fn lemma_fixed_instruction_obeys_constraints(instruction: assembly::Instruction)
    ensures
        forall|i: int|
            0 <= i < spec_fix_instruction(instruction).len() ==> obeys_operand_constraints(
                #[trigger] spec_fix_instruction(instruction)[i],
            ),
{
}

/// Every instruction of a fixed-up body obeys the operand constraints.
pub proof fn lemma_fixed_instructions_obey_constraints(instructions: Seq<assembly::Instruction>)
    ensures
        forall|i: int|
            0 <= i < spec_fix_instructions(instructions).len() ==> obeys_operand_constraints(
                #[trigger] spec_fix_instructions(instructions)[i],
            ),
    decreases instructions.len(),
{
    if instructions.len() > 0 {
        lemma_fixed_instructions_obey_constraints(instructions.drop_last());
        lemma_fixed_instruction_obeys_constraints(instructions.last());
        let a = spec_fix_instructions(instructions.drop_last());
        let b = spec_fix_instruction(instructions.last());
        assert forall|i: int| 0 <= i < (a + b).len() implies obeys_operand_constraints(#[trigger] (a + b)[i]) by {
            if i < a.len() {
                assert((a + b)[i] == a[i]);
            } else {
                assert((a + b)[i] == b[i - a.len()]);
            }
        }
    }
}

/// An instruction that already obeys the constraints and is not an `imul` whose
/// destination is on the stack is left as it is.
pub proof fn lemma_fix_keeps_obeying_instruction(instruction: assembly::Instruction)
    requires
        obeys_operand_constraints(instruction),
    ensures
        spec_fix_instruction(instruction) == seq![instruction],
{
}

} // verus!
