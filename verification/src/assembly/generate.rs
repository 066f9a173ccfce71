//! The back end as one pass: translation of TACKY to assembly, replacement of
//! pseudo registers by stack slots and instruction fix-up, in that order; and
//! what the three together guarantee of their output.
use vstd::prelude::*;

use crate::assembly;
use crate::assembly::fix_instruction::{
    is_fixed_function, lemma_fixed_instructions_obey_constraints, obeys_operand_constraints, spec_fix_instruction,
    spec_fix_instructions,
};
use crate::assembly::replace_pseudo::{fits_stack, is_replaced_function, replace_instruction_with, stack_slots};
use crate::assembly::translate::{
    function_fits, is_translated_function, param_moves, push_arg, push_stack_args, spec_translate_call,
    spec_translate_instruction, spec_translate_instructions,
};
use crate::code_emission::{function_has_no_pseudo, instruction_has_no_pseudo, program_has_no_pseudo};
use crate::tacky;

verus! {

/// A `push` of a pseudo register, which replacement leaves as it is.
pub open spec fn pushes_pseudo(instruction: assembly::Instruction) -> bool {
    instruction matches assembly::Instruction::Push(assembly::Operand::Pseudo(_))
}

pub open spec fn pushes_no_pseudo(instructions: Seq<assembly::Instruction>) -> bool {
    forall|i: int| 0 <= i < instructions.len() ==> !pushes_pseudo(#[trigger] instructions[i])
}

pub open spec fn all_obey_constraints(instructions: Seq<assembly::Instruction>) -> bool {
    forall|i: int| 0 <= i < instructions.len() ==> obeys_operand_constraints(#[trigger] instructions[i])
}

proof fn lemma_pushes_no_pseudo_concat(a: Seq<assembly::Instruction>, b: Seq<assembly::Instruction>)
    requires
        pushes_no_pseudo(a),
        pushes_no_pseudo(b),
    ensures
        pushes_no_pseudo(a + b),
{
    assert forall|i: int| 0 <= i < (a + b).len() implies !pushes_pseudo(#[trigger] (a + b)[i]) by {
        if i < a.len() {
            assert((a + b)[i] == a[i]);
        } else {
            assert((a + b)[i] == b[i - a.len()]);
        }
    }
}

proof fn lemma_stack_args_push_no_pseudo(args: Seq<tacky::Val>)
    ensures
        pushes_no_pseudo(push_stack_args(args)),
    decreases args.len(),
{
    if args.len() > 0 {
        lemma_stack_args_push_no_pseudo(args.drop_last());
        lemma_pushes_no_pseudo_concat(push_arg(args.last()), push_stack_args(args.drop_last()));
    }
}

proof fn lemma_instruction_pushes_no_pseudo(instruction: tacky::Instruction)
    ensures
        pushes_no_pseudo(spec_translate_instruction(instruction)),
{
    match instruction {
        tacky::Instruction::FunCall { fun_name, args, dst } => {
            let k = crate::assembly::translate::register_arg_count(args@.len() as int);
            let stack_args = args@.skip(k);
            lemma_stack_args_push_no_pseudo(stack_args);
            let padding = crate::assembly::translate::stack_padding(stack_args.len() as int);
            let bytes = 8 * stack_args.len() + padding;
            let a = if padding != 0 {
                seq![assembly::Instruction::AllocateStack(padding as i32)]
            } else {
                seq![]
            };
            let moves = crate::assembly::translate::register_arg_moves(args@.take(k));
            let d = if bytes != 0 {
                seq![assembly::Instruction::DeallocateStack(bytes as i32)]
            } else {
                seq![]
            };
            let call = seq![assembly::Instruction::Call(fun_name)];
            let last = seq![
                assembly::Instruction::Move {
                    src: crate::assembly::translate::reg(assembly::Register::AX),
                    dst: crate::assembly::translate::operand_of(dst),
                },
            ];
            lemma_pushes_no_pseudo_concat(a, moves);
            lemma_pushes_no_pseudo_concat(a + moves, push_stack_args(stack_args));
            lemma_pushes_no_pseudo_concat(a + moves + push_stack_args(stack_args), call);
            lemma_pushes_no_pseudo_concat(a + moves + push_stack_args(stack_args) + call, d);
            lemma_pushes_no_pseudo_concat(a + moves + push_stack_args(stack_args) + call + d, last);
            assert(spec_translate_call(fun_name, args@, dst) == a + moves + push_stack_args(stack_args) + call + d
                + last);
        },
        _ => {},
    }
}

proof fn lemma_instructions_push_no_pseudo(instructions: Seq<tacky::Instruction>)
    ensures
        pushes_no_pseudo(spec_translate_instructions(instructions)),
    decreases instructions.len(),
{
    if instructions.len() > 0 {
        lemma_instructions_push_no_pseudo(instructions.drop_last());
        lemma_instruction_pushes_no_pseudo(instructions.last());
        lemma_pushes_no_pseudo_concat(
            spec_translate_instructions(instructions.drop_last()),
            spec_translate_instruction(instructions.last()),
        );
    }
}

/// Translation never pushes a pseudo register: a stack argument held in one
/// goes through `AX` first.
pub proof fn lemma_translation_pushes_no_pseudo(function: tacky::Function, translated: assembly::Function)
    requires
        is_translated_function(function, translated),
    ensures
        pushes_no_pseudo(translated.instructions@),
{
    lemma_instructions_push_no_pseudo(function.body@);
    lemma_pushes_no_pseudo_concat(param_moves(function.params@), spec_translate_instructions(function.body@));
}

/// After replacement no operand is a pseudo register, provided none was pushed.
pub proof fn lemma_replacement_leaves_no_pseudo(function: assembly::Function, replaced: assembly::Function)
    requires
        is_replaced_function(function, replaced),
        pushes_no_pseudo(function.instructions@),
    ensures
        function_has_no_pseudo(replaced),
{
    assert forall|i: int| 0 <= i < replaced.instructions@.len() implies instruction_has_no_pseudo(
        #[trigger] replaced.instructions@[i],
    ) by {
        assert(!pushes_pseudo(function.instructions@[i]));
    }
}

proof fn lemma_fix_instruction_keeps_no_pseudo(instruction: assembly::Instruction)
    requires
        instruction_has_no_pseudo(instruction),
    ensures
        forall|i: int|
            0 <= i < spec_fix_instruction(instruction).len() ==> instruction_has_no_pseudo(
                #[trigger] spec_fix_instruction(instruction)[i],
            ),
{
}

proof fn lemma_fix_instructions_keep_no_pseudo(instructions: Seq<assembly::Instruction>)
    requires
        forall|i: int| 0 <= i < instructions.len() ==> instruction_has_no_pseudo(#[trigger] instructions[i]),
    ensures
        forall|i: int|
            0 <= i < spec_fix_instructions(instructions).len() ==> instruction_has_no_pseudo(
                #[trigger] spec_fix_instructions(instructions)[i],
            ),
    decreases instructions.len(),
{
    if instructions.len() > 0 {
        lemma_fix_instructions_keep_no_pseudo(instructions.drop_last());
        lemma_fix_instruction_keeps_no_pseudo(instructions.last());
        let a = spec_fix_instructions(instructions.drop_last());
        let b = spec_fix_instruction(instructions.last());
        assert forall|i: int| 0 <= i < (a + b).len() implies instruction_has_no_pseudo(#[trigger] (a + b)[i]) by {
            if i < a.len() {
                assert((a + b)[i] == a[i]);
            } else {
                assert((a + b)[i] == b[i - a.len()]);
            }
        }
    }
}

/// Fix-up brings in no pseudo register: it only adds moves through `R10` and
/// `R11` and the stack allocation.
pub proof fn lemma_fix_keeps_no_pseudo(function: assembly::Function, fixed: assembly::Function)
    requires
        is_fixed_function(function, fixed),
        function_has_no_pseudo(function),
    ensures
        function_has_no_pseudo(fixed),
{
    lemma_fix_instructions_keep_no_pseudo(function.instructions@);
    let rest = spec_fix_instructions(function.instructions@);
    assert forall|i: int| 0 <= i < fixed.instructions@.len() implies instruction_has_no_pseudo(
        #[trigger] fixed.instructions@[i],
    ) by {
        if i > 0 {
            assert(fixed.instructions@[i] == rest[i - 1]);
        }
    }
}

/// Every instruction of a fixed-up function obeys the operand constraints.
pub proof fn lemma_fixed_function_obeys_constraints(function: assembly::Function, fixed: assembly::Function)
    requires
        is_fixed_function(function, fixed),
    ensures
        all_obey_constraints(fixed.instructions@),
{
    lemma_fixed_instructions_obey_constraints(function.instructions@);
    let rest = spec_fix_instructions(function.instructions@);
    assert forall|i: int| 0 <= i < fixed.instructions@.len() implies obeys_operand_constraints(
        #[trigger] fixed.instructions@[i],
    ) by {
        if i > 0 {
            assert(fixed.instructions@[i] == rest[i - 1]);
        }
    }
}

/// Why a TACKY program has no assembly translation: its stack offsets would
/// not fit in an `i32`.
#[derive(Debug)]
pub enum CodegenError {
    /// A function with `0x0800_0000` parameters or more, or a call with as many
    /// arguments.
    FrameTooLarge,
    /// A function whose translation has `0x1000_0000` instructions or more, so
    /// many that its pseudo registers could outnumber the stack slots.
    FunctionTooLong,
}

/// The assembly that translation makes of a TACKY function: the moves of the
/// parameters, then the translation of each instruction.
pub open spec fn translated_body(function: tacky::Function) -> Seq<assembly::Instruction> {
    param_moves(function.params@) + spec_translate_instructions(function.body@)
}

/// A body with each pseudo register replaced by its stack slot.
pub open spec fn replaced_body(body: Seq<assembly::Instruction>) -> Seq<assembly::Instruction> {
    Seq::new(body.len(), |i: int| replace_instruction_with(body[i], stack_slots(body)))
}

/// `generated` is what the back end makes of `function`: translated, its pseudo
/// registers replaced by stack slots of four bytes each, the stack allocated
/// and every instruction fixed up.
pub open spec fn is_generated_function(function: tacky::Function, generated: assembly::Function) -> bool {
    let body = translated_body(function);
    &&& generated.name == function.identifier
    &&& generated.stack_size == 4 * stack_slots(body).len()
    &&& generated.instructions@ == seq![assembly::Instruction::AllocateStack(generated.stack_size)]
        + spec_fix_instructions(replaced_body(body))
}

fn function_fits_exec(function: &tacky::Function) -> (result: bool)
    ensures
        result == function_fits(*function),
{
    if function.params.len() >= 0x0800_0000 {
        return false;
    }
    let mut k: usize = 0;
    while k < function.body.len()
        invariant
            k <= function.body.len(),
            forall|i: int| 0 <= i < k ==> crate::assembly::translate::instruction_fits(#[trigger] function.body@[i]),
        decreases function.body.len() - k,
    {
        match &function.body[k] {
            tacky::Instruction::FunCall { args, .. } => {
                if args.len() >= 0x0800_0000 {
                    return false;
                }
            },
            _ => {},
        }
        k = k + 1;
    }
    true
}

/// Translates a TACKY program to assembly, replaces its pseudo registers and
/// fixes up its instructions. What comes out names no pseudo register, so that
/// it can be emitted, and every instruction obeys the operand constraints.
pub fn generate(program: tacky::Program) -> (result: Result<assembly::Program, CodegenError>)
    ensures
        match result {
            Ok(generated) => {
                &&& generated.functions@.len() == program.functions@.len()
                &&& forall|i: int|
                    0 <= i < program.functions@.len() ==> is_generated_function(
                        program.functions@[i],
                        #[trigger] generated.functions@[i],
                    )
                &&& program_has_no_pseudo(generated)
                &&& forall|i: int|
                    0 <= i < generated.functions@.len() ==> all_obey_constraints(
                        #[trigger] generated.functions@[i].instructions@,
                    )
            },
            Err(CodegenError::FrameTooLarge) => exists|i: int|
                0 <= i < program.functions@.len() && !function_fits(#[trigger] program.functions@[i]),
            Err(CodegenError::FunctionTooLong) => {
                &&& forall|i: int| 0 <= i < program.functions@.len() ==> function_fits(#[trigger] program.functions@[i])
                &&& exists|i: int|
                    0 <= i < program.functions@.len() && #[trigger] translated_body(program.functions@[i]).len()
                        >= 0x1000_0000
            },
        },
{
    let ghost functions = program.functions@;
    let mut i: usize = 0;
    while i < program.functions.len()
        invariant
            i <= program.functions.len(),
            forall|j: int| 0 <= j < i ==> function_fits(#[trigger] program.functions@[j]),
        decreases program.functions.len() - i,
    {
        if !function_fits_exec(&program.functions[i]) {
            return Err(CodegenError::FrameTooLarge);
        }
        i = i + 1;
    }
    let translated = crate::assembly::translate_program(program);
    let mut j: usize = 0;
    while j < translated.functions.len()
        invariant
            j <= translated.functions.len(),
            functions == program.functions@,
            translated.functions@.len() == functions.len(),
            forall|k: int| 0 <= k < functions.len() ==> function_fits(#[trigger] functions[k]),
            forall|k: int| 0 <= k < functions.len() ==> is_translated_function(functions[k], #[trigger] translated.functions@[k]),
            forall|k: int| 0 <= k < j ==> fits_stack(#[trigger] translated.functions@[k]),
        decreases translated.functions.len() - j,
    {
        if translated.functions[j].instructions.len() >= 0x1000_0000 {
            proof {
                assert(translated.functions@[j as int].instructions@ == translated_body(functions[j as int]));
                assert(translated_body(program.functions@[j as int]).len() >= 0x1000_0000);
            }
            return Err(CodegenError::FunctionTooLong);
        }
        proof {
            crate::assembly::replace_pseudo::lemma_stack_slots_len(translated.functions@[j as int].instructions@);
        }
        j = j + 1;
    }
    let ghost translated_functions = translated.functions@;
    let replaced = crate::assembly::replace_pseudo_registers(translated);
    let ghost replaced_functions = replaced.functions@;
    let fixed = crate::assembly::fix_program(replaced);
    proof {
        assert forall|k: int| 0 <= k < functions.len() implies is_generated_function(
            functions[k],
            #[trigger] fixed.functions@[k],
        ) && function_has_no_pseudo(fixed.functions@[k]) && all_obey_constraints(fixed.functions@[k].instructions@) by {
            let t = translated_functions[k];
            let r = replaced_functions[k];
            let g = fixed.functions@[k];
            lemma_translation_pushes_no_pseudo(functions[k], t);
            lemma_replacement_leaves_no_pseudo(t, r);
            lemma_fix_keeps_no_pseudo(r, g);
            lemma_fixed_function_obeys_constraints(r, g);
            assert(r.instructions@ =~= replaced_body(t.instructions@));
        }
    }
    Ok(fixed)
}

} // verus!
