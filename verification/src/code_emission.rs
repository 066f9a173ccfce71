//! Emits the text of an assembly program in AT&T syntax.
use vstd::prelude::*;
use vstd::string::*;

use crate::assembly;
use crate::text::{int_decimal, int_to_string};

verus! {

pub enum RegisterWidth {
    Bits64,
    Bits32,
    Bits8,
}

pub open spec fn register_text(register: assembly::Register, width: RegisterWidth) -> Seq<char> {
    match width {
        RegisterWidth::Bits64 => match register {
            assembly::Register::AX => "%rax"@,
            assembly::Register::CX => "%rcx"@,
            assembly::Register::DX => "%rdx"@,
            assembly::Register::DI => "%rdi"@,
            assembly::Register::SI => "%rsi"@,
            assembly::Register::R8 => "%r8"@,
            assembly::Register::R9 => "%r9"@,
            assembly::Register::R10 => "%r10"@,
            assembly::Register::R11 => "%r11"@,
        },
        RegisterWidth::Bits32 => match register {
            assembly::Register::AX => "%eax"@,
            assembly::Register::CX => "%ecx"@,
            assembly::Register::DX => "%edx"@,
            assembly::Register::DI => "%edi"@,
            assembly::Register::SI => "%esi"@,
            assembly::Register::R8 => "%r8d"@,
            assembly::Register::R9 => "%r9d"@,
            assembly::Register::R10 => "%r10d"@,
            assembly::Register::R11 => "%r11d"@,
        },
        RegisterWidth::Bits8 => match register {
            assembly::Register::AX => "%al"@,
            assembly::Register::CX => "%cl"@,
            assembly::Register::DX => "%dl"@,
            assembly::Register::DI => "%dil"@,
            assembly::Register::SI => "%sil"@,
            assembly::Register::R8 => "%r8b"@,
            assembly::Register::R9 => "%r9b"@,
            assembly::Register::R10 => "%r10b"@,
            assembly::Register::R11 => "%r11b"@,
        },
    }
}

pub open spec fn operand_text(operand: assembly::Operand, width: RegisterWidth) -> Seq<char> {
    match operand {
        assembly::Operand::Imm(i) => "$"@ + int_decimal(i as int),
        assembly::Operand::Stack(i) => int_decimal(i as int) + "(%rbp)"@,
        assembly::Operand::Register(register) => register_text(register, width),
        assembly::Operand::Pseudo(_) => seq![],
    }
}

pub open spec fn unary_op_text(op: assembly::UnaryOp) -> Seq<char> {
    match op {
        assembly::UnaryOp::Neg => "negl"@,
        assembly::UnaryOp::Not => "notl"@,
    }
}

pub open spec fn binary_op_text(op: assembly::BinaryOp) -> Seq<char> {
    match op {
        assembly::BinaryOp::Add => "addl"@,
        assembly::BinaryOp::Sub => "subl"@,
        assembly::BinaryOp::Mult => "imull"@,
    }
}

pub open spec fn condition_text(code: assembly::ConditionalCode) -> Seq<char> {
    match code {
        assembly::ConditionalCode::E => "e"@,
        assembly::ConditionalCode::NE => "ne"@,
        assembly::ConditionalCode::G => "g"@,
        assembly::ConditionalCode::GE => "ge"@,
        assembly::ConditionalCode::L => "l"@,
        assembly::ConditionalCode::LE => "le"@,
    }
}

/// The text of one instruction, without indentation or line break.
pub open spec fn instruction_text(instruction: assembly::Instruction) -> Seq<char> {
    match instruction {
        assembly::Instruction::Move { src, dst } => "movl    "@ + operand_text(src, RegisterWidth::Bits32)
            + ", "@ + operand_text(dst, RegisterWidth::Bits32),
        assembly::Instruction::Ret => "movq    %rbp, %rsp\n    popq    %rbp\n    ret"@,
        assembly::Instruction::Unary { op, operand } => unary_op_text(op) + "    "@ + operand_text(
            operand,
            RegisterWidth::Bits32,
        ),
        assembly::Instruction::AllocateStack(i) => "subq    $"@ + int_decimal(i as int) + ", %rsp"@,
        assembly::Instruction::Binary { op, left, right } => binary_op_text(op) + "    "@
            + operand_text(left, RegisterWidth::Bits32) + ", "@ + operand_text(right, RegisterWidth::Bits32),
        assembly::Instruction::Idiv(operand) => "idivl    "@ + operand_text(operand, RegisterWidth::Bits32),
        assembly::Instruction::Cdq => "cdq"@,
        assembly::Instruction::Cmp { left, right } => "cmpl    "@ + operand_text(left, RegisterWidth::Bits32)
            + ", "@ + operand_text(right, RegisterWidth::Bits32),
        assembly::Instruction::Jmp(l) => "jmp    .L"@ + l@,
        assembly::Instruction::JmpCC { cond_code, target } => "j"@ + condition_text(cond_code) + "    .L"@
            + target@,
        assembly::Instruction::SetCC { cond_code, operand } => "set"@ + condition_text(cond_code) + "    "@
            + operand_text(operand, RegisterWidth::Bits8),
        assembly::Instruction::Label(l) => ".L"@ + l@ + ":"@,
        assembly::Instruction::DeallocateStack(i) => "addq    $"@ + int_decimal(i as int) + ", %rsp"@,
        assembly::Instruction::Push(operand) => "pushq    "@ + operand_text(operand, RegisterWidth::Bits64),
        assembly::Instruction::Call(label) => "call "@ + label@ + "@PLT"@,
    }
}

pub open spec fn instructions_text(instructions: Seq<assembly::Instruction>) -> Seq<char>
    decreases instructions.len(),
{
    if instructions.len() == 0 {
        seq![]
    } else {
        instructions_text(instructions.drop_last()) + "    "@ + instruction_text(instructions.last()) + "\n"@
    }
}

pub open spec fn function_text(function: assembly::Function) -> Seq<char> {
    "    .globl "@ + function.name@ + "\n  "@ + function.name@ + ":\n    pushq   %rbp\n    movq    %rsp, %rbp\n"@
        + instructions_text(function.instructions@) + "\n"@
}

pub open spec fn functions_text(functions: Seq<assembly::Function>) -> Seq<char>
    decreases functions.len(),
{
    if functions.len() == 0 {
        seq![]
    } else {
        functions_text(functions.drop_last()) + function_text(functions.last())
    }
}

/// The text of a whole program: its functions, then the section note that marks
/// the stack as not executable.
pub open spec fn program_text(program: assembly::Program) -> Seq<char> {
    functions_text(program.functions@) + "    .section .note.GNU-stack,\"\",@progbits"@
}

/// No operand of the instruction is a pseudo register.
pub open spec fn instruction_has_no_pseudo(instruction: assembly::Instruction) -> bool {
    match instruction {
        assembly::Instruction::Move { src, dst } => src !is Pseudo && dst !is Pseudo,
        assembly::Instruction::Unary { operand, .. } => operand !is Pseudo,
        assembly::Instruction::Binary { left, right, .. } => left !is Pseudo && right !is Pseudo,
        assembly::Instruction::Idiv(operand) => operand !is Pseudo,
        assembly::Instruction::Cmp { left, right } => left !is Pseudo && right !is Pseudo,
        assembly::Instruction::SetCC { operand, .. } => operand !is Pseudo,
        assembly::Instruction::Push(operand) => operand !is Pseudo,
        _ => true,
    }
}

pub open spec fn function_has_no_pseudo(function: assembly::Function) -> bool {
    forall|i: int| 0 <= i < function.instructions@.len() ==> instruction_has_no_pseudo(#[trigger] function.instructions@[i])
}

pub open spec fn program_has_no_pseudo(program: assembly::Program) -> bool {
    forall|i: int| 0 <= i < program.functions@.len() ==> function_has_no_pseudo(#[trigger] program.functions@[i])
}

pub fn emit(program: assembly::Program) -> (result: String)
    requires
        program_has_no_pseudo(program),
    ensures
        result@ == program_text(program),
{
    let mut buffer = String::new();
    let ghost functions = program.functions@;
    for f in it: program.functions
        invariant
            it.seq() == functions,
            forall|i: int| 0 <= i < functions.len() ==> function_has_no_pseudo(#[trigger] functions[i]),
            buffer@ == functions_text(functions.take(it.index() as int)),
    {
        let ghost k = it.index() as int;
        assert(function_has_no_pseudo(functions[k]));
        let text = emit_function(f);
        buffer.append(text.as_str());
        proof {
            assert(functions.take(k + 1).drop_last() =~= functions.take(k));
        }
    }
    proof {
        assert(functions.take(functions.len() as int) =~= functions);
    }
    buffer.append("    .section .note.GNU-stack,\"\",@progbits");
    buffer
}

fn emit_function(fun: assembly::Function) -> (result: String)
    requires
        function_has_no_pseudo(fun),
    ensures
        result@ == function_text(fun),
{
    let mut text = String::new();
    text.append("    .globl ");
    text.append(fun.name.as_str());
    text.append("\n  ");
    text.append(fun.name.as_str());
    text.append(":\n    pushq   %rbp\n    movq    %rsp, %rbp\n");
    let body = emit_instructions(fun.instructions);
    text.append(body.as_str());
    text.append("\n");
    text
}

fn emit_instructions(instructions: Vec<assembly::Instruction>) -> (result: String)
    requires
        forall|i: int| 0 <= i < instructions@.len() ==> instruction_has_no_pseudo(#[trigger] instructions@[i]),
    ensures
        result@ == instructions_text(instructions@),
{
    let mut b = String::new();
    let ghost all = instructions@;
    for instruction in it: instructions
        invariant
            it.seq() == all,
            forall|i: int| 0 <= i < all.len() ==> instruction_has_no_pseudo(#[trigger] all[i]),
            b@ == instructions_text(all.take(it.index() as int)),
    {
        let ghost k = it.index() as int;
        assert(instruction_has_no_pseudo(all[k]));
        let s = emit_instruction(instruction);
        b.append("    ");
        b.append(s.as_str());
        b.append("\n");
        proof {
            assert(all.take(k + 1).drop_last() =~= all.take(k));
        }
    }
    proof {
        assert(all.take(all.len() as int) =~= all);
    }
    b
}

fn emit_instruction(instruction: assembly::Instruction) -> (result: String)
    requires
        instruction_has_no_pseudo(instruction),
    ensures
        result@ == instruction_text(instruction),
{
    let mut s = String::new();
    match instruction {
        assembly::Instruction::Move { src, dst } => {
            s.append("movl    ");
            s.append(emit_operand(src, RegisterWidth::Bits32).as_str());
            s.append(", ");
            s.append(emit_operand(dst, RegisterWidth::Bits32).as_str());
        },
        assembly::Instruction::Ret => {
            s.append("movq    %rbp, %rsp\n    popq    %rbp\n    ret");
        },
        assembly::Instruction::Unary { op, operand } => {
            s.append(emit_unary_op(op).as_str());
            s.append("    ");
            s.append(emit_operand(operand, RegisterWidth::Bits32).as_str());
        },
        assembly::Instruction::AllocateStack(i) => {
            s.append("subq    $");
            s.append(int_to_string(i).as_str());
            s.append(", %rsp");
        },
        assembly::Instruction::Binary { op, left, right } => {
            s.append(emit_binary_op(op).as_str());
            s.append("    ");
            s.append(emit_operand(left, RegisterWidth::Bits32).as_str());
            s.append(", ");
            s.append(emit_operand(right, RegisterWidth::Bits32).as_str());
        },
        assembly::Instruction::Idiv(operand) => {
            s.append("idivl    ");
            s.append(emit_operand(operand, RegisterWidth::Bits32).as_str());
        },
        assembly::Instruction::Cdq => {
            s.append("cdq");
        },
        assembly::Instruction::Cmp { left, right } => {
            s.append("cmpl    ");
            s.append(emit_operand(left, RegisterWidth::Bits32).as_str());
            s.append(", ");
            s.append(emit_operand(right, RegisterWidth::Bits32).as_str());
        },
        assembly::Instruction::Jmp(l) => {
            s.append("jmp    .L");
            s.append(l.as_str());
        },
        assembly::Instruction::JmpCC { cond_code, target } => {
            s.append("j");
            s.append(emit_conditional_code(cond_code).as_str());
            s.append("    .L");
            s.append(target.as_str());
        },
        assembly::Instruction::SetCC { cond_code, operand } => {
            s.append("set");
            s.append(emit_conditional_code(cond_code).as_str());
            s.append("    ");
            s.append(emit_operand(operand, RegisterWidth::Bits8).as_str());
        },
        assembly::Instruction::Label(l) => {
            s.append(".L");
            s.append(l.as_str());
            s.append(":");
        },
        assembly::Instruction::DeallocateStack(i) => {
            s.append("addq    $");
            s.append(int_to_string(i).as_str());
            s.append(", %rsp");
        },
        assembly::Instruction::Push(operand) => {
            s.append("pushq    ");
            s.append(emit_operand(operand, RegisterWidth::Bits64).as_str());
        },
        assembly::Instruction::Call(label) => {
            s.append("call ");
            s.append(label.as_str());
            s.append("@PLT");
        },
    }
    s
}

fn emit_operand(operand: assembly::Operand, register_width: RegisterWidth) -> (result: String)
    requires
        operand !is Pseudo,
    ensures
        result@ == operand_text(operand, register_width),
{
    let mut s = String::new();
    match operand {
        assembly::Operand::Imm(i) => {
            s.append("$");
            s.append(int_to_string(i).as_str());
        },
        assembly::Operand::Stack(i) => {
            s.append(int_to_string(i).as_str());
            s.append("(%rbp)");
        },
        assembly::Operand::Register(register) => {
            s.append(register_name(register, register_width));
        },
        assembly::Operand::Pseudo(_) => {},
    }
    s
}

fn register_name(register: assembly::Register, register_width: RegisterWidth) -> (result: &'static str)
    ensures
        result@ == register_text(register, register_width),
{
    match register_width {
        RegisterWidth::Bits64 => match register {
            assembly::Register::AX => "%rax",
            assembly::Register::CX => "%rcx",
            assembly::Register::DX => "%rdx",
            assembly::Register::DI => "%rdi",
            assembly::Register::SI => "%rsi",
            assembly::Register::R8 => "%r8",
            assembly::Register::R9 => "%r9",
            assembly::Register::R10 => "%r10",
            assembly::Register::R11 => "%r11",
        },
        RegisterWidth::Bits32 => match register {
            assembly::Register::AX => "%eax",
            assembly::Register::CX => "%ecx",
            assembly::Register::DX => "%edx",
            assembly::Register::DI => "%edi",
            assembly::Register::SI => "%esi",
            assembly::Register::R8 => "%r8d",
            assembly::Register::R9 => "%r9d",
            assembly::Register::R10 => "%r10d",
            assembly::Register::R11 => "%r11d",
        },
        RegisterWidth::Bits8 => match register {
            assembly::Register::AX => "%al",
            assembly::Register::CX => "%cl",
            assembly::Register::DX => "%dl",
            assembly::Register::DI => "%dil",
            assembly::Register::SI => "%sil",
            assembly::Register::R8 => "%r8b",
            assembly::Register::R9 => "%r9b",
            assembly::Register::R10 => "%r10b",
            assembly::Register::R11 => "%r11b",
        },
    }
}

fn emit_unary_op(op: assembly::UnaryOp) -> (result: String)
    ensures
        result@ == unary_op_text(op),
{
    let mut s = String::new();
    match op {
        assembly::UnaryOp::Neg => s.append("negl"),
        assembly::UnaryOp::Not => s.append("notl"),
    }
    s
}

fn emit_binary_op(op: assembly::BinaryOp) -> (result: String)
    ensures
        result@ == binary_op_text(op),
{
    let mut s = String::new();
    s.append(
        match op {
            assembly::BinaryOp::Add => "addl",
            assembly::BinaryOp::Sub => "subl",
            assembly::BinaryOp::Mult => "imull",
        },
    );
    s
}

fn emit_conditional_code(code: assembly::ConditionalCode) -> (result: String)
    ensures
        result@ == condition_text(code),
{
    let mut s = String::new();
    s.append(
        match code {
            assembly::ConditionalCode::E => "e",
            assembly::ConditionalCode::NE => "ne",
            assembly::ConditionalCode::G => "g",
            assembly::ConditionalCode::GE => "ge",
            assembly::ConditionalCode::L => "l",
            assembly::ConditionalCode::LE => "le",
        },
    );
    s
}

} // verus!
