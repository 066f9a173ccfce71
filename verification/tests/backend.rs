use crust::assembly::generate::generate;
use crust::assembly::translate::translate_instruction;
use crust::assembly::{
    fix_program, replace_pseudo_registers, translate_program, BinaryOp, Function, Instruction, Operand, Program,
    Register,
};
use crust::code_emission::emit;
use crust::tacky;

fn shown(instructions: &[Instruction]) -> Vec<String> {
    instructions.iter().map(|i| format!("{:?}", i)).collect()
}

fn var(name: &str) -> tacky::Val {
    tacky::Val::Var(name.to_string())
}

fn tacky_function(params: Vec<&str>, body: Vec<tacky::Instruction>) -> tacky::Program {
    tacky::Program {
        functions: vec![tacky::Function {
            identifier: "f".to_string(),
            params: params.into_iter().map(|p| p.to_string()).collect(),
            body,
        }],
    }
}

fn pseudo(name: &str) -> Operand {
    Operand::Pseudo(name.to_string())
}

#[test]
fn translate_unary_and_binary() {
    let program = translate_program(tacky_function(
        vec![],
        vec![
            tacky::Instruction::Unary { op: tacky::UnaryOp::Negate, src: tacky::Val::Constant(5), dst: var("a") },
            tacky::Instruction::Unary { op: tacky::UnaryOp::Not, src: var("a"), dst: var("b") },
            tacky::Instruction::Binary {
                op: tacky::BinaryOp::Divide,
                left: var("a"),
                right: var("b"),
                dst: var("c"),
            },
            tacky::Instruction::Binary {
                op: tacky::BinaryOp::Remainder,
                left: var("a"),
                right: tacky::Val::Constant(3),
                dst: var("c"),
            },
            tacky::Instruction::Binary {
                op: tacky::BinaryOp::LessThan,
                left: var("a"),
                right: var("b"),
                dst: var("c"),
            },
            tacky::Instruction::Binary {
                op: tacky::BinaryOp::Subtract,
                left: var("a"),
                right: var("b"),
                dst: var("c"),
            },
        ],
    ));
    let f = &program.functions[0];
    assert_eq!(f.name, "f");
    assert_eq!(f.stack_size, 0);
    assert_eq!(
        shown(&f.instructions),
        vec![
            "Move { src: Imm(5), dst: Pseudo(\"a\") }",
            "Unary { op: Neg, operand: Pseudo(\"a\") }",
            "Cmp { left: Imm(0), right: Pseudo(\"a\") }",
            "Move { src: Imm(0), dst: Pseudo(\"b\") }",
            "SetCC { cond_code: E, operand: Pseudo(\"b\") }",
            "Move { src: Pseudo(\"a\"), dst: Register(AX) }",
            "Cdq",
            "Idiv(Pseudo(\"b\"))",
            "Move { src: Register(AX), dst: Pseudo(\"c\") }",
            "Move { src: Pseudo(\"a\"), dst: Register(AX) }",
            "Cdq",
            "Idiv(Imm(3))",
            "Move { src: Register(DX), dst: Pseudo(\"c\") }",
            "Cmp { left: Pseudo(\"b\"), right: Pseudo(\"a\") }",
            "Move { src: Imm(0), dst: Pseudo(\"c\") }",
            "SetCC { cond_code: L, operand: Pseudo(\"c\") }",
            "Move { src: Pseudo(\"a\"), dst: Pseudo(\"c\") }",
            "Binary { op: Sub, left: Pseudo(\"b\"), right: Pseudo(\"c\") }",
        ]
    );
}

#[test]
fn translate_parameters_and_calls() {
    let args: Vec<tacky::Val> = (1..=7).map(tacky::Val::Constant).collect();
    let program = translate_program(tacky_function(
        vec!["p0", "p1", "p2", "p3", "p4", "p5", "p6"],
        vec![tacky::Instruction::FunCall { fun_name: "g".to_string(), args, dst: var("r") }],
    ));
    assert_eq!(
        shown(&program.functions[0].instructions),
        vec![
            "Move { src: Register(DI), dst: Pseudo(\"p0\") }",
            "Move { src: Register(SI), dst: Pseudo(\"p1\") }",
            "Move { src: Register(DX), dst: Pseudo(\"p2\") }",
            "Move { src: Register(CX), dst: Pseudo(\"p3\") }",
            "Move { src: Register(R8), dst: Pseudo(\"p4\") }",
            "Move { src: Register(R9), dst: Pseudo(\"p5\") }",
            "Move { src: Stack(16), dst: Pseudo(\"p6\") }",
            "AllocateStack(8)",
            "Move { src: Imm(1), dst: Register(DI) }",
            "Move { src: Imm(2), dst: Register(SI) }",
            "Move { src: Imm(3), dst: Register(DX) }",
            "Move { src: Imm(4), dst: Register(CX) }",
            "Move { src: Imm(5), dst: Register(R8) }",
            "Move { src: Imm(6), dst: Register(R9) }",
            "Push(Imm(7))",
            "Call(\"g\")",
            "DeallocateStack(16)",
            "Move { src: Register(AX), dst: Pseudo(\"r\") }",
        ]
    );
}

#[test]
fn translate_pushes_memory_arguments_through_ax() {
    let args: Vec<tacky::Val> = vec![
        var("a"),
        var("b"),
        var("c"),
        var("d"),
        var("e"),
        var("f"),
        var("g"),
        tacky::Val::Constant(8),
    ];
    let program = translate_program(tacky_function(
        vec![],
        vec![tacky::Instruction::FunCall { fun_name: "h".to_string(), args, dst: var("r") }],
    ));
    let instructions = shown(&program.functions[0].instructions);
    assert_eq!(
        instructions[6..],
        [
            "Push(Imm(8))",
            "Move { src: Pseudo(\"g\"), dst: Register(AX) }",
            "Push(Register(AX))",
            "Call(\"h\")",
            "DeallocateStack(16)",
            "Move { src: Register(AX), dst: Pseudo(\"r\") }",
        ]
    );
}

#[test]
fn replace_gives_each_pseudo_register_its_own_slot() {
    let program = Program {
        functions: vec![Function {
            name: "f".to_string(),
            instructions: vec![
                Instruction::Move { src: pseudo("a"), dst: pseudo("b") },
                Instruction::Move { src: pseudo("a"), dst: Operand::Register(Register::AX) },
                Instruction::Binary { op: BinaryOp::Add, left: pseudo("c"), right: pseudo("b") },
                Instruction::Ret,
            ],
            stack_size: 0,
        }],
    };
    let replaced = replace_pseudo_registers(program);
    let f = &replaced.functions[0];
    assert_eq!(f.stack_size, 12);
    assert_eq!(
        shown(&f.instructions),
        vec![
            "Move { src: Stack(-4), dst: Stack(-8) }",
            "Move { src: Stack(-4), dst: Register(AX) }",
            "Binary { op: Add, left: Stack(-12), right: Stack(-8) }",
            "Ret",
        ]
    );
}

#[test]
fn replace_numbers_slots_per_function() {
    let function = |name: &str| Function {
        name: name.to_string(),
        instructions: vec![Instruction::Move { src: Operand::Imm(1), dst: pseudo("x") }],
        stack_size: 0,
    };
    let replaced = replace_pseudo_registers(Program { functions: vec![function("f"), function("g")] });
    for f in &replaced.functions {
        assert_eq!(f.stack_size, 4);
        assert_eq!(shown(&f.instructions), vec!["Move { src: Imm(1), dst: Stack(-4) }"]);
    }
}

#[test]
fn fix_rewrites_operands_that_do_not_go_together() {
    let program = Program {
        functions: vec![Function {
            name: "f".to_string(),
            instructions: vec![
                Instruction::Move { src: Operand::Stack(-4), dst: Operand::Stack(-8) },
                Instruction::Binary { op: BinaryOp::Add, left: Operand::Stack(-4), right: Operand::Stack(-8) },
                Instruction::Binary { op: BinaryOp::Mult, left: Operand::Imm(3), right: Operand::Stack(-8) },
                Instruction::Idiv(Operand::Imm(3)),
                Instruction::Cmp { left: Operand::Stack(-4), right: Operand::Stack(-8) },
                Instruction::Cmp { left: Operand::Stack(-4), right: Operand::Imm(5) },
                Instruction::Move { src: Operand::Imm(1), dst: Operand::Stack(-4) },
            ],
            stack_size: 8,
        }],
    };
    let fixed = fix_program(program);
    assert_eq!(
        shown(&fixed.functions[0].instructions),
        vec![
            "AllocateStack(8)",
            "Move { src: Stack(-4), dst: Register(R10) }",
            "Move { src: Register(R10), dst: Stack(-8) }",
            "Move { src: Stack(-4), dst: Register(R10) }",
            "Binary { op: Add, left: Register(R10), right: Stack(-8) }",
            "Move { src: Stack(-8), dst: Register(R11) }",
            "Binary { op: Mult, left: Imm(3), right: Register(R11) }",
            "Move { src: Register(R11), dst: Stack(-8) }",
            "Move { src: Imm(3), dst: Register(R10) }",
            "Idiv(Register(R10))",
            "Move { src: Stack(-4), dst: Register(R10) }",
            "Cmp { left: Register(R10), right: Stack(-8) }",
            "Move { src: Imm(5), dst: Register(R11) }",
            "Cmp { left: Stack(-4), right: Register(R11) }",
            "Move { src: Imm(1), dst: Stack(-4) }",
        ]
    );
}

#[test]
fn generate_leaves_no_pseudo_register() {
    let generated = generate(tacky_function(
        vec!["p"],
        vec![
            tacky::Instruction::Binary { op: tacky::BinaryOp::Add, left: var("p"), right: var("p"), dst: var("t") },
            tacky::Instruction::FunCall {
                fun_name: "g".to_string(),
                args: (0..9).map(|_| var("t")).collect(),
                dst: var("u"),
            },
            tacky::Instruction::Return(var("u")),
        ],
    ))
    .unwrap();
    let f = &generated.functions[0];
    assert_eq!(f.stack_size, 12);
    assert!(matches!(f.instructions[0], Instruction::AllocateStack(12)));
    for instruction in &f.instructions {
        let text = format!("{:?}", instruction);
        assert!(!text.contains("Pseudo"), "{text}");
        if let Instruction::Move { src: Operand::Stack(_), dst: Operand::Stack(_) } = instruction {
            panic!("memory to memory move: {text}");
        }
    }
}

#[test]
fn emit_return_two() {
    let program = Program {
        functions: vec![Function {
            name: "main".to_string(),
            instructions: vec![
                Instruction::AllocateStack(0),
                Instruction::Move { src: Operand::Imm(2), dst: Operand::Register(Register::AX) },
                Instruction::Ret,
            ],
            stack_size: 0,
        }],
    };
    assert_eq!(
        emit(program),
        "    .globl main\n  main:\n    pushq   %rbp\n    movq    %rsp, %rbp\n    subq    $0, %rsp\n    movl    $2, %eax\n    movq    %rbp, %rsp\n    popq    %rbp\n    ret\n\n    .section .note.GNU-stack,\"\",@progbits"
    );
}

#[test]
fn emit_operands_and_widths() {
    let program = Program {
        functions: vec![Function {
            name: "f".to_string(),
            instructions: vec![
                Instruction::Move { src: Operand::Imm(-5), dst: Operand::Stack(-12) },
                Instruction::SetCC { cond_code: crust::assembly::ConditionalCode::GE, operand: Operand::Register(Register::R11) },
                Instruction::Push(Operand::Register(Register::DI)),
                Instruction::JmpCC { cond_code: crust::assembly::ConditionalCode::NE, target: "x".to_string() },
                Instruction::Label("x".to_string()),
                Instruction::Call("g".to_string()),
                Instruction::DeallocateStack(16),
            ],
            stack_size: 0,
        }],
    };
    assert_eq!(
        emit(program),
        "    .globl f\n  f:\n    pushq   %rbp\n    movq    %rsp, %rbp\n    movl    $-5, -12(%rbp)\n    setge    %r11b\n    pushq    %rdi\n    jne    .Lx\n    .Lx:\n    call g@PLT\n    addq    $16, %rsp\n\n    .section .note.GNU-stack,\"\",@progbits"
    );
}

#[test]
fn call_layout_pads_to_sixteen_bytes_and_pushes_last_argument_first() {
    let call = |n: i32| tacky::Instruction::FunCall {
        fun_name: "g".to_string(),
        args: (1..=n).map(tacky::Val::Constant).collect(),
        dst: var("r"),
    };
    assert_eq!(
        shown(&translate_instruction(call(2))),
        vec![
            "Move { src: Imm(1), dst: Register(DI) }",
            "Move { src: Imm(2), dst: Register(SI) }",
            "Call(\"g\")",
            "Move { src: Register(AX), dst: Pseudo(\"r\") }",
        ]
    );
    assert_eq!(
        shown(&translate_instruction(call(9))),
        vec![
            "AllocateStack(8)",
            "Move { src: Imm(1), dst: Register(DI) }",
            "Move { src: Imm(2), dst: Register(SI) }",
            "Move { src: Imm(3), dst: Register(DX) }",
            "Move { src: Imm(4), dst: Register(CX) }",
            "Move { src: Imm(5), dst: Register(R8) }",
            "Move { src: Imm(6), dst: Register(R9) }",
            "Push(Imm(9))",
            "Push(Imm(8))",
            "Push(Imm(7))",
            "Call(\"g\")",
            "DeallocateStack(32)",
            "Move { src: Register(AX), dst: Pseudo(\"r\") }",
        ]
    );
    let ten = shown(&translate_instruction(call(10)));
    assert_eq!(ten[0], "Move { src: Imm(1), dst: Register(DI) }");
    assert_eq!(ten[6..11], ["Push(Imm(10))", "Push(Imm(9))", "Push(Imm(8))", "Push(Imm(7))", "Call(\"g\")"]);
    assert_eq!(ten[11], "DeallocateStack(32)");
    assert_eq!(ten.iter().filter(|i| i.starts_with("Call")).count(), 1);
}
