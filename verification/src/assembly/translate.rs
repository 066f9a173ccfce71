//! Translates TACKY into assembly instructions over pseudo registers.
use vstd::prelude::*;

use crate::assembly;
use crate::tacky;

verus! {

pub open spec fn operand_of(val: tacky::Val) -> assembly::Operand {
    match val {
        tacky::Val::Constant(c) => assembly::Operand::Imm(c),
        tacky::Val::Var(v) => assembly::Operand::Pseudo(v),
    }
}

pub open spec fn condition_code_of(op: tacky::BinaryOp) -> assembly::ConditionalCode
    recommends
        op.is_comparison(),
{
    match op {
        tacky::BinaryOp::Equal => assembly::ConditionalCode::E,
        tacky::BinaryOp::NotEqual => assembly::ConditionalCode::NE,
        tacky::BinaryOp::LessThan => assembly::ConditionalCode::L,
        tacky::BinaryOp::LessOrEqual => assembly::ConditionalCode::LE,
        tacky::BinaryOp::GreaterThan => assembly::ConditionalCode::G,
        _ => assembly::ConditionalCode::GE,
    }
}

pub open spec fn unary_op_of(op: tacky::UnaryOp) -> assembly::UnaryOp
    recommends
        op != tacky::UnaryOp::Not,
{
    match op {
        tacky::UnaryOp::Complement => assembly::UnaryOp::Not,
        _ => assembly::UnaryOp::Neg,
    }
}

pub open spec fn reg(r: assembly::Register) -> assembly::Operand {
    assembly::Operand::Register(r)
}

/// Where the calling convention puts the parameter at `index`: the first six in
/// registers, the others on the stack above the return address.
pub open spec fn param_location(index: int) -> assembly::Operand {
    if index == 0 {
        reg(assembly::Register::DI)
    } else if index == 1 {
        reg(assembly::Register::SI)
    } else if index == 2 {
        reg(assembly::Register::DX)
    } else if index == 3 {
        reg(assembly::Register::CX)
    } else if index == 4 {
        reg(assembly::Register::R8)
    } else if index == 5 {
        reg(assembly::Register::R9)
    } else {
        assembly::Operand::Stack((16 + (index - 6) * 8) as i32)
    }
}

/// The bound on the number of parameters or arguments under which every stack
/// offset and byte count fits in an `i32`.
pub open spec fn fits_frame(count: int) -> bool {
    count < 0x0800_0000
}

/// Moves of the register arguments into their registers.
pub open spec fn register_arg_moves(args: Seq<tacky::Val>) -> Seq<assembly::Instruction> {
    Seq::new(
        args.len(),
        |i: int| assembly::Instruction::Move { src: operand_of(args[i]), dst: param_location(i) },
    )
}

/// Pushes one stack argument, through `AX` when it is in memory.
pub open spec fn push_arg(arg: tacky::Val) -> Seq<assembly::Instruction> {
    match operand_of(arg) {
        assembly::Operand::Imm(i) => seq![assembly::Instruction::Push(assembly::Operand::Imm(i))],
        other => seq![
            assembly::Instruction::Move { src: other, dst: reg(assembly::Register::AX) },
            assembly::Instruction::Push(reg(assembly::Register::AX)),
        ],
    }
}

/// Pushes the stack arguments, last one first.
pub open spec fn push_stack_args(args: Seq<tacky::Val>) -> Seq<assembly::Instruction>
    decreases args.len(),
{
    if args.len() == 0 {
        seq![]
    } else {
        push_arg(args.last()) + push_stack_args(args.drop_last())
    }
}

pub open spec fn register_arg_count(n: int) -> int {
    if n < 6 {
        n
    } else {
        6
    }
}

pub open spec fn stack_padding(stack_arg_count: int) -> int {
    if stack_arg_count % 2 == 0 {
        0
    } else {
        8
    }
}

pub open spec fn spec_translate_call(fun_name: String, args: Seq<tacky::Val>, dst: tacky::Val) -> Seq<assembly::Instruction> {
    let k = register_arg_count(args.len() as int);
    let stack_args = args.skip(k);
    let padding = stack_padding(stack_args.len() as int);
    let bytes = 8 * stack_args.len() + padding;
    (if padding != 0 {
        seq![assembly::Instruction::AllocateStack(padding as i32)]
    } else {
        seq![]
    }) + register_arg_moves(args.take(k)) + push_stack_args(stack_args) + seq![
        assembly::Instruction::Call(fun_name),
    ] + (if bytes != 0 {
        seq![assembly::Instruction::DeallocateStack(bytes as i32)]
    } else {
        seq![]
    }) + seq![assembly::Instruction::Move { src: reg(assembly::Register::AX), dst: operand_of(dst) }]
}

/// The assembly instructions that stand for one TACKY instruction.
pub open spec fn spec_translate_instruction(instruction: tacky::Instruction) -> Seq<assembly::Instruction> {
    match instruction {
        tacky::Instruction::Return(val) => seq![
            assembly::Instruction::Move { src: operand_of(val), dst: reg(assembly::Register::AX) },
            assembly::Instruction::Ret,
        ],
        tacky::Instruction::Unary { op, src, dst } => if op == tacky::UnaryOp::Not {
            seq![
                assembly::Instruction::Cmp { left: assembly::Operand::Imm(0), right: operand_of(src) },
                assembly::Instruction::Move { src: assembly::Operand::Imm(0), dst: operand_of(dst) },
                assembly::Instruction::SetCC {
                    cond_code: assembly::ConditionalCode::E,
                    operand: operand_of(dst),
                },
            ]
        } else {
            seq![
                assembly::Instruction::Move { src: operand_of(src), dst: operand_of(dst) },
                assembly::Instruction::Unary { op: unary_op_of(op), operand: operand_of(dst) },
            ]
        },
        tacky::Instruction::Binary { op, left, right, dst } => if op == tacky::BinaryOp::Divide
            || op == tacky::BinaryOp::Remainder {
            seq![
                assembly::Instruction::Move { src: operand_of(left), dst: reg(assembly::Register::AX) },
                assembly::Instruction::Cdq,
                assembly::Instruction::Idiv(operand_of(right)),
                assembly::Instruction::Move {
                    src: if op == tacky::BinaryOp::Divide {
                        reg(assembly::Register::AX)
                    } else {
                        reg(assembly::Register::DX)
                    },
                    dst: operand_of(dst),
                },
            ]
        } else if op.is_comparison() {
            seq![
                assembly::Instruction::Cmp { left: operand_of(right), right: operand_of(left) },
                assembly::Instruction::Move { src: assembly::Operand::Imm(0), dst: operand_of(dst) },
                assembly::Instruction::SetCC { cond_code: condition_code_of(op), operand: operand_of(dst) },
            ]
        } else {
            seq![
                assembly::Instruction::Move { src: operand_of(left), dst: operand_of(dst) },
                assembly::Instruction::Binary {
                    op: if op == tacky::BinaryOp::Add {
                        assembly::BinaryOp::Add
                    } else if op == tacky::BinaryOp::Subtract {
                        assembly::BinaryOp::Sub
                    } else {
                        assembly::BinaryOp::Mult
                    },
                    left: operand_of(right),
                    right: operand_of(dst),
                },
            ]
        },
        tacky::Instruction::Copy { src, dst } => seq![
            assembly::Instruction::Move { src: operand_of(src), dst: operand_of(dst) },
        ],
        tacky::Instruction::Jump { target } => seq![assembly::Instruction::Jmp(target)],
        tacky::Instruction::JumpIfZero { condition, target } => seq![
            assembly::Instruction::Cmp { left: assembly::Operand::Imm(0), right: operand_of(condition) },
            assembly::Instruction::JmpCC { cond_code: assembly::ConditionalCode::E, target },
        ],
        tacky::Instruction::JumpIfNotZero { condition, target } => seq![
            assembly::Instruction::Cmp { left: assembly::Operand::Imm(0), right: operand_of(condition) },
            assembly::Instruction::JmpCC { cond_code: assembly::ConditionalCode::NE, target },
        ],
        tacky::Instruction::Label(identifier) => seq![assembly::Instruction::Label(identifier)],
        tacky::Instruction::FunCall { fun_name, args, dst } => spec_translate_call(fun_name, args@, dst),
    }
}

pub open spec fn spec_translate_instructions(instructions: Seq<tacky::Instruction>) -> Seq<assembly::Instruction>
    decreases instructions.len(),
{
    if instructions.len() == 0 {
        seq![]
    } else {
        spec_translate_instructions(instructions.drop_last()) + spec_translate_instruction(
            instructions.last(),
        )
    }
}

/// Moves of the parameters from where the caller put them into their pseudo registers.
pub open spec fn param_moves(params: Seq<String>) -> Seq<assembly::Instruction> {
    Seq::new(
        params.len(),
        |i: int| assembly::Instruction::Move { src: param_location(i), dst: assembly::Operand::Pseudo(params[i]) },
    )
}

/// A TACKY instruction whose translation needs no offset beyond an `i32`.
pub open spec fn instruction_fits(instruction: tacky::Instruction) -> bool {
    match instruction {
        tacky::Instruction::FunCall { args, .. } => fits_frame(args@.len() as int),
        _ => true,
    }
}

pub open spec fn function_fits(function: tacky::Function) -> bool {
    &&& fits_frame(function.params@.len() as int)
    &&& forall|i: int| 0 <= i < function.body@.len() ==> instruction_fits(#[trigger] function.body@[i])
}

pub open spec fn is_translated_function(function: tacky::Function, translated: assembly::Function) -> bool {
    &&& translated.name == function.identifier
    &&& translated.stack_size == 0
    &&& translated.instructions@ == param_moves(function.params@) + spec_translate_instructions(function.body@)
}

pub fn translate_program(program: tacky::Program) -> (result: assembly::Program)
    requires
        forall|i: int| 0 <= i < program.functions@.len() ==> function_fits(#[trigger] program.functions@[i]),
    ensures
        result.functions@.len() == program.functions@.len(),
        forall|i: int|
            0 <= i < program.functions@.len() ==> is_translated_function(
                program.functions@[i],
                #[trigger] result.functions@[i],
            ),
{
    assembly::Program::from(program)
}

impl assembly::Program {
    pub fn from(program: tacky::Program) -> (result: Self)
        requires
            forall|i: int| 0 <= i < program.functions@.len() ==> function_fits(#[trigger] program.functions@[i]),
        ensures
            result.functions@.len() == program.functions@.len(),
            forall|i: int|
                0 <= i < program.functions@.len() ==> is_translated_function(
                    program.functions@[i],
                    #[trigger] result.functions@[i],
                ),
    {
        let mut functions: Vec<assembly::Function> = Vec::new();
        for function in it: program.functions
            invariant
                it.seq() == program.functions@,
                forall|i: int| 0 <= i < program.functions@.len() ==> function_fits(#[trigger] program.functions@[i]),
                functions@.len() == it.index(),
                forall|i: int|
                    0 <= i < it.index() ==> is_translated_function(
                        program.functions@[i],
                        #[trigger] functions@[i],
                    ),
        {
            functions.push(assembly::Function::from(function));
        }
        Self { functions }
    }
}

impl assembly::Function {
    pub fn from(function: tacky::Function) -> (result: Self)
        requires
            function_fits(function),
        ensures
            is_translated_function(function, result),
    {
        let mut instructions: Vec<assembly::Instruction> = Vec::new();
        let ghost params = function.params@;
        let ghost body = function.body@;
        let mut index: usize = 0;
        for parameter in it: function.params
            invariant
                it.seq() == params,
                index == it.index(),
                fits_frame(params.len() as int),
                instructions@ == param_moves(params.take(index as int)),
        {
            instructions.push(translate_param(index, parameter));
            index = index + 1;
            proof {
                assert(instructions@ =~= param_moves(params.take(index as int)));
            }
        }
        proof {
            assert(params.take(params.len() as int) =~= params);
        }
        let ghost moves = instructions@;
        for instruction in it: function.body
            invariant
                it.seq() == body,
                forall|i: int| 0 <= i < body.len() ==> instruction_fits(#[trigger] body[i]),
                instructions@ == moves + spec_translate_instructions(body.take(it.index() as int)),
        {
            let ghost k = it.index() as int;
            assert(instruction_fits(body[k]));
            let mut translated = translate_instruction(instruction);
            instructions.append(&mut translated);
            proof {
                assert(body.take(k + 1).drop_last() =~= body.take(k));
                assert(instructions@ =~= moves + spec_translate_instructions(body.take(k + 1)));
            }
        }
        proof {
            assert(body.take(body.len() as int) =~= body);
        }
        Self { name: function.identifier, stack_size: 0, instructions }
    }
}

fn translate_param(index: usize, parameter: String) -> (result: assembly::Instruction)
    requires
        fits_frame(index as int),
    ensures
        result == (assembly::Instruction::Move {
            src: param_location(index as int),
            dst: assembly::Operand::Pseudo(parameter),
        }),
{
    assembly::Instruction::Move {
        src: get_register_for_param(index),
        dst: assembly::Operand::Pseudo(parameter),
    }
}

fn get_register_for_param(index: usize) -> (result: assembly::Operand)
    requires
        fits_frame(index as int),
    ensures
        result == param_location(index as int),
{
    match index {
        0 => assembly::Operand::Register(assembly::Register::DI),
        1 => assembly::Operand::Register(assembly::Register::SI),
        2 => assembly::Operand::Register(assembly::Register::DX),
        3 => assembly::Operand::Register(assembly::Register::CX),
        4 => assembly::Operand::Register(assembly::Register::R8),
        5 => assembly::Operand::Register(assembly::Register::R9),
        index => {
            let offset: i32 = 16 + ((index as i32 - 6) * 8);
            assembly::Operand::Stack(offset)
        },
    }
}

impl assembly::Operand {
    pub fn from(val: tacky::Val) -> (result: Self)
        ensures
            result == operand_of(val),
    {
        match val {
            tacky::Val::Constant(c) => Self::Imm(c),
            tacky::Val::Var(v) => Self::Pseudo(v),
        }
    }
}

impl assembly::ConditionalCode {
    pub fn from(code: tacky::BinaryOp) -> (result: Self)
        requires
            code.is_comparison(),
        ensures
            result == condition_code_of(code),
    {
        match code {
            tacky::BinaryOp::Equal => Self::E,
            tacky::BinaryOp::NotEqual => Self::NE,
            tacky::BinaryOp::LessThan => Self::L,
            tacky::BinaryOp::LessOrEqual => Self::LE,
            tacky::BinaryOp::GreaterThan => Self::G,
            _ => Self::GE,
        }
    }
}

impl assembly::UnaryOp {
    pub fn from(unary_op: tacky::UnaryOp) -> (result: Self)
        requires
            unary_op != tacky::UnaryOp::Not,
        ensures
            result == unary_op_of(unary_op),
    {
        match unary_op {
            tacky::UnaryOp::Complement => Self::Not,
            _ => Self::Neg,
        }
    }
}

pub fn translate_instruction(instruction: tacky::Instruction) -> (result: Vec<assembly::Instruction>)
    requires
        instruction_fits(instruction),
    ensures
        result@ == spec_translate_instruction(instruction),
{
    let mut out: Vec<assembly::Instruction> = Vec::new();
    match instruction {
        tacky::Instruction::Return(val) => {
            out.push(assembly::Instruction::Move {
                src: assembly::Operand::from(val),
                dst: assembly::Operand::Register(assembly::Register::AX),
            });
            out.push(assembly::Instruction::Ret);
        },
        tacky::Instruction::Unary { op, src, dst } => {
            let dst = assembly::Operand::from(dst);
            match op {
                tacky::UnaryOp::Complement | tacky::UnaryOp::Negate => {
                    out.push(assembly::Instruction::Move { src: assembly::Operand::from(src), dst: dst.clone() });
                    out.push(assembly::Instruction::Unary { op: assembly::UnaryOp::from(op), operand: dst });
                },
                tacky::UnaryOp::Not => {
                    out.push(assembly::Instruction::Cmp {
                        left: assembly::Operand::Imm(0),
                        right: assembly::Operand::from(src),
                    });
                    out.push(assembly::Instruction::Move { src: assembly::Operand::Imm(0), dst: dst.clone() });
                    out.push(assembly::Instruction::SetCC { cond_code: assembly::ConditionalCode::E, operand: dst });
                },
            }
        },
        tacky::Instruction::Binary { op, left, right, dst } => match op {
            tacky::BinaryOp::Divide => {
                out.push(assembly::Instruction::Move {
                    src: assembly::Operand::from(left),
                    dst: assembly::Operand::Register(assembly::Register::AX),
                });
                out.push(assembly::Instruction::Cdq);
                out.push(assembly::Instruction::Idiv(assembly::Operand::from(right)));
                out.push(assembly::Instruction::Move {
                    src: assembly::Operand::Register(assembly::Register::AX),
                    dst: assembly::Operand::from(dst),
                });
            },
            tacky::BinaryOp::Remainder => {
                out.push(assembly::Instruction::Move {
                    src: assembly::Operand::from(left),
                    dst: assembly::Operand::Register(assembly::Register::AX),
                });
                out.push(assembly::Instruction::Cdq);
                out.push(assembly::Instruction::Idiv(assembly::Operand::from(right)));
                out.push(assembly::Instruction::Move {
                    src: assembly::Operand::Register(assembly::Register::DX),
                    dst: assembly::Operand::from(dst),
                });
            },
            tacky::BinaryOp::Equal | tacky::BinaryOp::NotEqual | tacky::BinaryOp::LessThan
            | tacky::BinaryOp::LessOrEqual | tacky::BinaryOp::GreaterThan
            | tacky::BinaryOp::GreaterOrEqual => {
                out.push(assembly::Instruction::Cmp {
                    left: assembly::Operand::from(right),
                    right: assembly::Operand::from(left),
                });
                out.push(assembly::Instruction::Move {
                    src: assembly::Operand::Imm(0),
                    dst: assembly::Operand::from(dst.clone()),
                });
                out.push(assembly::Instruction::SetCC {
                    cond_code: assembly::ConditionalCode::from(op),
                    operand: assembly::Operand::from(dst),
                });
            },
            _ => {
                let assembly_op = match op {
                    tacky::BinaryOp::Add => assembly::BinaryOp::Add,
                    tacky::BinaryOp::Subtract => assembly::BinaryOp::Sub,
                    _ => assembly::BinaryOp::Mult,
                };
                out.push(assembly::Instruction::Move {
                    src: assembly::Operand::from(left),
                    dst: assembly::Operand::from(dst.clone()),
                });
                out.push(assembly::Instruction::Binary {
                    op: assembly_op,
                    left: assembly::Operand::from(right),
                    right: assembly::Operand::from(dst),
                });
            },
        },
        tacky::Instruction::Copy { src, dst } => {
            out.push(assembly::Instruction::Move {
                src: assembly::Operand::from(src),
                dst: assembly::Operand::from(dst),
            });
        },
        tacky::Instruction::Jump { target } => {
            out.push(assembly::Instruction::Jmp(target));
        },
        tacky::Instruction::JumpIfZero { condition, target } => {
            out.push(assembly::Instruction::Cmp {
                left: assembly::Operand::Imm(0),
                right: assembly::Operand::from(condition),
            });
            out.push(assembly::Instruction::JmpCC { cond_code: assembly::ConditionalCode::E, target });
        },
        tacky::Instruction::JumpIfNotZero { condition, target } => {
            out.push(assembly::Instruction::Cmp {
                left: assembly::Operand::Imm(0),
                right: assembly::Operand::from(condition),
            });
            out.push(assembly::Instruction::JmpCC { cond_code: assembly::ConditionalCode::NE, target });
        },
        tacky::Instruction::Label(identifier) => {
            out.push(assembly::Instruction::Label(identifier));
        },
        tacky::Instruction::FunCall { fun_name, args, dst } => {
            let mut call = translate_call(fun_name, &args, dst);
            out.append(&mut call);
        },
    }
    out
}

fn translate_call(fun_name: String, args: &Vec<tacky::Val>, dst: tacky::Val) -> (result: Vec<assembly::Instruction>)
    requires
        fits_frame(args@.len() as int),
    ensures
        result@ == spec_translate_call(fun_name, args@, dst),
{
    let n = args.len();
    let k: usize = if n < 6 { n } else { 6 };
    let stack_count: usize = n - k;
    let stack_padding: i32 = if stack_count % 2 == 0 { 0 } else { 8 };
    let mut out: Vec<assembly::Instruction> = Vec::new();
    if stack_padding != 0 {
        out.push(assembly::Instruction::AllocateStack(stack_padding));
    }
    let ghost start = out@;
    let mut i: usize = 0;
    while i < k
        invariant
            k <= n == args@.len(),
            i <= k,
            k <= 6,
            out@ == start + register_arg_moves(args@.take(i as int)),
        decreases k - i,
    {
        let src = assembly::Operand::from(args[i].clone());
        let dst = get_register_for_param(i);
        out.push(assembly::Instruction::Move { src, dst });
        i = i + 1;
        proof {
            assert(register_arg_moves(args@.take(i as int)) =~= register_arg_moves(args@.take(i - 1)).push(
                assembly::Instruction::Move { src: operand_of(args@[i - 1]), dst: param_location(i - 1) },
            ));
        }
    }
    let ghost moved = out@;
    let ghost stack_args = args@.skip(k as int);
    let mut j: usize = n;
    proof {
        assert(stack_args.take(stack_args.len() as int) =~= stack_args);
        assert(moved + pushes_from(stack_args, stack_args.len() as int) =~= moved);
    }
    while j > k
        invariant
            k <= j <= n == args@.len(),
            stack_args == args@.skip(k as int),
            out@ == moved + pushes_from(stack_args, j - k),
        decreases j,
    {
        let arg = assembly::Operand::from(args[j - 1].clone());
        match arg {
            assembly::Operand::Register(_) | assembly::Operand::Imm(_) => {
                out.push(assembly::Instruction::Push(arg));
            },
            _ => {
                out.push(assembly::Instruction::Move {
                    src: arg,
                    dst: assembly::Operand::Register(assembly::Register::AX),
                });
                out.push(assembly::Instruction::Push(assembly::Operand::Register(assembly::Register::AX)));
            },
        }
        j = j - 1;
        proof {
            lemma_pushes_from_step(stack_args, j - k);
        }
    }
    proof {
        lemma_pushes_from_all(stack_args);
    }
    out.push(assembly::Instruction::Call(fun_name));
    let bytes_to_remove: i32 = 8 * (stack_count as i32) + stack_padding;
    if bytes_to_remove != 0 {
        out.push(assembly::Instruction::DeallocateStack(bytes_to_remove));
    }
    out.push(assembly::Instruction::Move {
        src: assembly::Operand::Register(assembly::Register::AX),
        dst: assembly::Operand::from(dst),
    });
    proof {
        assert(args@.take(k as int) =~= args@.take(i as int));
    }
    out
}

/// The pushes of the stack arguments at indices `m` and above, last one first.
pub open spec fn pushes_from(stack_args: Seq<tacky::Val>, m: int) -> Seq<assembly::Instruction> {
    push_stack_args(stack_args).subrange(0, push_stack_args(stack_args).len() - push_stack_args(stack_args.take(m)).len())
}

proof fn lemma_push_stack_args_split(args: Seq<tacky::Val>, m: int)
    requires
        0 <= m <= args.len(),
    ensures
        push_stack_args(args) == push_stack_args(args.skip(m)).add(push_stack_args(args.take(m))),
    decreases args.len(),
{
    if m == args.len() {
        assert(args.take(m) =~= args);
        assert(args.skip(m).len() == 0);
        assert(push_stack_args(args.skip(m)) =~= seq![]);
        assert(push_stack_args(args) =~= seq![] + push_stack_args(args));
    } else {
        lemma_push_stack_args_split(args.drop_last(), m);
        assert(args.drop_last().take(m) =~= args.take(m));
        assert(args.skip(m).drop_last() =~= args.drop_last().skip(m));
        assert(args.skip(m).last() == args.last());
        assert(push_stack_args(args) =~= push_arg(args.last()) + push_stack_args(args.drop_last()));
        assert(push_stack_args(args.skip(m)) =~= push_arg(args.last()) + push_stack_args(args.drop_last().skip(m)));
    }
}

proof fn lemma_pushes_from_step(stack_args: Seq<tacky::Val>, m: int)
    requires
        0 <= m < stack_args.len(),
    ensures
        pushes_from(stack_args, m) == pushes_from(stack_args, m + 1) + push_arg(stack_args[m]),
{
    lemma_push_stack_args_split(stack_args, m);
    lemma_push_stack_args_split(stack_args, m + 1);
    let t = stack_args.skip(m);
    assert(t.drop_last() =~= stack_args.skip(m + 1).take(0) + t.drop_last());
    lemma_push_stack_args_split(stack_args.skip(m), 1);
    assert(stack_args.skip(m).take(1) =~= seq![stack_args[m]]);
    assert(stack_args.skip(m).skip(1) =~= stack_args.skip(m + 1));
    assert(push_stack_args(seq![stack_args[m]]) =~= push_arg(stack_args[m]) + push_stack_args(seq![stack_args[m]].drop_last()));
    assert(push_stack_args(seq![stack_args[m]].drop_last()) =~= seq![]);
}

proof fn lemma_pushes_from_all(stack_args: Seq<tacky::Val>)
    ensures
        pushes_from(stack_args, 0) == push_stack_args(stack_args),
{
    assert(stack_args.take(0) =~= seq![]);
    assert(push_stack_args(stack_args.take(0)) =~= seq![]);
    assert(push_stack_args(stack_args).subrange(0, push_stack_args(stack_args).len() as int) =~= push_stack_args(stack_args));
}

/// The registers that carry the first six arguments of a call, in order.
pub open spec fn argument_registers() -> Seq<assembly::Register> {
    seq![
        assembly::Register::DI,
        assembly::Register::SI,
        assembly::Register::DX,
        assembly::Register::CX,
        assembly::Register::R8,
        assembly::Register::R9,
    ]
}

/// One `push_arg` for each stack argument, taken from the last argument to the first.
pub open spec fn pushes_last_first(stack_args: Seq<tacky::Val>) -> Seq<assembly::Instruction> {
    Seq::new(stack_args.len(), |j: int| push_arg(stack_args[stack_args.len() - 1 - j])).flatten()
}

proof fn lemma_push_stack_args_last_first(stack_args: Seq<tacky::Val>)
    ensures
        push_stack_args(stack_args) == pushes_last_first(stack_args),
    decreases stack_args.len(),
{
    if stack_args.len() > 0 {
        let rest = stack_args.drop_last();
        lemma_push_stack_args_last_first(rest);
        let each = Seq::new(stack_args.len(), |j: int| push_arg(stack_args[stack_args.len() - 1 - j]));
        assert(each.drop_first() =~= Seq::new(rest.len(), |j: int| push_arg(rest[rest.len() - 1 - j])));
        assert(each.first() == push_arg(stack_args.last()));
    }
}

/// Every instruction that pushes stack arguments is a `Move` or a `Push`.
proof fn lemma_push_stack_args_moves_and_pushes(stack_args: Seq<tacky::Val>)
    ensures
        forall|i: int|
            0 <= i < push_stack_args(stack_args).len() ==> (#[trigger] push_stack_args(stack_args)[i] is Move
                || push_stack_args(stack_args)[i] is Push),
    decreases stack_args.len(),
{
    if stack_args.len() > 0 {
        lemma_push_stack_args_moves_and_pushes(stack_args.drop_last());
        let head = push_arg(stack_args.last());
        let tail = push_stack_args(stack_args.drop_last());
        assert forall|i: int| 0 <= i < push_stack_args(stack_args).len() implies (
        #[trigger] push_stack_args(stack_args)[i] is Move || push_stack_args(stack_args)[i] is Push) by {
            if i >= head.len() {
                assert(push_stack_args(stack_args)[i] == tail[i - head.len()]);
            }
        }
    }
}

/// The layout of a call: the stack padding makes the bytes that the call puts on
/// the stack a multiple of 16, and comes first exactly when the number of stack
/// arguments is odd; the first six arguments are moved into `DI`, `SI`, `DX`,
/// `CX`, `R8` and `R9` in order; the stack arguments are pushed from the last to
/// the first; there is exactly one `Call`; the stack is given back right after
/// it exactly when something was put there; and the last instruction moves the
/// result out of `AX` into the destination.
pub proof fn lemma_call_layout(fun_name: String, args: Seq<tacky::Val>, dst: tacky::Val)
    requires
        fits_frame(args.len() as int),
    ensures
        ({
            let r = spec_translate_call(fun_name, args, dst);
            let k = register_arg_count(args.len() as int);
            let s = args.len() - k;
            let bytes = 8 * s + stack_padding(s);
            let first: int = if s % 2 == 1 { 1 } else { 0 };
            let pushes = pushes_last_first(args.skip(k));
            let call = first + k + pushes.len();
            &&& bytes % 16 == 0
            &&& (r[0] == assembly::Instruction::AllocateStack(8)) == (s % 2 == 1)
            &&& forall|i: int|
                0 <= i < k ==> r[first + i] == (assembly::Instruction::Move {
                    src: operand_of(args[i]),
                    dst: reg(argument_registers()[i]),
                })
            &&& r.subrange(first + k, call) == pushes
            &&& r[call] == assembly::Instruction::Call(fun_name)
            &&& forall|i: int| 0 <= i < r.len() && (#[trigger] r[i]) is Call ==> i == call
            &&& s > 0 ==> r[call + 1] == assembly::Instruction::DeallocateStack(bytes as i32)
            &&& forall|i: int| 0 <= i < r.len() && (#[trigger] r[i]) is DeallocateStack ==> s > 0 && i == call + 1
            &&& r.len() == call + if s > 0 { 3int } else { 2int }
            &&& r.last() == (assembly::Instruction::Move { src: reg(assembly::Register::AX), dst: operand_of(dst) })
        }),
{
    let r = spec_translate_call(fun_name, args, dst);
    let k = register_arg_count(args.len() as int);
    let s = args.len() - k;
    let stack_args = args.skip(k);
    let padding = stack_padding(s);
    let bytes = 8 * s + padding;
    let alloc: Seq<assembly::Instruction> = if padding != 0 {
        seq![assembly::Instruction::AllocateStack(padding as i32)]
    } else {
        seq![]
    };
    let moves = register_arg_moves(args.take(k));
    let pushes = push_stack_args(stack_args);
    let dealloc: Seq<assembly::Instruction> = if bytes != 0 {
        seq![assembly::Instruction::DeallocateStack(bytes as i32)]
    } else {
        seq![]
    };
    let last = seq![assembly::Instruction::Move { src: reg(assembly::Register::AX), dst: operand_of(dst) }];
    let call = alloc.len() + moves.len() + pushes.len();
    lemma_push_stack_args_last_first(stack_args);
    lemma_push_stack_args_moves_and_pushes(stack_args);
    assert(r == alloc + moves + pushes + seq![assembly::Instruction::Call(fun_name)] + dealloc + last);
    assert(bytes % 16 == 0) by {
        if s % 2 == 1 {
            assert(bytes == 16 * ((s + 1) / 2));
        } else {
            assert(bytes == 16 * (s / 2));
        }
    }
    assert(s > 0 <==> bytes != 0);
    assert forall|i: int| 0 <= i < call implies !(#[trigger] r[i] is Call) && !(r[i] is DeallocateStack) && (i
        < alloc.len() || r[i] is Move || r[i] is Push) by {
        if i >= alloc.len() + moves.len() {
            assert(r[i] == pushes[i - alloc.len() - moves.len()]);
        } else if i >= alloc.len() {
            assert(r[i] == moves[i - alloc.len()]);
        }
    }
    assert(r.subrange(alloc.len() + k, call as int) =~= pushes);
}

/// Whether the condition code `cond_code` holds after a compare instruction that
/// compares the destination value `d` with the source value `s` (`cmp s, d`
/// sets the flags of `d - s`): `E` when they are equal, `L` when `d` is less,
/// and so on, all signed.
pub open spec fn holds_after_compare(cond_code: assembly::ConditionalCode, d: int, s: int) -> bool {
    match cond_code {
        assembly::ConditionalCode::E => d == s,
        assembly::ConditionalCode::NE => d != s,
        assembly::ConditionalCode::G => d > s,
        assembly::ConditionalCode::GE => d >= s,
        assembly::ConditionalCode::L => d < s,
        assembly::ConditionalCode::LE => d <= s,
    }
}

/// Whether the TACKY comparison `op` holds between `a` and `b` (`a op b`).
pub open spec fn comparison_holds(op: tacky::BinaryOp, a: int, b: int) -> bool {
    match op {
        tacky::BinaryOp::Equal => a == b,
        tacky::BinaryOp::NotEqual => a != b,
        tacky::BinaryOp::LessThan => a < b,
        tacky::BinaryOp::LessOrEqual => a <= b,
        tacky::BinaryOp::GreaterThan => a > b,
        tacky::BinaryOp::GreaterOrEqual => a >= b,
        _ => false,
    }
}

/// A comparison becomes a compare of its right operand with its left one, a
/// zero moved into the destination, and a set of the destination on a condition
/// code that holds after the compare exactly when the comparison holds of the
/// left and the right value, whatever they are.
pub proof fn lemma_comparison_condition_code(op: tacky::BinaryOp, left: tacky::Val, right: tacky::Val, dst: tacky::Val)
    requires
        op.is_comparison(),
    ensures
        ({
            let r = spec_translate_instruction(tacky::Instruction::Binary { op, left, right, dst });
            &&& r.len() == 3
            &&& r[0] == (assembly::Instruction::Cmp { left: operand_of(right), right: operand_of(left) })
            &&& r[1] == (assembly::Instruction::Move { src: assembly::Operand::Imm(0), dst: operand_of(dst) })
            &&& r[2] matches assembly::Instruction::SetCC { cond_code, operand } && operand == operand_of(dst)
                && forall|a: int, b: int| holds_after_compare(cond_code, a, b) == comparison_holds(op, a, b)
        }),
{
}

/// The value that the unary instruction `op` leaves in its operand, which held `x`.
pub open spec fn assembly_unary_value(op: assembly::UnaryOp, x: int) -> int {
    match op {
        assembly::UnaryOp::Neg => -x,
        assembly::UnaryOp::Not => -x - 1,
    }
}

/// The value that the binary instruction `op s, d` leaves in its destination,
/// which held `d`, with `s` the value of its source.
pub open spec fn assembly_binary_value(op: assembly::BinaryOp, d: int, s: int) -> int {
    match op {
        assembly::BinaryOp::Add => d + s,
        assembly::BinaryOp::Sub => d - s,
        assembly::BinaryOp::Mult => d * s,
    }
}

/// The value that a signed division of `a` by `b` leaves in `register`: the
/// quotient, rounded toward zero, in `AX`, and the remainder in `DX`.
pub open spec fn division_leaves(register: assembly::Register, a: int, b: int) -> Option<int> {
    match register {
        assembly::Register::AX => Some(tacky::truncated_quotient(a, b)),
        assembly::Register::DX => Some(tacky::truncated_remainder(a, b)),
        _ => None,
    }
}

/// Each TACKY operation becomes instructions that store in its destination what
/// the TACKY operation computes, whatever the values of its operands:
/// a negation or complement moves the source into the destination and applies
/// an instruction of the same meaning there; a logical not compares the source
/// with zero and sets the destination on a code that holds exactly when the
/// source is zero; addition, subtraction and multiplication move the left
/// operand into the destination and combine the right one into it with an
/// instruction of the same meaning; a division or remainder divides the left
/// operand, moved into `AX` and sign-extended, by the right one, and moves out
/// the register that holds the quotient or the remainder as asked; and a jump
/// on zero or not zero compares the condition with zero and jumps on a code that
/// holds exactly when it is zero or not zero.
pub proof fn lemma_operations_keep_their_meaning(instruction: tacky::Instruction)
    ensures
        ({
            let r = spec_translate_instruction(instruction);
            match instruction {
                tacky::Instruction::Unary { op, src, dst } => if op == tacky::UnaryOp::Not {
                    &&& r.len() == 3
                    &&& r[0] == (assembly::Instruction::Cmp { left: assembly::Operand::Imm(0), right: operand_of(src) })
                    &&& r[1] == (assembly::Instruction::Move { src: assembly::Operand::Imm(0), dst: operand_of(dst) })
                    &&& r[2] matches assembly::Instruction::SetCC { cond_code, operand } && operand == operand_of(dst)
                        && forall|x: int| holds_after_compare(cond_code, x, 0) == (x == 0)
                } else {
                    &&& r.len() == 2
                    &&& r[0] == (assembly::Instruction::Move { src: operand_of(src), dst: operand_of(dst) })
                    &&& r[1] matches assembly::Instruction::Unary { op: aop, operand } && operand == operand_of(dst)
                        && forall|x: int| assembly_unary_value(aop, x) == tacky::tacky_unary_value(op, x)
                },
                tacky::Instruction::Binary { op, left, right, dst } => if op == tacky::BinaryOp::Divide || op
                    == tacky::BinaryOp::Remainder {
                    &&& r.len() == 4
                    &&& r[0] == (assembly::Instruction::Move { src: operand_of(left), dst: reg(assembly::Register::AX) })
                    &&& r[1] == assembly::Instruction::Cdq
                    &&& r[2] == assembly::Instruction::Idiv(operand_of(right))
                    &&& r[3] matches assembly::Instruction::Move { src: assembly::Operand::Register(from), dst: to }
                        && to == operand_of(dst) && forall|a: int, b: int|
                        division_leaves(from, a, b) == Some(tacky::tacky_value(op, a, b))
                } else if op.is_comparison() {
                    r.len() == 3
                } else {
                    &&& r.len() == 2
                    &&& r[0] == (assembly::Instruction::Move { src: operand_of(left), dst: operand_of(dst) })
                    &&& r[1] matches assembly::Instruction::Binary { op: aop, left: source, right: target }
                        && source == operand_of(right) && target == operand_of(dst) && forall|d: int, s: int|
                        assembly_binary_value(aop, d, s) == tacky::tacky_value(op, d, s)
                },
                tacky::Instruction::JumpIfZero { condition, target } => {
                    &&& r.len() == 2
                    &&& r[0] == (assembly::Instruction::Cmp { left: assembly::Operand::Imm(0), right: operand_of(condition) })
                    &&& r[1] matches assembly::Instruction::JmpCC { cond_code, target: t } && t == target
                        && forall|x: int| holds_after_compare(cond_code, x, 0) == (x == 0)
                },
                tacky::Instruction::JumpIfNotZero { condition, target } => {
                    &&& r.len() == 2
                    &&& r[0] == (assembly::Instruction::Cmp { left: assembly::Operand::Imm(0), right: operand_of(condition) })
                    &&& r[1] matches assembly::Instruction::JmpCC { cond_code, target: t } && t == target
                        && forall|x: int| holds_after_compare(cond_code, x, 0) == (x != 0)
                },
                _ => true,
            }
        }),
{
}

} // verus!
