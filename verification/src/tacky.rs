//! TACKY, the three-address intermediate representation, and the translation of
//! the labeled syntax tree into it.
use vstd::prelude::*;
use vstd::string::*;

use crate::parser;
use crate::parser::{BinaryOp as SourceBinaryOp, ExpressionModel, ForInitModel, UnaryOp as SourceUnaryOp, VariableModel};
use crate::semantic_analysis::loop_labeling;
use crate::semantic_analysis::loop_labeling::{LDeclarationModel, LFunctionModel, LItemModel, LStatementModel};
use crate::text::{int_decimal, int_to_string};

verus! {

pub type Identifier = String;

pub type Int = i32;

#[derive(Debug)]
pub struct Program {
    pub functions: Vec<Function>,
}

#[derive(Debug)]
pub struct Function {
    pub identifier: Identifier,
    pub params: Vec<Identifier>,
    pub body: Vec<Instruction>,
}

#[derive(Debug)]
pub enum Instruction {
    Return(Val),
    Unary { op: UnaryOp, src: Val, dst: Val },
    Binary { op: BinaryOp, left: Val, right: Val, dst: Val },
    Copy { src: Val, dst: Val },
    Jump { target: Identifier },
    JumpIfZero { condition: Val, target: Identifier },
    JumpIfNotZero { condition: Val, target: Identifier },
    Label(Identifier),
    FunCall { fun_name: Identifier, args: Vec<Val>, dst: Val },
}

#[derive(Debug)]
pub enum Val {
    Constant(Int),
    Var(Identifier),
}

impl Clone for Val {
    fn clone(&self) -> (r: Self)
        ensures
            r == *self,
    {
        match self {
            Val::Constant(c) => Val::Constant(*c),
            Val::Var(v) => Val::Var(v.clone()),
        }
    }
}

#[derive(Debug, Clone, Copy, PartialEq, Eq, Structural)]
pub enum UnaryOp {
    Complement,
    Negate,
    Not,
}

#[derive(Debug, Clone, Copy, PartialEq, Eq, Structural)]
pub enum BinaryOp {
    Add,
    Subtract,
    Multiply,
    Divide,
    Remainder,
    Equal,
    NotEqual,
    LessThan,
    LessOrEqual,
    GreaterThan,
    GreaterOrEqual,
}

impl BinaryOp {
    /// True for the six comparison operators.
    pub open spec fn is_comparison(self) -> bool {
        match self {
            BinaryOp::Equal | BinaryOp::NotEqual | BinaryOp::LessThan | BinaryOp::LessOrEqual
            | BinaryOp::GreaterThan | BinaryOp::GreaterOrEqual => true,
            _ => false,
        }
    }
}

/// Why a labeled program has no TACKY translation.
#[derive(Debug)]
pub enum TackyError {
    /// A function with a body inside another function.
    NestedFunctionDefinition,
    /// A binary expression whose operator is assignment or the conditional, which
    /// the syntax tree writes as nodes of their own.
    MisplacedOperator,
    /// More temporaries than the counter that numbers them can count.
    TooManyTemporaries,
    /// More labels than the counter that numbers them can count.
    TooManyLabels,
}

pub enum ValModel {
    Constant(Int),
    Var(Seq<char>),
}

pub enum InstructionModel {
    Return(ValModel),
    Unary { op: UnaryOp, src: ValModel, dst: ValModel },
    Binary { op: BinaryOp, left: ValModel, right: ValModel, dst: ValModel },
    Copy { src: ValModel, dst: ValModel },
    Jump { target: Seq<char> },
    JumpIfZero { condition: ValModel, target: Seq<char> },
    JumpIfNotZero { condition: ValModel, target: Seq<char> },
    Label(Seq<char>),
    FunCall { fun_name: Seq<char>, args: Seq<ValModel>, dst: ValModel },
}

pub struct FunctionModel {
    pub identifier: Seq<char>,
    pub params: Seq<Seq<char>>,
    pub body: Seq<InstructionModel>,
}

impl View for Val {
    type V = ValModel;

    open spec fn view(&self) -> ValModel {
        match self {
            Val::Constant(c) => ValModel::Constant(*c),
            Val::Var(v) => ValModel::Var(v@),
        }
    }
}

pub open spec fn vals_model(vals: Seq<Val>) -> Seq<ValModel> {
    vals.map_values(|v: Val| v@)
}

impl View for Instruction {
    type V = InstructionModel;

    open spec fn view(&self) -> InstructionModel {
        match self {
            Instruction::Return(v) => InstructionModel::Return(v@),
            Instruction::Unary { op, src, dst } => InstructionModel::Unary { op: *op, src: src@, dst: dst@ },
            Instruction::Binary { op, left, right, dst } => InstructionModel::Binary {
                op: *op,
                left: left@,
                right: right@,
                dst: dst@,
            },
            Instruction::Copy { src, dst } => InstructionModel::Copy { src: src@, dst: dst@ },
            Instruction::Jump { target } => InstructionModel::Jump { target: target@ },
            Instruction::JumpIfZero { condition, target } => InstructionModel::JumpIfZero {
                condition: condition@,
                target: target@,
            },
            Instruction::JumpIfNotZero { condition, target } => InstructionModel::JumpIfNotZero {
                condition: condition@,
                target: target@,
            },
            Instruction::Label(l) => InstructionModel::Label(l@),
            Instruction::FunCall { fun_name, args, dst } => InstructionModel::FunCall {
                fun_name: fun_name@,
                args: vals_model(args@),
                dst: dst@,
            },
        }
    }
}

pub open spec fn instructions_model(instructions: Seq<Instruction>) -> Seq<InstructionModel> {
    instructions.map_values(|i: Instruction| i@)
}

impl View for Function {
    type V = FunctionModel;

    open spec fn view(&self) -> FunctionModel {
        FunctionModel {
            identifier: self.identifier@,
            params: parser::names_model(self.params@),
            body: instructions_model(self.body@),
        }
    }
}

impl View for Program {
    type V = Seq<FunctionModel>;

    open spec fn view(&self) -> Seq<FunctionModel> {
        self.functions@.map_values(|f: Function| f@)
    }
}

/// The counters that number temporaries and labels.
pub struct Counters {
    pub vars: i32,
    pub labels: i32,
}

pub open spec fn numbered(prefix: Seq<char>, n: i32) -> Seq<char> {
    prefix + int_decimal(n as int)
}

pub open spec fn tmp_var(c: Counters) -> ValModel {
    ValModel::Var(numbered("tmp."@, c.vars))
}

pub open spec fn with_vars(c: Counters, vars: i32) -> Counters {
    Counters { vars, labels: c.labels }
}

pub open spec fn with_labels(c: Counters, labels: i32) -> Counters {
    Counters { vars: c.vars, labels }
}

pub type Translated<T> = Result<(T, Counters), TackyError>;

pub type TranslatedExp = Result<(Seq<InstructionModel>, ValModel, Counters), TackyError>;

pub open spec fn source_unary_op(op: SourceUnaryOp) -> UnaryOp {
    match op {
        SourceUnaryOp::Complement => UnaryOp::Complement,
        SourceUnaryOp::Negate => UnaryOp::Negate,
        SourceUnaryOp::Not => UnaryOp::Not,
    }
}

/// The TACKY operator of an arithmetic or comparison operator.
pub open spec fn source_binary_op(op: SourceBinaryOp) -> Option<BinaryOp> {
    match op {
        SourceBinaryOp::Add => Some(BinaryOp::Add),
        SourceBinaryOp::Subtract => Some(BinaryOp::Subtract),
        SourceBinaryOp::Multiply => Some(BinaryOp::Multiply),
        SourceBinaryOp::Divide => Some(BinaryOp::Divide),
        SourceBinaryOp::Remainder => Some(BinaryOp::Remainder),
        SourceBinaryOp::Equal => Some(BinaryOp::Equal),
        SourceBinaryOp::NotEqual => Some(BinaryOp::NotEqual),
        SourceBinaryOp::LessThan => Some(BinaryOp::LessThan),
        SourceBinaryOp::LessOrEqual => Some(BinaryOp::LessOrEqual),
        SourceBinaryOp::GreaterThan => Some(BinaryOp::GreaterThan),
        SourceBinaryOp::GreaterOrEqual => Some(BinaryOp::GreaterOrEqual),
        _ => None,
    }
}

/// The short-circuit evaluation of `&&` (when `is_and`) or `||` into `dst`.
pub open spec fn spec_logical(e: ExpressionModel, c: Counters, label: i32, dst: ValModel) -> TranslatedExp
    decreases e, 0nat,
{
    let (is_and, left, right) = match e {
        ExpressionModel::Binary { operator, left_expression, right_expression } => (
            operator == SourceBinaryOp::And,
            *left_expression,
            *right_expression,
        ),
        _ => (true, e, e),
    };
    if !(e is Binary) {
        Err(TackyError::MisplacedOperator)
    } else {
    let (jump_false, short, long, end) = if is_and {
        ("and_false"@, ValModel::Constant(0), ValModel::Constant(1), "and_end"@)
    } else {
        ("or_false"@, ValModel::Constant(1), ValModel::Constant(0), "or_end"@)
    };
    match spec_translate_exp(left, c) {
        Ok((i1, lv, c1)) => match spec_translate_exp(right, c1) {
            Ok((i2, rv, c2)) => {
                let jump = |v: ValModel| if is_and {
                    InstructionModel::JumpIfZero { condition: v, target: numbered(jump_false, label) }
                } else {
                    InstructionModel::JumpIfNotZero { condition: v, target: numbered(jump_false, label) }
                };
                Ok(
                    (
                        i1 + seq![jump(lv)] + i2 + seq![
                            jump(rv),
                            InstructionModel::Copy { src: long, dst },
                            InstructionModel::Jump { target: numbered(end, label) },
                            InstructionModel::Label(numbered(jump_false, label)),
                            InstructionModel::Copy { src: short, dst },
                            InstructionModel::Label(numbered(end, label)),
                        ],
                        dst,
                        c2,
                    ),
                )
            },
            Err(e) => Err(e),
        },
        Err(e) => Err(e),
    }
    }
}

/// The instructions that compute an expression, the value that holds its result and
/// the counters after it.
pub open spec fn spec_translate_exp(e: ExpressionModel, c: Counters) -> TranslatedExp
    decreases e, 1nat,
{
    match e {
        ExpressionModel::Var(v) => Ok((seq![], ValModel::Var(v), c)),
        ExpressionModel::Constant(i) => Ok((seq![], ValModel::Constant(i), c)),
        ExpressionModel::Assignment { lvalue, expression } => match spec_translate_exp(*expression, c) {
            Ok((i1, right, c1)) => match spec_translate_exp(*lvalue, c1) {
                Ok((i2, left, c2)) => Ok((i1 + i2 + seq![InstructionModel::Copy { src: right, dst: left }], left, c2)),
                Err(err) => Err(err),
            },
            Err(err) => Err(err),
        },
        ExpressionModel::Unary { operator, operand } => if c.vars == i32::MAX {
            Err(TackyError::TooManyTemporaries)
        } else {
            let dst = tmp_var(c);
            match spec_translate_exp(*operand, with_vars(c, (c.vars + 1) as i32)) {
                Ok((i1, src, c1)) => Ok(
                    (i1 + seq![InstructionModel::Unary { op: source_unary_op(operator), src, dst }], dst, c1),
                ),
                Err(err) => Err(err),
            }
        },
        ExpressionModel::Binary { operator, left_expression, right_expression } => if c.vars == i32::MAX {
            Err(TackyError::TooManyTemporaries)
        } else {
            let dst = tmp_var(c);
            let c0 = with_vars(c, (c.vars + 1) as i32);
            if operator == SourceBinaryOp::And || operator == SourceBinaryOp::Or {
                if c0.labels == i32::MAX {
                    Err(TackyError::TooManyLabels)
                } else {
                    spec_logical(e, with_labels(c0, (c0.labels + 1) as i32), c0.labels, dst)
                }
            } else {
                match spec_translate_exp(*left_expression, c0) {
                    Ok((i1, left, c1)) => match spec_translate_exp(*right_expression, c1) {
                        Ok((i2, right, c2)) => match source_binary_op(operator) {
                            Some(op) => Ok((i1 + i2 + seq![InstructionModel::Binary { op, left, right, dst }], dst, c2)),
                            None => Err(TackyError::MisplacedOperator),
                        },
                        Err(err) => Err(err),
                    },
                    Err(err) => Err(err),
                }
            }
        },
        ExpressionModel::Conditional { .. } => if c.vars == i32::MAX {
            Err(TackyError::TooManyTemporaries)
        } else if c.labels == i32::MAX {
            Err(TackyError::TooManyLabels)
        } else {
            spec_conditional(
                e,
                Counters { vars: (c.vars + 1) as i32, labels: (c.labels + 1) as i32 },
                c.labels,
                tmp_var(c),
            )
        },
        ExpressionModel::FunctionCall { .. } => if c.vars == i32::MAX {
            Err(TackyError::TooManyTemporaries)
        } else {
            spec_call(e, with_vars(c, (c.vars + 1) as i32), tmp_var(c))
        },
    }
}

/// A conditional expression `condition ? then : otherwise` evaluated into `dst`,
/// with jump targets numbered `label`.
pub open spec fn spec_conditional(e: ExpressionModel, c: Counters, label: i32, dst: ValModel) -> TranslatedExp
    decreases e, 0nat,
{
    match e {
        ExpressionModel::Conditional { condition, then, otherwise } => match spec_translate_exp(*condition, c) {
            Ok((i1, cv, c1)) => match spec_translate_exp(*then, c1) {
                Ok((i2, tv, c2)) => match spec_translate_exp(*otherwise, c2) {
                    Ok((i3, ov, c3)) => Ok(
                        (
                            i1 + seq![
                                InstructionModel::JumpIfZero {
                                    condition: cv,
                                    target: numbered("ternary_otherwise"@, label),
                                },
                            ] + i2 + seq![
                                InstructionModel::Copy { src: tv, dst },
                                InstructionModel::Jump { target: numbered("ternary_end"@, label) },
                                InstructionModel::Label(numbered("ternary_otherwise"@, label)),
                            ] + i3 + seq![
                                InstructionModel::Copy { src: ov, dst },
                                InstructionModel::Label(numbered("ternary_end"@, label)),
                            ],
                            dst,
                            c3,
                        ),
                    ),
                    Err(err) => Err(err),
                },
                Err(err) => Err(err),
            },
            Err(err) => Err(err),
        },
        _ => Err(TackyError::MisplacedOperator),
    }
}

/// A call: its arguments from left to right, then the call with its result in `dst`.
pub open spec fn spec_call(e: ExpressionModel, c: Counters, dst: ValModel) -> TranslatedExp
    decreases e, 0nat,
{
    match e {
        ExpressionModel::FunctionCall { identifier, args } => match spec_translate_args(args, c) {
            Ok((i1, vals, c1)) => Ok(
                (i1 + seq![InstructionModel::FunCall { fun_name: identifier, args: vals, dst }], dst, c1),
            ),
            Err(err) => Err(err),
        },
        _ => Err(TackyError::MisplacedOperator),
    }
}

/// The arguments of a call, computed from left to right.
pub open spec fn spec_translate_args(args: Seq<ExpressionModel>, c: Counters) -> Result<
    (Seq<InstructionModel>, Seq<ValModel>, Counters),
    TackyError,
>
    decreases args, 1nat,
{
    if args.len() == 0 {
        Ok((seq![], seq![], c))
    } else {
        match spec_translate_args(args.drop_last(), c) {
            Ok((i1, vals, c1)) => match spec_translate_exp(args.last(), c1) {
                Ok((i2, v, c2)) => Ok((i1 + i2, vals.push(v), c2)),
                Err(err) => Err(err),
            },
            Err(err) => Err(err),
        }
    }
}

pub open spec fn spec_translate_optional_exp(e: Option<ExpressionModel>, c: Counters) -> Translated<Seq<InstructionModel>> {
    match e {
        Some(e) => match spec_translate_exp(e, c) {
            Ok((i, _, c1)) => Ok((i, c1)),
            Err(err) => Err(err),
        },
        None => Ok((seq![], c)),
    }
}

/// A variable declaration with an initializer is the assignment of it.
pub open spec fn spec_translate_variable(v: VariableModel, c: Counters) -> Translated<Seq<InstructionModel>> {
    match v.init {
        Some(e) => match spec_translate_exp(
            ExpressionModel::Assignment { lvalue: Box::new(ExpressionModel::Var(v.name)), expression: Box::new(e) },
            c,
        ) {
            Ok((i, _, c1)) => Ok((i, c1)),
            Err(err) => Err(err),
        },
        None => Ok((seq![], c)),
    }
}

pub open spec fn spec_translate_for_init(init: ForInitModel, c: Counters) -> Translated<Seq<InstructionModel>> {
    match init {
        ForInitModel::D(v) => spec_translate_variable(v, c),
        ForInitModel::E(e) => spec_translate_optional_exp(e, c),
    }
}

pub open spec fn spec_translate_item(item: LItemModel, c: Counters) -> Translated<Seq<InstructionModel>>
    decreases item,
{
    match item {
        LItemModel::S(s) => spec_translate_statement(s, c),
        LItemModel::D(LDeclarationModel::FuncDecl(f)) => if f.body is Some {
            Err(TackyError::NestedFunctionDefinition)
        } else {
            Ok((seq![], c))
        },
        LItemModel::D(LDeclarationModel::VarDecl(v)) => spec_translate_variable(v, c),
    }
}

pub open spec fn spec_translate_items(items: Seq<LItemModel>, c: Counters) -> Translated<Seq<InstructionModel>>
    decreases items,
{
    if items.len() == 0 {
        Ok((seq![], c))
    } else {
        match spec_translate_items(items.drop_last(), c) {
            Ok((i1, c1)) => match spec_translate_item(items.last(), c1) {
                Ok((i2, c2)) => Ok((i1 + i2, c2)),
                Err(err) => Err(err),
            },
            Err(err) => Err(err),
        }
    }
}

pub open spec fn loop_target(prefix: Seq<char>, label: Seq<char>) -> Seq<char> {
    prefix + label
}

pub open spec fn spec_translate_statement(s: LStatementModel, c: Counters) -> Translated<Seq<InstructionModel>>
    decreases s,
{
    match s {
        LStatementModel::Return(e) => match spec_translate_exp(e, c) {
            Ok((i, v, c1)) => Ok((i + seq![InstructionModel::Return(v)], c1)),
            Err(err) => Err(err),
        },
        LStatementModel::Expression(e) => match spec_translate_exp(e, c) {
            Ok((i, _, c1)) => Ok((i, c1)),
            Err(err) => Err(err),
        },
        LStatementModel::Null => Ok((seq![], c)),
        LStatementModel::If { condition, then, otherwise } => if c.labels == i32::MAX {
            Err(TackyError::TooManyLabels)
        } else {
            let label = c.labels;
            match spec_translate_exp(condition, with_labels(c, (c.labels + 1) as i32)) {
                Ok((i1, cv, c1)) => match spec_translate_statement(*then, c1) {
                    Ok((i2, c2)) => match otherwise {
                        Some(o) => match spec_translate_statement(*o, c2) {
                            Ok((i3, c3)) => Ok(
                                (
                                    i1 + seq![
                                        InstructionModel::JumpIfZero { condition: cv, target: numbered("if_else"@, label) },
                                    ] + i2 + seq![
                                        InstructionModel::Jump { target: numbered("if_end"@, label) },
                                        InstructionModel::Label(numbered("if_else"@, label)),
                                    ] + i3 + seq![InstructionModel::Label(numbered("if_end"@, label))],
                                    c3,
                                ),
                            ),
                            Err(err) => Err(err),
                        },
                        None => Ok(
                            (
                                i1 + seq![
                                    InstructionModel::JumpIfZero { condition: cv, target: numbered("if_end"@, label) },
                                ] + i2 + seq![InstructionModel::Label(numbered("if_end"@, label))],
                                c2,
                            ),
                        ),
                    },
                    Err(err) => Err(err),
                },
                Err(err) => Err(err),
            }
        },
        LStatementModel::Compound(items) => spec_translate_items(items, c),
        LStatementModel::Break(label) => Ok((seq![InstructionModel::Jump { target: loop_target("break_"@, label) }], c)),
        LStatementModel::Continue(label) => Ok(
            (seq![InstructionModel::Jump { target: loop_target("continue_"@, label) }], c),
        ),
        LStatementModel::While { condition, body, label } => match spec_translate_exp(condition, c) {
            Ok((i1, cv, c1)) => match spec_translate_statement(*body, c1) {
                Ok((i2, c2)) => Ok(
                    (
                        seq![InstructionModel::Label(loop_target("continue_"@, label))] + i1 + seq![
                            InstructionModel::JumpIfZero { condition: cv, target: loop_target("break_"@, label) },
                        ] + i2 + seq![
                            InstructionModel::Jump { target: loop_target("continue_"@, label) },
                            InstructionModel::Label(loop_target("break_"@, label)),
                        ],
                        c2,
                    ),
                ),
                Err(err) => Err(err),
            },
            Err(err) => Err(err),
        },
        LStatementModel::DoWhile { condition, body, label } => match spec_translate_statement(*body, c) {
            Ok((i1, c1)) => match spec_translate_exp(condition, c1) {
                Ok((i2, cv, c2)) => Ok(
                    (
                        seq![InstructionModel::Label(loop_target("start_"@, label))] + i1 + seq![
                            InstructionModel::Label(loop_target("continue_"@, label)),
                        ] + i2 + seq![
                            InstructionModel::JumpIfNotZero { condition: cv, target: loop_target("start_"@, label) },
                            InstructionModel::Label(loop_target("break_"@, label)),
                        ],
                        c2,
                    ),
                ),
                Err(err) => Err(err),
            },
            Err(err) => Err(err),
        },
        LStatementModel::For { init, condition, post, body, label } => match spec_translate_for_init(init, c) {
            Ok((i1, c1)) => match spec_translate_condition(condition, label, c1) {
                Ok((i2, c2)) => match spec_translate_statement(*body, c2) {
                    Ok((i3, c3)) => match spec_translate_optional_exp(post, c3) {
                        Ok((i4, c4)) => Ok(
                            (
                                i1 + seq![InstructionModel::Label(loop_target("start_"@, label))] + i2 + i3 + seq![
                                    InstructionModel::Label(loop_target("continue_"@, label)),
                                ] + i4 + seq![
                                    InstructionModel::Jump { target: loop_target("start_"@, label) },
                                    InstructionModel::Label(loop_target("break_"@, label)),
                                ],
                                c4,
                            ),
                        ),
                        Err(err) => Err(err),
                    },
                    Err(err) => Err(err),
                },
                Err(err) => Err(err),
            },
            Err(err) => Err(err),
        },
    }
}

/// The test of a `for` loop: none, or the condition and the jump out of the loop.
pub open spec fn spec_translate_condition(condition: Option<ExpressionModel>, label: Seq<char>, c: Counters) -> Translated<Seq<InstructionModel>> {
    match condition {
        Some(e) => match spec_translate_exp(e, c) {
            Ok((i, cv, c1)) => Ok(
                (i + seq![InstructionModel::JumpIfZero { condition: cv, target: loop_target("break_"@, label) }], c1),
            ),
            Err(err) => Err(err),
        },
        None => Ok((seq![], c)),
    }
}

/// A function with a body becomes its instructions and a final `return 0`; a
/// declaration without a body becomes nothing.
pub open spec fn spec_translate_function(f: LFunctionModel, c: Counters) -> Translated<Option<FunctionModel>> {
    match f.body {
        Some(items) => match spec_translate_items(items, c) {
            Ok((body, c1)) => Ok(
                (
                    Some(
                        FunctionModel {
                            identifier: f.name,
                            params: f.params,
                            body: body + seq![InstructionModel::Return(ValModel::Constant(0))],
                        },
                    ),
                    c1,
                ),
            ),
            Err(err) => Err(err),
        },
        None => Ok((None, c)),
    }
}

pub open spec fn spec_translate_functions(fs: Seq<LFunctionModel>, c: Counters) -> Result<Seq<FunctionModel>, TackyError>
    decreases fs.len(),
{
    if fs.len() == 0 {
        Ok(seq![])
    } else {
        match spec_translate_function(fs[0], c) {
            Ok((f, c1)) => match spec_translate_functions(fs.drop_first(), c1) {
                Ok(rest) => Ok(
                    match f {
                        Some(f) => seq![f] + rest,
                        None => rest,
                    },
                ),
                Err(err) => Err(err),
            },
            Err(err) => Err(err),
        }
    }
}

/// `now` is `before` with more instructions after it.
pub open spec fn extends(now: Seq<Instruction>, before: Seq<Instruction>) -> bool {
    before.len() <= now.len() && now.subrange(0, before.len() as int) == before
}

/// The models of the instructions that `now` has after `before`.
pub open spec fn emitted(now: Seq<Instruction>, before: Seq<Instruction>) -> Seq<InstructionModel> {
    instructions_model(now.skip(before.len() as int))
}

/// What a translation that writes to the end of a vector came to, in the shape of
/// `spec_translate_exp`.
pub open spec fn exp_outcome(r: Result<Val, TackyError>, emitted: Seq<InstructionModel>, c: Counters) -> TranslatedExp {
    match r {
        Ok(v) => Ok((emitted, v@, c)),
        Err(e) => Err(e),
    }
}

pub proof fn lemma_extends_trans(i0: Seq<Instruction>, i1: Seq<Instruction>, i2: Seq<Instruction>)
    requires
        extends(i1, i0),
        extends(i2, i1),
    ensures
        extends(i2, i0),
        emitted(i2, i0) == emitted(i1, i0) + emitted(i2, i1),
{
    assert(i2.subrange(0, i0.len() as int) =~= i1.subrange(0, i0.len() as int));
    assert(i2.skip(i0.len() as int) =~= i1.skip(i0.len() as int) + i2.skip(i1.len() as int));
    assert(instructions_model(i2.skip(i0.len() as int)) =~= instructions_model(i1.skip(i0.len() as int))
        + instructions_model(i2.skip(i1.len() as int)));
}

pub proof fn lemma_extends_push(i0: Seq<Instruction>, i1: Seq<Instruction>, x: Instruction)
    requires
        extends(i1, i0),
    ensures
        extends(i1.push(x), i0),
        emitted(i1.push(x), i0) == emitted(i1, i0).push(x@),
{
    assert(i1.push(x).subrange(0, i0.len() as int) =~= i1.subrange(0, i0.len() as int));
    assert(i1.push(x).skip(i0.len() as int) =~= i1.skip(i0.len() as int).push(x));
    assert(instructions_model(i1.push(x).skip(i0.len() as int)) =~= instructions_model(i1.skip(i0.len() as int)).push(x@));
}

pub proof fn lemma_extends_refl(i: Seq<Instruction>)
    ensures
        extends(i, i),
        emitted(i, i) == Seq::<InstructionModel>::empty(),
{
    assert(i.subrange(0, i.len() as int) =~= i);
    assert(instructions_model(i.skip(i.len() as int)) =~= Seq::<InstructionModel>::empty());
}

/// `prefix` followed by the decimal digits of `n`.
fn numbered_name(prefix: &str, n: i32) -> (result: String)
    ensures
        result@ == numbered(prefix@, n),
{
    let mut name = String::from_str(prefix);
    name.append(int_to_string(n).as_str());
    name
}

/// The name of a jump target of the loop labeled `label`.
fn loop_target_name(prefix: &str, label: &String) -> (result: String)
    ensures
        result@ == loop_target(prefix@, label@),
{
    let mut name = String::from_str(prefix);
    name.append(label.as_str());
    name
}

/// The temporary numbered `n`.
pub open spec fn tmp_numbered(n: i32) -> ValModel {
    ValModel::Var(numbered("tmp."@, n))
}

/// The value that an instruction computes anew: the destination of a unary or
/// binary operation or of a call.
pub open spec fn computed_dst(instruction: InstructionModel) -> Option<ValModel> {
    match instruction {
        InstructionModel::Unary { dst, .. } => Some(dst),
        InstructionModel::Binary { dst, .. } => Some(dst),
        InstructionModel::FunCall { dst, .. } => Some(dst),
        _ => None,
    }
}

/// What `instruction` computes anew, if anything, goes into a temporary numbered
/// from `lo` up to but not including `hi`.
pub open spec fn computes_into(instruction: InstructionModel, lo: int, hi: int) -> bool {
    computed_dst(instruction) is Some ==> exists|n: i32|
        lo <= n < hi && computed_dst(instruction) == Some(#[trigger] tmp_numbered(n))
}

/// `instructions` compute values only into temporaries numbered from `lo` up to
/// but not including `hi`, and into each of them at most once.
pub open spec fn fresh_temporaries(instructions: Seq<InstructionModel>, lo: int, hi: int) -> bool {
    &&& forall|k: int| 0 <= k < instructions.len() ==> computes_into(#[trigger] instructions[k], lo, hi)
    &&& forall|k1: int, k2: int|
        0 <= k1 < k2 < instructions.len() && (#[trigger] computed_dst(instructions[k1])) is Some ==> computed_dst(
            instructions[k1],
        ) != #[trigger] computed_dst(instructions[k2])
}

/// Different numbers give different temporaries.
pub proof fn lemma_tmp_numbered_injective()
    ensures
        forall|a: i32, b: i32| #[trigger] tmp_numbered(a) == #[trigger] tmp_numbered(b) ==> a == b,
{
    assert forall|a: i32, b: i32| #[trigger] tmp_numbered(a) == #[trigger] tmp_numbered(b) implies a == b by {
        let p = "tmp."@;
        assert((p + int_decimal(a as int)).skip(p.len() as int) =~= int_decimal(a as int));
        assert((p + int_decimal(b as int)).skip(p.len() as int) =~= int_decimal(b as int));
        crate::text::lemma_int_decimal_injective(a as int, b as int);
    }
}

proof fn lemma_fresh_widen(instructions: Seq<InstructionModel>, lo: int, hi: int, lo2: int, hi2: int)
    requires
        fresh_temporaries(instructions, lo, hi),
        lo2 <= lo,
        hi <= hi2,
    ensures
        fresh_temporaries(instructions, lo2, hi2),
{
    assert forall|k: int| 0 <= k < instructions.len() implies computes_into(#[trigger] instructions[k], lo2, hi2) by {
        assert(computes_into(instructions[k], lo, hi));
    }
}

proof fn lemma_fresh_single(instruction: InstructionModel, lo: int, hi: int)
    requires
        computes_into(instruction, lo, hi),
    ensures
        fresh_temporaries(seq![instruction], lo, hi),
{
}

proof fn lemma_fresh_concat(x: Seq<InstructionModel>, y: Seq<InstructionModel>, a: int, b: int, c: int, d: int)
    requires
        fresh_temporaries(x, a, b),
        fresh_temporaries(y, c, d),
        a <= b,
        c <= d,
        b <= c || d <= a,
    ensures
        fresh_temporaries(x + y, if a < c { a } else { c }, if b < d { d } else { b }),
{
    lemma_tmp_numbered_injective();
    let z = x + y;
    let lo = if a < c { a } else { c };
    let hi = if b < d { d } else { b };
    assert forall|k: int| 0 <= k < z.len() implies computes_into(#[trigger] z[k], lo, hi) by {
        if k < x.len() {
            assert(z[k] == x[k]);
            assert(computes_into(x[k], a, b));
        } else {
            assert(z[k] == y[k - x.len()]);
            assert(computes_into(y[k - x.len()], c, d));
        }
    }
    assert forall|k1: int, k2: int|
        0 <= k1 < k2 < z.len() && (#[trigger] computed_dst(z[k1])) is Some implies computed_dst(z[k1])
        != #[trigger] computed_dst(z[k2]) by {
        if k2 < x.len() {
            assert(z[k1] == x[k1] && z[k2] == x[k2]);
        } else if k1 >= x.len() {
            assert(z[k1] == y[k1 - x.len()] && z[k2] == y[k2 - x.len()]);
        } else {
            assert(z[k1] == x[k1] && z[k2] == y[k2 - x.len()]);
            assert(computes_into(x[k1], a, b));
            assert(computes_into(y[k2 - x.len()], c, d));
            if computed_dst(z[k2]) is Some {
                let n1 = choose|n: i32| a <= n < b && computed_dst(x[k1]) == Some(#[trigger] tmp_numbered(n));
                let n2 = choose|n: i32| c <= n < d && computed_dst(y[k2 - x.len()]) == Some(#[trigger] tmp_numbered(n));
                assert(n1 != n2);
                assert(tmp_numbered(n1) != tmp_numbered(n2));
            }
        }
    }
}

/// What an expression becomes: the counters never go down, every value that its
/// instructions compute goes into a temporary numbered from the counter before the
/// expression up to the counter after it, no two of them into the same temporary,
/// and an operation, a conditional or a call leaves its result in the first of
/// these temporaries.
pub proof fn lemma_translate_exp_fresh_temporaries(e: ExpressionModel, c: Counters)
    ensures
        match spec_translate_exp(e, c) {
            Ok((instructions, value, after)) => {
                &&& c.vars <= after.vars
                &&& c.labels <= after.labels
                &&& fresh_temporaries(instructions, c.vars as int, after.vars as int)
                &&& (e is Unary || e is Binary || e is Conditional || e is FunctionCall) ==> value == tmp_var(c)
            },
            Err(_) => true,
        },
    decreases e, 1nat,
{
    match e {
        ExpressionModel::Var(_) | ExpressionModel::Constant(_) => {},
        ExpressionModel::Assignment { lvalue, expression } => {
            lemma_translate_exp_fresh_temporaries(*expression, c);
            if let Ok((i1, right, c1)) = spec_translate_exp(*expression, c) {
                lemma_translate_exp_fresh_temporaries(*lvalue, c1);
                if let Ok((i2, left, c2)) = spec_translate_exp(*lvalue, c1) {
                    let copy = InstructionModel::Copy { src: right, dst: left };
                    lemma_fresh_concat(i1, i2, c.vars as int, c1.vars as int, c1.vars as int, c2.vars as int);
                    lemma_fresh_single(copy, c2.vars as int, c2.vars as int);
                    lemma_fresh_concat(i1 + i2, seq![copy], c.vars as int, c2.vars as int, c2.vars as int, c2.vars as int);
                }
            }
        },
        ExpressionModel::Unary { operator, operand } => {
            if c.vars != i32::MAX {
                let c0 = with_vars(c, (c.vars + 1) as i32);
                lemma_translate_exp_fresh_temporaries(*operand, c0);
                if let Ok((i1, src, c1)) = spec_translate_exp(*operand, c0) {
                    let op = InstructionModel::Unary { op: source_unary_op(operator), src, dst: tmp_var(c) };
                    assert(computed_dst(op) == Some(tmp_numbered(c.vars)));
                    lemma_fresh_single(op, c.vars as int, c0.vars as int);
                    lemma_fresh_concat(i1, seq![op], c0.vars as int, c1.vars as int, c.vars as int, c0.vars as int);
                }
            }
        },
        ExpressionModel::Binary { operator, left_expression, right_expression } => {
            if c.vars != i32::MAX {
                let c0 = with_vars(c, (c.vars + 1) as i32);
                if operator == SourceBinaryOp::And || operator == SourceBinaryOp::Or {
                    if c0.labels != i32::MAX {
                        let cl = with_labels(c0, (c0.labels + 1) as i32);
                        lemma_logical_fresh_temporaries(e, cl, c0.labels, tmp_var(c));
                        if let Ok((i, v, c1)) = spec_logical(e, cl, c0.labels, tmp_var(c)) {
                            lemma_fresh_widen(i, c0.vars as int, c1.vars as int, c.vars as int, c1.vars as int);
                        }
                    }
                } else {
                    lemma_translate_exp_fresh_temporaries(*left_expression, c0);
                    if let Ok((i1, left, c1)) = spec_translate_exp(*left_expression, c0) {
                        lemma_translate_exp_fresh_temporaries(*right_expression, c1);
                        if let Ok((i2, right, c2)) = spec_translate_exp(*right_expression, c1) {
                            if let Some(op) = source_binary_op(operator) {
                                let bin = InstructionModel::Binary { op, left, right, dst: tmp_var(c) };
                                assert(computed_dst(bin) == Some(tmp_numbered(c.vars)));
                                lemma_fresh_concat(i1, i2, c0.vars as int, c1.vars as int, c1.vars as int, c2.vars as int);
                                lemma_fresh_single(bin, c.vars as int, c0.vars as int);
                                lemma_fresh_concat(i1 + i2, seq![bin], c0.vars as int, c2.vars as int, c.vars as int, c0.vars as int);
                            }
                        }
                    }
                }
            }
        },
        ExpressionModel::Conditional { .. } => {
            if c.vars != i32::MAX && c.labels != i32::MAX {
                let c0 = Counters { vars: (c.vars + 1) as i32, labels: (c.labels + 1) as i32 };
                lemma_conditional_fresh_temporaries(e, c0, c.labels, tmp_var(c));
                if let Ok((i, v, c1)) = spec_conditional(e, c0, c.labels, tmp_var(c)) {
                    lemma_fresh_widen(i, c0.vars as int, c1.vars as int, c.vars as int, c1.vars as int);
                }
            }
        },
        ExpressionModel::FunctionCall { .. } => {
            if c.vars != i32::MAX {
                let c0 = with_vars(c, (c.vars + 1) as i32);
                lemma_call_fresh_temporaries(e, c0, tmp_var(c));
                if let Ok((i, v, c1)) = spec_call(e, c0, tmp_var(c)) {
                    assert(computed_dst(i.last()) == Some(tmp_numbered(c.vars)));
                    lemma_fresh_single(i.last(), c.vars as int, c0.vars as int);
                    lemma_fresh_concat(i.drop_last(), seq![i.last()], c0.vars as int, c1.vars as int, c.vars as int, c0.vars as int);
                    assert(i.drop_last() + seq![i.last()] =~= i);
                }
            }
        },
    }
}

proof fn lemma_logical_fresh_temporaries(e: ExpressionModel, c: Counters, label: i32, dst: ValModel)
    ensures
        match spec_logical(e, c, label, dst) {
            Ok((instructions, value, after)) => {
                &&& c.vars <= after.vars
                &&& c.labels <= after.labels
                &&& fresh_temporaries(instructions, c.vars as int, after.vars as int)
                &&& value == dst
            },
            Err(_) => true,
        },
    decreases e, 0nat,
{
    if let ExpressionModel::Binary { operator, left_expression, right_expression } = e {
        let is_and = operator == SourceBinaryOp::And;
        lemma_translate_exp_fresh_temporaries(*left_expression, c);
        if let Ok((i1, lv, c1)) = spec_translate_exp(*left_expression, c) {
            lemma_translate_exp_fresh_temporaries(*right_expression, c1);
            if let Ok((i2, rv, c2)) = spec_translate_exp(*right_expression, c1) {
                if let Ok((i, v, c3)) = spec_logical(e, c, label, dst) {
                    let rest = i.skip(i1.len() as int);
                    assert(i == i1 + rest);
                    let jumps = rest.take(1);
                    let after_right: int = 1 + i2.len() as int;
                    assert(rest == jumps + i2 + rest.skip(after_right));
                    assert forall|k: int| 0 <= k < jumps.len() implies computed_dst(#[trigger] jumps[k]) is None by {}
                    assert forall|k: int| 0 <= k < rest.skip(after_right).len() implies computed_dst(
                        #[trigger] rest.skip(after_right)[k],
                    ) is None by {}
                    lemma_fresh_concat(i1, jumps, c.vars as int, c1.vars as int, c1.vars as int, c1.vars as int);
                    lemma_fresh_concat(i1 + jumps, i2, c.vars as int, c1.vars as int, c1.vars as int, c2.vars as int);
                    lemma_fresh_concat(i1 + jumps + i2, rest.skip(after_right), c.vars as int, c2.vars as int, c2.vars as int, c2.vars as int);
                    assert(i1 + jumps + i2 + rest.skip(after_right) =~= i);
                }
            }
        }
    }
}

proof fn lemma_conditional_fresh_temporaries(e: ExpressionModel, c: Counters, label: i32, dst: ValModel)
    ensures
        match spec_conditional(e, c, label, dst) {
            Ok((instructions, value, after)) => {
                &&& c.vars <= after.vars
                &&& c.labels <= after.labels
                &&& fresh_temporaries(instructions, c.vars as int, after.vars as int)
                &&& value == dst
            },
            Err(_) => true,
        },
    decreases e, 0nat,
{
    if let ExpressionModel::Conditional { condition, then, otherwise } = e {
        lemma_translate_exp_fresh_temporaries(*condition, c);
        if let Ok((i1, cv, c1)) = spec_translate_exp(*condition, c) {
            lemma_translate_exp_fresh_temporaries(*then, c1);
            if let Ok((i2, tv, c2)) = spec_translate_exp(*then, c1) {
                lemma_translate_exp_fresh_temporaries(*otherwise, c2);
                if let Ok((i3, ov, c3)) = spec_translate_exp(*otherwise, c2) {
                    let j1 = seq![InstructionModel::JumpIfZero { condition: cv, target: numbered("ternary_otherwise"@, label) }];
                    let j2 = seq![
                        InstructionModel::Copy { src: tv, dst },
                        InstructionModel::Jump { target: numbered("ternary_end"@, label) },
                        InstructionModel::Label(numbered("ternary_otherwise"@, label)),
                    ];
                    let j3 = seq![
                        InstructionModel::Copy { src: ov, dst },
                        InstructionModel::Label(numbered("ternary_end"@, label)),
                    ];
                    let a = c.vars as int;
                    let b = c1.vars as int;
                    let m = c2.vars as int;
                    let z = c3.vars as int;
                    lemma_fresh_concat(i1, j1, a, b, b, b);
                    lemma_fresh_concat(i1 + j1, i2, a, b, b, m);
                    lemma_fresh_concat(i1 + j1 + i2, j2, a, m, m, m);
                    lemma_fresh_concat(i1 + j1 + i2 + j2, i3, a, m, m, z);
                    lemma_fresh_concat(i1 + j1 + i2 + j2 + i3, j3, a, z, z, z);
                }
            }
        }
    }
}

proof fn lemma_call_fresh_temporaries(e: ExpressionModel, c: Counters, dst: ValModel)
    ensures
        match spec_call(e, c, dst) {
            Ok((instructions, value, after)) => {
                &&& c.vars <= after.vars
                &&& c.labels <= after.labels
                &&& instructions.len() > 0
                &&& fresh_temporaries(instructions.drop_last(), c.vars as int, after.vars as int)
                &&& computed_dst(instructions.last()) == Some(dst)
                &&& value == dst
            },
            Err(_) => true,
        },
    decreases e, 0nat,
{
    if let ExpressionModel::FunctionCall { identifier, args } = e {
        lemma_args_fresh_temporaries(args, c);
        if let Ok((i1, vals, c1)) = spec_translate_args(args, c) {
            let i = i1 + seq![InstructionModel::FunCall { fun_name: identifier, args: vals, dst }];
            assert(i.drop_last() =~= i1);
        }
    }
}

proof fn lemma_args_fresh_temporaries(args: Seq<ExpressionModel>, c: Counters)
    ensures
        match spec_translate_args(args, c) {
            Ok((instructions, values, after)) => {
                &&& c.vars <= after.vars
                &&& c.labels <= after.labels
                &&& fresh_temporaries(instructions, c.vars as int, after.vars as int)
            },
            Err(_) => true,
        },
    decreases args, 1nat,
{
    if args.len() > 0 {
        lemma_args_fresh_temporaries(args.drop_last(), c);
        if let Ok((i1, vals, c1)) = spec_translate_args(args.drop_last(), c) {
            lemma_translate_exp_fresh_temporaries(args.last(), c1);
            if let Ok((i2, v, c2)) = spec_translate_exp(args.last(), c1) {
                lemma_fresh_concat(i1, i2, c.vars as int, c1.vars as int, c1.vars as int, c2.vars as int);
            }
        }
    }
}

/// `1` for true and `0` for false, as C's comparisons and logical operators give.
pub open spec fn truth_value(b: bool) -> int {
    if b {
        1
    } else {
        0
    }
}

/// The quotient of `a` by `b` rounded toward zero, as C's `/` divides.
pub open spec fn truncated_quotient(a: int, b: int) -> int {
    let q = (if a < 0 {
        -a
    } else {
        a
    }) / (if b < 0 {
        -b
    } else {
        b
    });
    if (a < 0) == (b < 0) {
        q
    } else {
        -q
    }
}

/// The remainder that goes with `truncated_quotient`, as C's `%` gives it.
pub open spec fn truncated_remainder(a: int, b: int) -> int {
    a - b * truncated_quotient(a, b)
}

/// What the C operator `op` makes of the values `a` and `b` (its right side,
/// for an assignment; the middle one, for a conditional, does not enter).
pub open spec fn source_value(op: SourceBinaryOp, a: int, b: int) -> int {
    match op {
        SourceBinaryOp::Add => a + b,
        SourceBinaryOp::Subtract => a - b,
        SourceBinaryOp::Multiply => a * b,
        SourceBinaryOp::Divide => truncated_quotient(a, b),
        SourceBinaryOp::Remainder => truncated_remainder(a, b),
        SourceBinaryOp::And => truth_value(a != 0 && b != 0),
        SourceBinaryOp::Or => truth_value(a != 0 || b != 0),
        SourceBinaryOp::Equal => truth_value(a == b),
        SourceBinaryOp::NotEqual => truth_value(a != b),
        SourceBinaryOp::LessThan => truth_value(a < b),
        SourceBinaryOp::LessOrEqual => truth_value(a <= b),
        SourceBinaryOp::GreaterThan => truth_value(a > b),
        SourceBinaryOp::GreaterOrEqual => truth_value(a >= b),
        SourceBinaryOp::Assignment => b,
        SourceBinaryOp::Ternary => b,
    }
}

/// What the TACKY instruction `dst = a op b` stores in `dst`.
pub open spec fn tacky_value(op: BinaryOp, a: int, b: int) -> int {
    match op {
        BinaryOp::Add => a + b,
        BinaryOp::Subtract => a - b,
        BinaryOp::Multiply => a * b,
        BinaryOp::Divide => truncated_quotient(a, b),
        BinaryOp::Remainder => truncated_remainder(a, b),
        BinaryOp::Equal => truth_value(a == b),
        BinaryOp::NotEqual => truth_value(a != b),
        BinaryOp::LessThan => truth_value(a < b),
        BinaryOp::LessOrEqual => truth_value(a <= b),
        BinaryOp::GreaterThan => truth_value(a > b),
        BinaryOp::GreaterOrEqual => truth_value(a >= b),
    }
}

/// What C's unary operator `op` makes of `a`.
pub open spec fn source_unary_value(op: SourceUnaryOp, a: int) -> int {
    match op {
        SourceUnaryOp::Complement => -a - 1,
        SourceUnaryOp::Negate => -a,
        SourceUnaryOp::Not => truth_value(a == 0),
    }
}

/// What the TACKY instruction `dst = op a` stores in `dst`.
pub open spec fn tacky_unary_value(op: UnaryOp, a: int) -> int {
    match op {
        UnaryOp::Complement => -a - 1,
        UnaryOp::Negate => -a,
        UnaryOp::Not => truth_value(a == 0),
    }
}

/// Every arithmetic and comparison operator of C becomes a TACKY operator that
/// computes the same value from the same operands, whatever they are; the
/// short-circuit operators, assignment and the conditional have none, and
/// every unary operator becomes one of the same meaning.
pub proof fn lemma_operators_keep_their_meaning(op: SourceBinaryOp, unary: SourceUnaryOp)
    ensures
        source_binary_op(op) is None <==> (op == SourceBinaryOp::And || op == SourceBinaryOp::Or || op
            == SourceBinaryOp::Assignment || op == SourceBinaryOp::Ternary),
        source_binary_op(op) matches Some(t) ==> forall|a: int, b: int| tacky_value(t, a, b) == source_value(op, a, b),
        forall|a: int| tacky_unary_value(source_unary_op(unary), a) == source_unary_value(unary, a),
{
}

/// An arithmetic or comparison operator applied to two constants becomes one
/// TACKY instruction that stores in a new temporary what the C operator makes of
/// the two constants, whatever they are; that temporary is the result.
pub proof fn lemma_binary_of_constants(op: SourceBinaryOp, a: i32, b: i32, c: Counters)
    requires
        source_binary_op(op) is Some,
        c.vars < i32::MAX,
    ensures
        match spec_translate_exp(
            ExpressionModel::Binary {
                operator: op,
                left_expression: Box::new(ExpressionModel::Constant(a)),
                right_expression: Box::new(ExpressionModel::Constant(b)),
            },
            c,
        ) {
            Ok((instructions, value, after)) => {
                &&& instructions.len() == 1
                &&& value == tmp_var(c)
                &&& instructions[0] matches InstructionModel::Binary { op: t, left, right, dst } && left == ValModel::Constant(a)
                    && right == ValModel::Constant(b) && dst == value && forall|x: int, y: int|
                    tacky_value(t, x, y) == source_value(op, x, y)
            },
            Err(_) => false,
        },
{
    lemma_operators_keep_their_meaning(op, SourceUnaryOp::Not);
    let e = ExpressionModel::Binary {
        operator: op,
        left_expression: Box::new(ExpressionModel::Constant(a)),
        right_expression: Box::new(ExpressionModel::Constant(b)),
    };
    let c0 = with_vars(c, (c.vars + 1) as i32);
    assert(spec_translate_exp(ExpressionModel::Constant(a), c0) == Ok::<(Seq<InstructionModel>, ValModel, Counters), TackyError>((seq![], ValModel::Constant(a), c0)));
    assert(spec_translate_exp(ExpressionModel::Constant(b), c0) == Ok::<(Seq<InstructionModel>, ValModel, Counters), TackyError>((seq![], ValModel::Constant(b), c0)));
    if let Ok((instructions, value, after)) = spec_translate_exp(e, c) {
        assert(instructions =~= seq![
            InstructionModel::Binary {
                op: source_binary_op(op).unwrap(),
                left: ValModel::Constant(a),
                right: ValModel::Constant(b),
                dst: tmp_var(c),
            },
        ]);
    }
}

/// Numbers temporaries and labels while a program is translated.
pub struct TackyTranslator {
    var_count: i32,
    label_count: i32,
}

impl TackyTranslator {
    pub closed spec fn counters(&self) -> Counters {
        Counters { vars: self.var_count, labels: self.label_count }
    }

    pub fn new() -> (result: Self)
        ensures
            result.counters() == (Counters { vars: 0, labels: 0 }),
    {
        TackyTranslator { var_count: 0, label_count: 0 }
    }

    fn translate_identifier(&self, identifier: Identifier) -> (result: String)
        ensures
            result == identifier,
    {
        identifier
    }

    /// Appends to `instructions` what computes `expression`, and returns the value
    /// that holds its result.
    pub fn try_translate_expression(
        &mut self,
        expression: parser::Expression,
        instructions: &mut Vec<Instruction>,
    ) -> (result: Result<Val, TackyError>)
        ensures
            result is Ok ==> extends(final(instructions)@, old(instructions)@),
            spec_translate_exp(expression@, old(self).counters()) == exp_outcome(
                result,
                emitted(final(instructions)@, old(instructions)@),
                final(self).counters(),
            ),
        decreases expression, 1nat,
    {
        let ghost whole = expression;
        let ghost i0 = instructions@;
        proof {
            lemma_extends_refl(i0);
        }
        match expression {
            parser::Expression::Var(v) => Ok(Val::Var(v)),
            parser::Expression::Constant(value) => Ok(Val::Constant(value)),
            parser::Expression::Assignment { lvalue, expression } => {
                let right = self.try_translate_expression(*expression, instructions)?;
                let ghost i1 = instructions@;
                let left = self.try_translate_expression(*lvalue, instructions)?;
                let ghost i2 = instructions@;
                let copy = Instruction::Copy { src: right, dst: left.clone() };
                proof {
                    lemma_extends_trans(i0, i1, i2);
                    lemma_extends_push(i0, i2, copy);
                }
                instructions.push(copy);
                proof {
                    assert(emitted(instructions@, i0) =~= emitted(i1, i0) + emitted(i2, i1) + seq![copy@]);
                }
                Ok(left)
            },
            parser::Expression::Unary { operator, operand } => {
                if self.var_count == i32::MAX {
                    return Err(TackyError::TooManyTemporaries);
                }
                let dst = Val::Var(numbered_name("tmp.", self.var_count));
                self.var_count = self.var_count + 1;
                let src = self.try_translate_expression(*operand, instructions)?;
                let ghost i1 = instructions@;
                let op = match operator {
                    parser::UnaryOp::Complement => UnaryOp::Complement,
                    parser::UnaryOp::Negate => UnaryOp::Negate,
                    parser::UnaryOp::Not => UnaryOp::Not,
                };
                let unary = Instruction::Unary { op, src, dst: dst.clone() };
                proof {
                    lemma_extends_push(i0, i1, unary);
                }
                instructions.push(unary);
                proof {
                    assert(emitted(instructions@, i0) =~= emitted(i1, i0) + seq![unary@]);
                }
                Ok(dst)
            },
            parser::Expression::Binary { operator, left_expression, right_expression } => {
                if self.var_count == i32::MAX {
                    return Err(TackyError::TooManyTemporaries);
                }
                let dst = Val::Var(numbered_name("tmp.", self.var_count));
                self.var_count = self.var_count + 1;
                if operator == parser::BinaryOp::And || operator == parser::BinaryOp::Or {
                    if self.label_count == i32::MAX {
                        return Err(TackyError::TooManyLabels);
                    }
                    let label_count = self.label_count;
                    self.label_count = self.label_count + 1;
                    self.translate_logical(
                        operator == parser::BinaryOp::And,
                        *left_expression,
                        *right_expression,
                        label_count,
                        dst,
                        instructions,
                        Ghost(whole),
                    )
                } else {
                    let left = self.try_translate_expression(*left_expression, instructions)?;
                    let ghost i1 = instructions@;
                    let right = self.try_translate_expression(*right_expression, instructions)?;
                    let ghost i2 = instructions@;
                    let op = match operator {
                        parser::BinaryOp::Add => BinaryOp::Add,
                        parser::BinaryOp::Subtract => BinaryOp::Subtract,
                        parser::BinaryOp::Multiply => BinaryOp::Multiply,
                        parser::BinaryOp::Divide => BinaryOp::Divide,
                        parser::BinaryOp::Remainder => BinaryOp::Remainder,
                        parser::BinaryOp::Equal => BinaryOp::Equal,
                        parser::BinaryOp::NotEqual => BinaryOp::NotEqual,
                        parser::BinaryOp::LessThan => BinaryOp::LessThan,
                        parser::BinaryOp::LessOrEqual => BinaryOp::LessOrEqual,
                        parser::BinaryOp::GreaterThan => BinaryOp::GreaterThan,
                        parser::BinaryOp::GreaterOrEqual => BinaryOp::GreaterOrEqual,
                        _ => {
                            return Err(TackyError::MisplacedOperator);
                        },
                    };
                    let binary = Instruction::Binary { op, left, right, dst: dst.clone() };
                    proof {
                        lemma_extends_trans(i0, i1, i2);
                        lemma_extends_push(i0, i2, binary);
                    }
                    instructions.push(binary);
                    proof {
                        assert(emitted(instructions@, i0) =~= emitted(i1, i0) + emitted(i2, i1) + seq![binary@]);
                    }
                    Ok(dst)
                }
            },
            parser::Expression::Conditional { condition, then, otherwise } => {
                if self.var_count == i32::MAX {
                    return Err(TackyError::TooManyTemporaries);
                }
                if self.label_count == i32::MAX {
                    return Err(TackyError::TooManyLabels);
                }
                let dst = Val::Var(numbered_name("tmp.", self.var_count));
                self.var_count = self.var_count + 1;
                let label_count = self.label_count;
                self.label_count = self.label_count + 1;
                self.translate_conditional(*condition, *then, *otherwise, label_count, dst, instructions, Ghost(whole))
            },
            parser::Expression::FunctionCall { identifier, args } => {
                if self.var_count == i32::MAX {
                    return Err(TackyError::TooManyTemporaries);
                }
                let dst = Val::Var(numbered_name("tmp.", self.var_count));
                self.var_count = self.var_count + 1;
                self.translate_call(identifier, args, dst, instructions, Ghost(whole))
            },
        }
    }
}

impl TackyTranslator {
    /// The short-circuit evaluation of `left && right` (when `is_and`) or
    /// `left || right` into `dst`, with jump targets numbered `label`.
    fn translate_logical(
        &mut self,
        is_and: bool,
        left_expression: parser::Expression,
        right_expression: parser::Expression,
        label: i32,
        dst: Val,
        instructions: &mut Vec<Instruction>,
        Ghost(whole): Ghost<parser::Expression>,
    ) -> (result: Result<Val, TackyError>)
        requires
            whole == (parser::Expression::Binary {
                operator: if is_and { parser::BinaryOp::And } else { parser::BinaryOp::Or },
                left_expression: Box::new(left_expression),
                right_expression: Box::new(right_expression),
            }),
        ensures
            result is Ok ==> extends(final(instructions)@, old(instructions)@),
            spec_logical(whole@, old(self).counters(), label, dst@) == exp_outcome(
                result,
                emitted(final(instructions)@, old(instructions)@),
                final(self).counters(),
            ),
        decreases whole, 0nat,
    {
        let ghost i0 = instructions@;
        let (jump_name, end_name) = if is_and {
            (numbered_name("and_false", label), numbered_name("and_end", label))
        } else {
            (numbered_name("or_false", label), numbered_name("or_end", label))
        };
        let (short, long) = if is_and {
            (Val::Constant(0), Val::Constant(1))
        } else {
            (Val::Constant(1), Val::Constant(0))
        };
        let left = self.try_translate_expression(left_expression, instructions)?;
        let ghost i1 = instructions@;
        let first_jump = if is_and {
            Instruction::JumpIfZero { condition: left, target: jump_name.clone() }
        } else {
            Instruction::JumpIfNotZero { condition: left, target: jump_name.clone() }
        };
        proof {
            lemma_extends_push(i0, i1, first_jump);
        }
        instructions.push(first_jump);
        let ghost i1j = instructions@;
        let right = self.try_translate_expression(right_expression, instructions)?;
        let ghost i2 = instructions@;
        proof {
            lemma_extends_trans(i0, i1j, i2);
        }
        let second_jump = if is_and {
            Instruction::JumpIfZero { condition: right, target: jump_name.clone() }
        } else {
            Instruction::JumpIfNotZero { condition: right, target: jump_name.clone() }
        };
        let tail = vec![
            second_jump,
            Instruction::Copy { src: long, dst: dst.clone() },
            Instruction::Jump { target: end_name.clone() },
            Instruction::Label(jump_name),
            Instruction::Copy { src: short, dst: dst.clone() },
            Instruction::Label(end_name),
        ];
        let ghost tail_model = instructions_model(tail@);
        proof {
            assert(tail_model =~= seq![tail@[0]@, tail@[1]@, tail@[2]@, tail@[3]@, tail@[4]@, tail@[5]@]);
        }
        self.emit_all(tail, instructions);
        proof {
            lemma_extends_trans(i0, i2, instructions@);
            assert(emitted(instructions@, i0) =~= emitted(i1, i0) + seq![first_jump@] + emitted(i2, i1j) + tail_model);
        }
        Ok(dst)
    }

    /// Appends `tail` to `instructions`.
    fn emit_all(&self, tail: Vec<Instruction>, instructions: &mut Vec<Instruction>)
        ensures
            extends(final(instructions)@, old(instructions)@),
            emitted(final(instructions)@, old(instructions)@) == instructions_model(tail@),
    {
        let ghost i0 = instructions@;
        proof {
            lemma_extends_refl(i0);
        }
        for x in it: tail
            invariant
                it.seq() == tail@,
                extends(instructions@, i0),
                emitted(instructions@, i0) == instructions_model(tail@.take(it.index() as int)),
        {
            proof {
                lemma_extends_push(i0, instructions@, x);
                assert(instructions_model(tail@.take(it.index() + 1)) =~= instructions_model(
                    tail@.take(it.index() as int),
                ).push(x@));
            }
            instructions.push(x);
        }
        proof {
            assert(tail@.take(tail@.len() as int) =~= tail@);
        }
    }

    /// `condition ? then : otherwise` evaluated into `dst`, with jump targets
    /// numbered `label`.
    fn translate_conditional(
        &mut self,
        condition: parser::Expression,
        then: parser::Expression,
        otherwise: parser::Expression,
        label: i32,
        dst: Val,
        instructions: &mut Vec<Instruction>,
        Ghost(whole): Ghost<parser::Expression>,
    ) -> (result: Result<Val, TackyError>)
        requires
            whole == (parser::Expression::Conditional {
                condition: Box::new(condition),
                then: Box::new(then),
                otherwise: Box::new(otherwise),
            }),
        ensures
            result is Ok ==> extends(final(instructions)@, old(instructions)@),
            spec_conditional(whole@, old(self).counters(), label, dst@) == exp_outcome(
                result,
                emitted(final(instructions)@, old(instructions)@),
                final(self).counters(),
            ),
        decreases whole, 0nat,
    {
        let ghost i0 = instructions@;
        let otherwise_name = numbered_name("ternary_otherwise", label);
        let end_name = numbered_name("ternary_end", label);
        let cv = self.try_translate_expression(condition, instructions)?;
        let ghost i1 = instructions@;
        let jump = Instruction::JumpIfZero { condition: cv, target: otherwise_name.clone() };
        proof {
            lemma_extends_push(i0, i1, jump);
        }
        instructions.push(jump);
        let ghost i1j = instructions@;
        let tv = self.try_translate_expression(then, instructions)?;
        let ghost i2 = instructions@;
        proof {
            lemma_extends_trans(i0, i1j, i2);
        }
        let middle = vec![
            Instruction::Copy { src: tv, dst: dst.clone() },
            Instruction::Jump { target: end_name.clone() },
            Instruction::Label(otherwise_name),
        ];
        let ghost middle_model = instructions_model(middle@);
        proof {
            assert(middle_model =~= seq![middle@[0]@, middle@[1]@, middle@[2]@]);
        }
        self.emit_all(middle, instructions);
        let ghost i2j = instructions@;
        proof {
            lemma_extends_trans(i0, i2, i2j);
        }
        let ov = self.try_translate_expression(otherwise, instructions)?;
        let ghost i3 = instructions@;
        proof {
            lemma_extends_trans(i0, i2j, i3);
        }
        let tail = vec![Instruction::Copy { src: ov, dst: dst.clone() }, Instruction::Label(end_name)];
        let ghost tail_model = instructions_model(tail@);
        proof {
            assert(tail_model =~= seq![tail@[0]@, tail@[1]@]);
        }
        self.emit_all(tail, instructions);
        proof {
            lemma_extends_trans(i0, i3, instructions@);
            assert(emitted(instructions@, i0) =~= emitted(i1, i0) + seq![jump@] + emitted(i2, i1j) + middle_model
                + emitted(i3, i2j) + tail_model);
        }
        Ok(dst)
    }

    /// The arguments of a call from left to right, then the call with its result
    /// in `dst`.
    #[verifier::loop_isolation(false)]
    fn translate_call(
        &mut self,
        identifier: Identifier,
        args: Vec<parser::Expression>,
        dst: Val,
        instructions: &mut Vec<Instruction>,
        Ghost(whole): Ghost<parser::Expression>,
    ) -> (result: Result<Val, TackyError>)
        requires
            whole == (parser::Expression::FunctionCall { identifier, args }),
        ensures
            result is Ok ==> extends(final(instructions)@, old(instructions)@),
            spec_call(whole@, old(self).counters(), dst@) == exp_outcome(
                result,
                emitted(final(instructions)@, old(instructions)@),
                final(self).counters(),
            ),
        decreases whole, 0nat,
    {
        let ghost i0 = instructions@;
        let ghost all = parser::expressions_model(args@);
        let ghost c1 = self.counters();
        let mut translated_args: Vec<Val> = Vec::new();
        proof {
            parser::lemma_expressions_model_index(args@);
            lemma_extends_refl(i0);
            assert(all.take(0) =~= seq![]);
            assert(vals_model(translated_args@) =~= seq![]);
        }
        for a in it: args
            invariant
                it.seq() == args@,
                all == parser::expressions_model(args@),
                all.len() == args@.len(),
                forall|i: int| 0 <= i < args@.len() ==> #[trigger] all[i] == args@[i]@,
                extends(instructions@, i0),
                spec_translate_args(all.take(it.index() as int), c1) == Ok::<_, TackyError>(
                    (emitted(instructions@, i0), vals_model(translated_args@), self.counters()),
                ),
        {
            let ghost k = it.index() as int;
            let ghost ik = instructions@;
            proof {
                assert(decreases_to!(whole => args));
                assert(decreases_to!(args => args@[k]));
                assert(all.take(k + 1).drop_last() =~= all.take(k));
                assert(all.take(k + 1).last() == a@);
            }
            let v = match self.try_translate_expression(a, instructions) {
                Ok(v) => v,
                Err(err) => {
                    proof {
                        lemma_args_prefix_error(all, k + 1, c1);
                    }
                    return Err(err);
                },
            };
            proof {
                lemma_extends_trans(i0, ik, instructions@);
                assert(vals_model(translated_args@.push(v)) =~= vals_model(translated_args@).push(v@));
            }
            translated_args.push(v);
        }
        let ghost i1 = instructions@;
        proof {
            assert(all.take(all.len() as int) =~= all);
        }
        let call = Instruction::FunCall {
            fun_name: self.translate_identifier(identifier),
            args: translated_args,
            dst: dst.clone(),
        };
        proof {
            lemma_extends_push(i0, i1, call);
        }
        instructions.push(call);
        proof {
            assert(emitted(instructions@, i0) =~= emitted(i1, i0) + seq![call@]);
        }
        Ok(dst)
    }
}

/// What a translation that returns its instructions came to, in the shape of
/// `spec_translate_statement`.
pub open spec fn stmt_outcome(r: Result<Vec<Instruction>, TackyError>, c: Counters) -> Translated<Seq<InstructionModel>> {
    match r {
        Ok(v) => Ok((instructions_model(v@), c)),
        Err(e) => Err(e),
    }
}

impl TackyTranslator {
    /// The instructions of a statement.
    #[verifier::spinoff_prover]
    pub fn try_translate_statement(&mut self, statement: loop_labeling::LabeledStatement) -> (result: Result<
        Vec<Instruction>,
        TackyError,
    >)
        ensures
            spec_translate_statement(statement@, old(self).counters()) == stmt_outcome(result, final(self).counters()),
        decreases statement, 1nat,
    {
        let ghost whole = statement;
        let mut instructions: Vec<Instruction> = Vec::new();
        let ghost i0 = instructions@;
        proof {
            lemma_extends_refl(i0);
            assert(i0 =~= seq![]);
        }
        match statement {
            loop_labeling::LabeledStatement::Return(expression) => {
                let value = self.try_translate_expression(expression, &mut instructions)?;
                let ghost i1 = instructions@;
                let ret = Instruction::Return(value);
                proof {
                    lemma_extends_push(i0, i1, ret);
                }
                instructions.push(ret);
                proof {
                    assert(instructions_model(instructions@) =~= emitted(i1, i0) + seq![ret@]);
                }
            },
            loop_labeling::LabeledStatement::Expression(expression) => {
                self.try_translate_expression(expression, &mut instructions)?;
                proof {
                    assert(instructions_model(instructions@) =~= emitted(instructions@, i0));
                }
            },
            loop_labeling::LabeledStatement::Null => {
                proof {
                    assert(instructions_model(instructions@) =~= seq![]);
                }
            },
            loop_labeling::LabeledStatement::If { condition, then, otherwise } => {
                return self.translate_if(condition, *then, otherwise, Ghost(whole));
            },
            loop_labeling::LabeledStatement::Compound(block) => {
                return self.translate_block(block);
            },
            loop_labeling::LabeledStatement::Break(label) => {
                instructions.push(Instruction::Jump { target: loop_target_name("break_", &label) });
                proof {
                    assert(instructions_model(instructions@) =~= seq![instructions@[0]@]);
                }
            },
            loop_labeling::LabeledStatement::Continue(label) => {
                instructions.push(Instruction::Jump { target: loop_target_name("continue_", &label) });
                proof {
                    assert(instructions_model(instructions@) =~= seq![instructions@[0]@]);
                }
            },
            loop_labeling::LabeledStatement::While { condition, body, label } => {
                return self.translate_while(condition, *body, label, Ghost(whole));
            },
            loop_labeling::LabeledStatement::DoWhile { condition, body, label } => {
                return self.translate_do_while(condition, *body, label, Ghost(whole));
            },
            loop_labeling::LabeledStatement::For { init, condition, post, body, label } => {
                return self.translate_for(init, condition, post, *body, label, Ghost(whole));
            },
        };
        Ok(instructions)
    }

    /// `if` with or without `else`, with jump targets numbered by the label counter.
    #[verifier::spinoff_prover]
    #[verifier::rlimit(40)]
    fn translate_if(
        &mut self,
        condition: parser::Expression,
        then: loop_labeling::LabeledStatement,
        otherwise: Option<Box<loop_labeling::LabeledStatement>>,
        Ghost(whole): Ghost<loop_labeling::LabeledStatement>,
    ) -> (result: Result<Vec<Instruction>, TackyError>)
        requires
            whole == (loop_labeling::LabeledStatement::If { condition, then: Box::new(then), otherwise }),
        ensures
            spec_translate_statement(whole@, old(self).counters()) == stmt_outcome(result, final(self).counters()),
        decreases whole, 0nat,
    {
        proof {
            assert(whole@ == LStatementModel::If {
                condition: condition@,
                then: Box::new(then@),
                otherwise: match otherwise {
                    Some(o) => Some(Box::new(loop_labeling::lstatement_model(*o))),
                    None => None,
                },
            });
        }
        if self.label_count == i32::MAX {
            return Err(TackyError::TooManyLabels);
        }
        let label_count = self.label_count;
        self.label_count = self.label_count + 1;
        let mut instructions: Vec<Instruction> = Vec::new();
        let ghost i0 = instructions@;
        proof {
            lemma_extends_refl(i0);
            assert(i0 =~= seq![]);
        }
        let end_name = numbered_name("if_end", label_count);
        let c = self.try_translate_expression(condition, &mut instructions)?;
        let ghost i1 = instructions@;
        match otherwise {
            Some(otherwise) => {
                let else_name = numbered_name("if_else", label_count);
                let jump = Instruction::JumpIfZero { condition: c, target: else_name.clone() };
                proof {
                    lemma_extends_push(i0, i1, jump);
                }
                instructions.push(jump);
                let ghost i1j = instructions@;
                let then_instructions = self.try_translate_statement(then)?;
                let ghost then_model = instructions_model(then_instructions@);
                self.emit_all(then_instructions, &mut instructions);
                let ghost i2 = instructions@;
                let middle = vec![Instruction::Jump { target: end_name.clone() }, Instruction::Label(else_name)];
                let ghost middle_model = instructions_model(middle@);
                proof {
                    lemma_extends_trans(i0, i1j, i2);
                    assert(middle_model =~= seq![middle@[0]@, middle@[1]@]);
                }
                self.emit_all(middle, &mut instructions);
                let ghost i2j = instructions@;
                let otherwise_instructions = self.try_translate_statement(*otherwise)?;
                let ghost otherwise_model = instructions_model(otherwise_instructions@);
                self.emit_all(otherwise_instructions, &mut instructions);
                let ghost i3 = instructions@;
                let end = Instruction::Label(end_name);
                proof {
                    lemma_extends_trans(i0, i2, i2j);
                    lemma_extends_trans(i0, i2j, i3);
                    lemma_extends_push(i0, i3, end);
                }
                instructions.push(end);
                proof {
                    assert(instructions_model(instructions@) =~= emitted(instructions@, i0));
                    assert(emitted(instructions@, i0) =~= emitted(i1, i0) + seq![jump@] + then_model + middle_model
                        + otherwise_model + seq![end@]);
                }
            },
            None => {
                let jump = Instruction::JumpIfZero { condition: c, target: end_name.clone() };
                proof {
                    lemma_extends_push(i0, i1, jump);
                }
                instructions.push(jump);
                let ghost i1j = instructions@;
                let then_instructions = self.try_translate_statement(then)?;
                let ghost then_model = instructions_model(then_instructions@);
                self.emit_all(then_instructions, &mut instructions);
                let ghost i2 = instructions@;
                let end = Instruction::Label(end_name);
                proof {
                    lemma_extends_trans(i0, i1j, i2);
                    lemma_extends_push(i0, i2, end);
                }
                instructions.push(end);
                proof {
                    assert(instructions_model(instructions@) =~= emitted(instructions@, i0));
                    assert(emitted(instructions@, i0) =~= emitted(i1, i0) + seq![jump@] + then_model + seq![end@]);
                }
            },
        }
        Ok(instructions)
    }

    /// `while`: the test at the top, the body, and the jump back.
    #[verifier::spinoff_prover]
    #[verifier::rlimit(40)]
    fn translate_while(
        &mut self,
        condition: parser::Expression,
        body: loop_labeling::LabeledStatement,
        label: Identifier,
        Ghost(whole): Ghost<loop_labeling::LabeledStatement>,
    ) -> (result: Result<Vec<Instruction>, TackyError>)
        requires
            whole == (loop_labeling::LabeledStatement::While { condition, body: Box::new(body), label }),
        ensures
            spec_translate_statement(whole@, old(self).counters()) == stmt_outcome(result, final(self).counters()),
        decreases whole, 0nat,
    {
        proof {
            assert(whole@ == LStatementModel::While { condition: condition@, body: Box::new(body@), label: label@ });
        }
        let continue_name = loop_target_name("continue_", &label);
        let break_name = loop_target_name("break_", &label);
        let start = Instruction::Label(continue_name.clone());
        let mut instructions: Vec<Instruction> = Vec::new();
        instructions.push(start);
        let ghost i0 = instructions@;
        proof {
            lemma_extends_refl(i0);
            assert(instructions_model(i0) =~= seq![start@]);
        }
        let c = self.try_translate_expression(condition, &mut instructions)?;
        let ghost i1 = instructions@;
        let jump = Instruction::JumpIfZero { condition: c, target: break_name.clone() };
        proof {
            lemma_extends_push(i0, i1, jump);
        }
        instructions.push(jump);
        let ghost i1j = instructions@;
        let body_instructions = self.try_translate_statement(body)?;
        let ghost body_model = instructions_model(body_instructions@);
        self.emit_all(body_instructions, &mut instructions);
        let ghost i2 = instructions@;
        let tail = vec![Instruction::Jump { target: continue_name }, Instruction::Label(break_name)];
        let ghost tail_model = instructions_model(tail@);
        proof {
            lemma_extends_trans(i0, i1j, i2);
            assert(tail_model =~= seq![tail@[0]@, tail@[1]@]);
        }
        self.emit_all(tail, &mut instructions);
        proof {
            lemma_extends_trans(i0, i2, instructions@);
            assert(instructions@ =~= i0 + instructions@.skip(1));
            assert(instructions_model(instructions@) =~= instructions_model(i0) + emitted(instructions@, i0));
            assert(emitted(instructions@, i0) =~= emitted(i1, i0) + seq![jump@] + body_model + tail_model);
            assert(instructions_model(instructions@) =~= seq![start@] + emitted(i1, i0) + seq![jump@] + body_model
                + tail_model);
        }
        Ok(instructions)
    }

    /// `do ... while`: the body, the test, and the jump back while it holds.
    #[verifier::spinoff_prover]
    #[verifier::rlimit(40)]
    fn translate_do_while(
        &mut self,
        condition: parser::Expression,
        body: loop_labeling::LabeledStatement,
        label: Identifier,
        Ghost(whole): Ghost<loop_labeling::LabeledStatement>,
    ) -> (result: Result<Vec<Instruction>, TackyError>)
        requires
            whole == (loop_labeling::LabeledStatement::DoWhile { condition, body: Box::new(body), label }),
        ensures
            spec_translate_statement(whole@, old(self).counters()) == stmt_outcome(result, final(self).counters()),
        decreases whole, 0nat,
    {
        proof {
            assert(whole@ == LStatementModel::DoWhile { condition: condition@, body: Box::new(body@), label: label@ });
        }
        let start_name = loop_target_name("start_", &label);
        let start = Instruction::Label(start_name.clone());
        let mut instructions: Vec<Instruction> = Vec::new();
        instructions.push(start);
        let ghost i0 = instructions@;
        proof {
            lemma_extends_refl(i0);
            assert(instructions_model(i0) =~= seq![start@]);
        }
        let body_instructions = self.try_translate_statement(body)?;
        let ghost body_model = instructions_model(body_instructions@);
        self.emit_all(body_instructions, &mut instructions);
        let ghost i1 = instructions@;
        let continue_label = Instruction::Label(loop_target_name("continue_", &label));
        proof {
            lemma_extends_push(i0, i1, continue_label);
        }
        instructions.push(continue_label);
        let ghost i1j = instructions@;
        let c = self.try_translate_expression(condition, &mut instructions)?;
        let ghost i2 = instructions@;
        let tail = vec![
            Instruction::JumpIfNotZero { condition: c, target: start_name },
            Instruction::Label(loop_target_name("break_", &label)),
        ];
        let ghost tail_model = instructions_model(tail@);
        proof {
            lemma_extends_trans(i0, i1j, i2);
            assert(tail_model =~= seq![tail@[0]@, tail@[1]@]);
        }
        self.emit_all(tail, &mut instructions);
        proof {
            lemma_extends_trans(i0, i2, instructions@);
            assert(instructions@ =~= i0 + instructions@.skip(1));
            assert(instructions_model(instructions@) =~= instructions_model(i0) + emitted(instructions@, i0));
            assert(emitted(instructions@, i0) =~= body_model + seq![continue_label@] + emitted(i2, i1j) + tail_model);
            assert(instructions_model(instructions@) =~= seq![start@] + body_model + seq![continue_label@] + emitted(
                i2,
                i1j,
            ) + tail_model);
        }
        Ok(instructions)
    }

    /// `for`: the initializer, the test, the body, the update and the jump back.
    #[verifier::spinoff_prover]
    #[verifier::rlimit(40)]
    fn translate_for(
        &mut self,
        init: parser::ForInit,
        condition: Option<parser::Expression>,
        post: Option<parser::Expression>,
        body: loop_labeling::LabeledStatement,
        label: Identifier,
        Ghost(whole): Ghost<loop_labeling::LabeledStatement>,
    ) -> (result: Result<Vec<Instruction>, TackyError>)
        requires
            whole == (loop_labeling::LabeledStatement::For { init, condition, post, body: Box::new(body), label }),
        ensures
            spec_translate_statement(whole@, old(self).counters()) == stmt_outcome(result, final(self).counters()),
        decreases whole, 0nat,
    {
        proof {
            assert(whole@ == LStatementModel::For {
                init: init@,
                condition: parser::optional_expression_model(condition),
                post: parser::optional_expression_model(post),
                body: Box::new(body@),
                label: label@,
            });
        }
        let start_name = loop_target_name("start_", &label);
        let break_name = loop_target_name("break_", &label);
        let mut instructions: Vec<Instruction> = Vec::new();
        let ghost i0 = instructions@;
        proof {
            lemma_extends_refl(i0);
            assert(i0 =~= seq![]);
        }
        let init_instructions = self.try_translate_for_init(init, &mut instructions)?;
        let ghost ia = instructions@;
        let ghost init_model = instructions_model(init_instructions@);
        self.emit_all(init_instructions, &mut instructions);
        let ghost i1 = instructions@;
        let start = Instruction::Label(start_name.clone());
        proof {
            lemma_extends_trans(i0, ia, i1);
            lemma_extends_push(i0, i1, start);
        }
        instructions.push(start);
        let ghost i1s = instructions@;
        proof {
            lemma_extends_refl(i1s);
        }
        if let Some(condition) = condition {
            let c = self.try_translate_expression(condition, &mut instructions)?;
            let ghost ic = instructions@;
            let jump = Instruction::JumpIfZero { condition: c, target: break_name.clone() };
            proof {
                lemma_extends_push(i1s, ic, jump);
            }
            instructions.push(jump);
            proof {
                assert(emitted(instructions@, i1s) =~= emitted(ic, i1s) + seq![jump@]);
            }
        }
        let ghost i2 = instructions@;
        let body_instructions = self.try_translate_statement(body)?;
        let ghost body_model = instructions_model(body_instructions@);
        self.emit_all(body_instructions, &mut instructions);
        let ghost i3 = instructions@;
        let continue_label = Instruction::Label(loop_target_name("continue_", &label));
        proof {
            lemma_extends_trans(i1s, i2, i3);
            lemma_extends_push(i1s, i3, continue_label);
        }
        instructions.push(continue_label);
        let ghost i3c = instructions@;
        proof {
            lemma_extends_refl(i3c);
        }
        if let Some(exp) = post {
            self.try_translate_expression(exp, &mut instructions)?;
        }
        let ghost i4 = instructions@;
        let tail = vec![Instruction::Jump { target: start_name }, Instruction::Label(break_name)];
        let ghost tail_model = instructions_model(tail@);
        proof {
            lemma_extends_trans(i1s, i3c, i4);
            assert(tail_model =~= seq![tail@[0]@, tail@[1]@]);
        }
        self.emit_all(tail, &mut instructions);
        proof {
            lemma_extends_trans(i1s, i4, instructions@);
            lemma_extends_trans(i0, i1s, instructions@);
            assert(instructions_model(instructions@) =~= emitted(instructions@, i0));
            assert(emitted(instructions@, i0) =~= emitted(ia, i0) + init_model + seq![start@] + emitted(i2, i1s)
                + body_model + seq![continue_label@] + emitted(i4, i3c) + tail_model);
        }
        Ok(instructions)
    }

    /// The initializer of a `for` loop. An expression writes its instructions to
    /// `instructions`; a declaration returns them.
    fn try_translate_for_init(&mut self, init: parser::ForInit, instructions: &mut Vec<Instruction>) -> (result: Result<
        Vec<Instruction>,
        TackyError,
    >)
        ensures
            result is Ok ==> extends(final(instructions)@, old(instructions)@),
            spec_translate_for_init(init@, old(self).counters()) == match result {
                Ok(v) => Ok((emitted(final(instructions)@, old(instructions)@) + instructions_model(v@), final(self).counters())),
                Err(e) => Err::<(Seq<InstructionModel>, Counters), TackyError>(e),
            },
    {
        let ghost i0 = instructions@;
        proof {
            lemma_extends_refl(i0);
        }
        match init {
            parser::ForInit::D(vd) => {
                let v = self.try_translate_variable_declaration(vd)?;
                proof {
                    assert(emitted(instructions@, i0) + instructions_model(v@) =~= instructions_model(v@));
                }
                Ok(v)
            },
            parser::ForInit::E(expression) => {
                if let Some(e) = expression {
                    self.try_translate_expression(e, instructions)?;
                }
                let none: Vec<Instruction> = Vec::new();
                proof {
                    assert(emitted(instructions@, i0) + instructions_model(none@) =~= emitted(instructions@, i0));
                }
                Ok(none)
            },
        }
    }

    /// A variable declaration with an initializer is translated as the
    /// assignment of the initializer to the variable.
    fn try_translate_variable_declaration(&mut self, vd: parser::VariableDeclaration) -> (result: Result<
        Vec<Instruction>,
        TackyError,
    >)
        ensures
            spec_translate_variable(vd@, old(self).counters()) == stmt_outcome(result, final(self).counters()),
    {
        let mut instructions: Vec<Instruction> = Vec::new();
        let ghost i0 = instructions@;
        match vd.init {
            Some(e) => {
                let ghost name = vd.name@;
                let lvalue = parser::Expression::Var(vd.name);
                proof {
                    assert(lvalue@ == ExpressionModel::Var(name));
                }
                let var = parser::Expression::Assignment { lvalue: Box::new(lvalue), expression: Box::new(e) };
                proof {
                    assert(var@ == ExpressionModel::Assignment {
                        lvalue: Box::new(ExpressionModel::Var(name)),
                        expression: Box::new(e@),
                    });
                    assert(i0 =~= seq![]);
                }
                self.try_translate_expression(var, &mut instructions)?;
                proof {
                    assert(instructions@.skip(i0.len() as int) =~= instructions@);
                }
                Ok(instructions)
            },
            None => {
                proof {
                    assert(instructions_model(instructions@) =~= seq![]);
                }
                Ok(instructions)
            },
        }
    }

    /// A function declared inside a function: a declaration translates to
    /// nothing, a definition is refused.
    fn try_translate_local_function_declaration(&mut self, fd: loop_labeling::LabeledFunctionDeclaration) -> (result: Result<
        Vec<Instruction>,
        TackyError,
    >)
        ensures
            fd.body is Some ==> result == Err::<Vec<Instruction>, TackyError>(TackyError::NestedFunctionDefinition),
            fd.body is None ==> result is Ok && result->Ok_0@.len() == 0,
            final(self).counters() == old(self).counters(),
    {
        if fd.body.is_some() {
            return Err(TackyError::NestedFunctionDefinition);
        }
        Ok(Vec::new())
    }

    fn try_translate_declaration(&mut self, declaration: loop_labeling::LabeledDeclaration) -> (result: Result<
        Vec<Instruction>,
        TackyError,
    >)
        ensures
            spec_translate_item(LItemModel::D(declaration@), old(self).counters()) == stmt_outcome(
                result,
                final(self).counters(),
            ),
    {
        match declaration {
            loop_labeling::LabeledDeclaration::LabeledFuncDecl(fd) => {
                let r = self.try_translate_local_function_declaration(fd);
                proof {
                    if r is Ok {
                        assert(instructions_model(r->Ok_0@) =~= seq![]);
                    }
                }
                r
            },
            loop_labeling::LabeledDeclaration::LabeledVarDecl(vd) => self.try_translate_variable_declaration(vd),
        }
    }

    fn try_translate_block_item(&mut self, block_item: loop_labeling::LabeledBlockItem) -> (result: Result<
        Vec<Instruction>,
        TackyError,
    >)
        ensures
            spec_translate_item(block_item@, old(self).counters()) == stmt_outcome(result, final(self).counters()),
        decreases block_item,
    {
        match block_item {
            loop_labeling::LabeledBlockItem::S(statement) => self.try_translate_statement(statement),
            loop_labeling::LabeledBlockItem::D(declaration) => self.try_translate_declaration(declaration),
        }
    }

    /// The instructions of the items of a block, one after another.
    #[verifier::spinoff_prover]
    #[verifier::rlimit(40)]
    #[verifier::loop_isolation(false)]
    fn translate_block(&mut self, block: loop_labeling::LabeledBlock) -> (result: Result<Vec<Instruction>, TackyError>)
        ensures
            spec_translate_items(block@, old(self).counters()) == stmt_outcome(result, final(self).counters()),
        decreases block,
    {
        let ghost all = block@;
        let ghost c0 = self.counters();
        let mut instructions: Vec<Instruction> = Vec::new();
        let ghost i0 = instructions@;
        proof {
            loop_labeling::lemma_litems_model_index(block.0@);
            lemma_extends_refl(i0);
            assert(i0 =~= seq![]);
            assert(all.take(0) =~= seq![]);
        }
        let loop_labeling::LabeledBlock(block_items) = block;
        for item in it: block_items
            invariant
                it.seq() == block_items@,
                all == loop_labeling::litems_model(block_items@),
                all.len() == block_items@.len(),
                forall|i: int| 0 <= i < block_items@.len() ==> #[trigger] all[i] == block_items@[i]@,
                extends(instructions@, i0),
                spec_translate_items(all.take(it.index() as int), c0) == Ok::<_, TackyError>(
                    (emitted(instructions@, i0), self.counters()),
                ),
        {
            let ghost k = it.index() as int;
            let ghost ik = instructions@;
            proof {
                assert(decreases_to!(block_items => block_items@[k]));
                assert(all.take(k + 1).drop_last() =~= all.take(k));
                assert(all.take(k + 1).last() == item@);
            }
            let translated = match self.try_translate_block_item(item) {
                Ok(t) => t,
                Err(err) => {
                    proof {
                        lemma_items_prefix_error(all, k + 1, c0);
                    }
                    return Err(err);
                },
            };
            self.emit_all(translated, &mut instructions);
            proof {
                lemma_extends_trans(i0, ik, instructions@);
            }
        }
        proof {
            assert(all.take(all.len() as int) =~= all);
            assert(instructions_model(instructions@) =~= emitted(instructions@, i0));
        }
        Ok(instructions)
    }
}

pub open spec fn functions_chain(done: Seq<FunctionModel>, r: Result<Seq<FunctionModel>, TackyError>) -> Result<
    Seq<FunctionModel>,
    TackyError,
> {
    match r {
        Ok(rest) => Ok(done + rest),
        Err(e) => Err(e),
    }
}

pub open spec fn function_outcome(r: Result<Option<Function>, TackyError>, c: Counters) -> Translated<Option<FunctionModel>> {
    match r {
        Ok(Some(f)) => Ok((Some(f@), c)),
        Ok(None) => Ok((None, c)),
        Err(e) => Err(e),
    }
}

/// Translates every function definition of a program to TACKY; declarations
/// without a body are dropped. Temporaries and labels are numbered across the
/// whole program.
pub fn try_translate_program(program: loop_labeling::LabeledProgram) -> (result: Result<Program, TackyError>)
    ensures
        spec_translate_functions(program@, Counters { vars: 0, labels: 0 }) == match result {
            Ok(p) => Ok(p@),
            Err(e) => Err::<Seq<FunctionModel>, TackyError>(e),
        },
{
    let mut translator = TackyTranslator::new();
    translator.try_translate_program(program)
}

impl TackyTranslator {
    pub fn try_translate_program(&mut self, program: loop_labeling::LabeledProgram) -> (result: Result<Program, TackyError>)
        ensures
            spec_translate_functions(program@, old(self).counters()) == match result {
                Ok(p) => Ok(p@),
                Err(e) => Err::<Seq<FunctionModel>, TackyError>(e),
            },
    {
        let ghost all = program@;
        let ghost c0 = self.counters();
        let mut functions: Vec<Function> = Vec::new();
        proof {
            assert(all.skip(0) =~= all);
            match spec_translate_functions(all, c0) {
                Ok(fs) => assert(seq![] + fs =~= fs),
                Err(e) => {},
            }
        }
        for f in it: program.functions
            invariant
                it.seq() == program.functions@,
                all == loop_labeling::lfunctions_model(program.functions@),
                c0 == old(self).counters(),
                spec_translate_functions(all, c0) == functions_chain(
                    functions@.map_values(|g: Function| g@),
                    spec_translate_functions(all.skip(it.index() as int), self.counters()),
                ),
        {
            let ghost k = it.index() as int;
            let ghost done = functions@.map_values(|g: Function| g@);
            proof {
                assert(all.skip(k)[0] == f@);
                assert(all.skip(k).drop_first() =~= all.skip(k + 1));
            }
            let ghost ck = self.counters();
            let translated = match self.try_translate_function(f) {
                Ok(t) => t,
                Err(e) => {
                    proof {
                        assert(spec_translate_function(all.skip(k)[0], ck) == Err::<(Option<FunctionModel>, Counters), TackyError>(e));
                        assert(spec_translate_functions(all.skip(k), ck) == Err::<Seq<FunctionModel>, TackyError>(e));
                        assert(spec_translate_functions(all, c0) == Err::<Seq<FunctionModel>, TackyError>(e));
                    }
                    return Err(e);
                },
            };
            match translated {
                Some(g) => {
                    proof {
                        assert(functions@.push(g).map_values(|h: Function| h@) =~= done.push(g@));
                        match spec_translate_functions(all.skip(k + 1), self.counters()) {
                            Ok(rest) => assert(done + (seq![g@] + rest) =~= done.push(g@) + rest),
                            Err(e) => {},
                        }
                    }
                    functions.push(g);
                },
                None => {},
            }
        }
        proof {
            assert(all.skip(all.len() as int) =~= seq![]);
            assert(functions@.map_values(|g: Function| g@) + seq![] =~= functions@.map_values(|g: Function| g@));
        }
        Ok(Program { functions })
    }

    /// A function definition becomes its instructions and a final `return 0`,
    /// which returns to the caller on every path that has no `return` of its own;
    /// a declaration without a body becomes nothing.
    pub fn try_translate_function(&mut self, function: loop_labeling::LabeledFunctionDeclaration) -> (result: Result<
        Option<Function>,
        TackyError,
    >)
        ensures
            spec_translate_function(function@, old(self).counters()) == function_outcome(result, final(self).counters()),
    {
        let loop_labeling::LabeledFunctionDeclaration { name, params, body } = function;
        match body {
            Some(block) => {
                let mut instructions = self.translate_block(block)?;
                let ghost before = instructions_model(instructions@);
                instructions.push(Instruction::Return(Val::Constant(0)));
                proof {
                    assert(instructions_model(instructions@) =~= before + seq![
                        InstructionModel::Return(ValModel::Constant(0)),
                    ]);
                }
                Ok(Some(Function { identifier: self.translate_identifier(name), params, body: instructions }))
            },
            None => Ok(None),
        }
    }
}

/// Once a prefix of the items fails to translate, the whole block fails the same
/// way.
pub proof fn lemma_items_prefix_error(items: Seq<LItemModel>, k: int, c: Counters)
    requires
        0 <= k <= items.len(),
        spec_translate_items(items.take(k), c) is Err,
    ensures
        spec_translate_items(items, c) == spec_translate_items(items.take(k), c),
    decreases items.len() - k,
{
    if k < items.len() {
        assert(items.take(k + 1).drop_last() =~= items.take(k));
        lemma_items_prefix_error(items, k + 1, c);
    } else {
        assert(items.take(k) =~= items);
    }
}

/// Once a prefix of the arguments fails to translate, the whole list fails the
/// same way.
pub proof fn lemma_args_prefix_error(args: Seq<ExpressionModel>, k: int, c: Counters)
    requires
        0 <= k <= args.len(),
        spec_translate_args(args.take(k), c) is Err,
    ensures
        spec_translate_args(args, c) == spec_translate_args(args.take(k), c),
    decreases args.len() - k,
{
    if k < args.len() {
        assert(args.take(k + 1).drop_last() =~= args.take(k));
        lemma_args_prefix_error(args, k + 1, c);
    } else {
        assert(args.take(k) =~= args);
    }
}

/// Every function of a translated program ends with `return 0`, so that control
/// returns to the caller on every path; there are no more functions than
/// declarations.
pub proof fn lemma_functions_end_with_return(fs: Seq<LFunctionModel>, c: Counters)
    ensures
        spec_translate_functions(fs, c) matches Ok(out) ==> {
            &&& out.len() <= fs.len()
            &&& forall|i: int|
                0 <= i < out.len() ==> #[trigger] out[i].body.len() > 0 && out[i].body.last()
                    == InstructionModel::Return(ValModel::Constant(0))
        },
    decreases fs.len(),
{
    if fs.len() > 0 {
        match spec_translate_function(fs[0], c) {
            Ok((f, c1)) => {
                lemma_functions_end_with_return(fs.drop_first(), c1);
                match spec_translate_functions(fs.drop_first(), c1) {
                    Ok(rest) => match f {
                        Some(g) => {
                            let out = seq![g] + rest;
                            assert forall|i: int| 0 <= i < out.len() implies #[trigger] out[i].body.len() > 0
                                && out[i].body.last() == InstructionModel::Return(ValModel::Constant(0)) by {
                                if i > 0 {
                                    assert(out[i] == rest[i - 1]);
                                }
                            }
                        },
                        None => {},
                    },
                    Err(_) => {},
                }
            },
            Err(_) => {},
        }
    }
}


// The translations below take programs that translate: no function defined
// inside another, no assignment or conditional written as a binary operator,
// and fewer temporaries and labels than the counters can number. For other
// programs the `try_` function of the same name returns the error.

/// Translates every function definition of a program to TACKY; declarations
/// without a body are dropped.
pub fn translate_program(program: loop_labeling::LabeledProgram) -> (result: Program)
    requires
        spec_translate_functions(program@, Counters { vars: 0, labels: 0 }) is Ok,
    ensures
        spec_translate_functions(program@, Counters { vars: 0, labels: 0 }) == Ok::<Seq<FunctionModel>, TackyError>(result@),
{
    try_translate_program(program).unwrap()
}

impl TackyTranslator {
    pub fn translate_program(&mut self, program: loop_labeling::LabeledProgram) -> (result: Program)
        requires
            spec_translate_functions(program@, old(self).counters()) is Ok,
        ensures
            spec_translate_functions(program@, old(self).counters()) == Ok::<Seq<FunctionModel>, TackyError>(result@),
    {
        self.try_translate_program(program).unwrap()
    }

    pub fn translate_function(&mut self, function: loop_labeling::LabeledFunctionDeclaration) -> (result: Option<Function>)
        requires
            spec_translate_function(function@, old(self).counters()) is Ok,
        ensures
            spec_translate_function(function@, old(self).counters()) == function_outcome(Ok(result), final(self).counters()),
    {
        self.try_translate_function(function).unwrap()
    }

    pub fn translate_block_item(&mut self, block_item: loop_labeling::LabeledBlockItem) -> (result: Vec<Instruction>)
        requires
            spec_translate_item(block_item@, old(self).counters()) is Ok,
        ensures
            spec_translate_item(block_item@, old(self).counters()) == Ok::<(Seq<InstructionModel>, Counters), TackyError>(
                (instructions_model(result@), final(self).counters()),
            ),
    {
        self.try_translate_block_item(block_item).unwrap()
    }

    pub fn translate_declaration(&mut self, declaration: loop_labeling::LabeledDeclaration) -> (result: Vec<Instruction>)
        requires
            spec_translate_item(LItemModel::D(declaration@), old(self).counters()) is Ok,
        ensures
            spec_translate_item(LItemModel::D(declaration@), old(self).counters()) == Ok::<
                (Seq<InstructionModel>, Counters),
                TackyError,
            >((instructions_model(result@), final(self).counters())),
    {
        self.try_translate_declaration(declaration).unwrap()
    }

    pub fn translate_variable_declaration(&mut self, vd: parser::VariableDeclaration) -> (result: Vec<Instruction>)
        requires
            spec_translate_variable(vd@, old(self).counters()) is Ok,
        ensures
            spec_translate_variable(vd@, old(self).counters()) == Ok::<(Seq<InstructionModel>, Counters), TackyError>(
                (instructions_model(result@), final(self).counters()),
            ),
    {
        self.try_translate_variable_declaration(vd).unwrap()
    }

    /// A function declared inside a function translates to nothing; it may not
    /// have a body.
    pub fn translate_local_function_declaration(&mut self, fd: loop_labeling::LabeledFunctionDeclaration) -> (result: Vec<
        Instruction,
    >)
        requires
            fd.body is None,
        ensures
            result@.len() == 0,
            final(self).counters() == old(self).counters(),
    {
        self.try_translate_local_function_declaration(fd).unwrap()
    }

    pub fn translate_statement(&mut self, statement: loop_labeling::LabeledStatement) -> (result: Vec<Instruction>)
        requires
            spec_translate_statement(statement@, old(self).counters()) is Ok,
        ensures
            spec_translate_statement(statement@, old(self).counters()) == Ok::<(Seq<InstructionModel>, Counters), TackyError>(
                (instructions_model(result@), final(self).counters()),
            ),
    {
        self.try_translate_statement(statement).unwrap()
    }

    /// The initializer of a `for` loop: an expression writes its instructions to
    /// `instructions`, a declaration returns them.
    pub fn translate_for_init(&mut self, init: parser::ForInit, instructions: &mut Vec<Instruction>) -> (result: Vec<
        Instruction,
    >)
        requires
            spec_translate_for_init(init@, old(self).counters()) is Ok,
        ensures
            extends(final(instructions)@, old(instructions)@),
            spec_translate_for_init(init@, old(self).counters()) == Ok::<(Seq<InstructionModel>, Counters), TackyError>(
                (emitted(final(instructions)@, old(instructions)@) + instructions_model(result@), final(self).counters()),
            ),
    {
        self.try_translate_for_init(init, instructions).unwrap()
    }

    /// Appends to `instructions` what computes `expression`, and returns the value
    /// that holds its result.
    pub fn translate_expression(&mut self, expression: parser::Expression, instructions: &mut Vec<Instruction>) -> (result: Val)
        requires
            spec_translate_exp(expression@, old(self).counters()) is Ok,
        ensures
            extends(final(instructions)@, old(instructions)@),
            spec_translate_exp(expression@, old(self).counters()) == Ok::<(Seq<InstructionModel>, ValModel, Counters), TackyError>(
                (emitted(final(instructions)@, old(instructions)@), result@, final(self).counters()),
            ),
    {
        self.try_translate_expression(expression, instructions).unwrap()
    }
}

} // verus!
