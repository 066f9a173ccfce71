//! The grammar that the parser follows, as functions from a token sequence to the
//! syntax tree of its longest parsable prefix and the tokens that follow it.
use vstd::prelude::*;

use crate::lexer::Token;
use super::{
    BinaryOp, BlockItemModel, DeclarationModel, ExpressionModel, ForInitModel, FunctionModel,
    ParseError, StatementModel, UnaryOp, VariableModel,
};

verus! {

/// The result of parsing a prefix: the tree and the tokens left after it.
pub type Parsed<T> = Result<(T, Seq<Token>), ParseError>;

pub open spec fn first_is(t: Seq<Token>, token: Token) -> bool {
    t.len() > 0 && t[0] == token
}

pub open spec fn spec_binary_op(token: Token) -> Option<BinaryOp> {
    match token {
        Token::Plus => Some(BinaryOp::Add),
        Token::Minus => Some(BinaryOp::Subtract),
        Token::Asterisk => Some(BinaryOp::Multiply),
        Token::ForwardSlash => Some(BinaryOp::Divide),
        Token::Percent => Some(BinaryOp::Remainder),
        Token::DoubleAmpersands => Some(BinaryOp::And),
        Token::DoubleBar => Some(BinaryOp::Or),
        Token::DoubleEqual => Some(BinaryOp::Equal),
        Token::ExclamationEqual => Some(BinaryOp::NotEqual),
        Token::LeftAngleBracket => Some(BinaryOp::LessThan),
        Token::RightAngleBracket => Some(BinaryOp::GreaterThan),
        Token::LeftAngleBracketEqual => Some(BinaryOp::LessOrEqual),
        Token::RightAngleBracketEqual => Some(BinaryOp::GreaterOrEqual),
        Token::Equal => Some(BinaryOp::Assignment),
        Token::QuestionMark => Some(BinaryOp::Ternary),
        _ => None,
    }
}

pub open spec fn spec_precedence(op: BinaryOp) -> u8 {
    match op {
        BinaryOp::Multiply | BinaryOp::Divide | BinaryOp::Remainder => 50,
        BinaryOp::Add | BinaryOp::Subtract => 45,
        BinaryOp::LessThan | BinaryOp::LessOrEqual | BinaryOp::GreaterThan
        | BinaryOp::GreaterOrEqual => 35,
        BinaryOp::Equal | BinaryOp::NotEqual => 30,
        BinaryOp::And => 10,
        BinaryOp::Or => 5,
        BinaryOp::Ternary => 3,
        BinaryOp::Assignment => 1,
    }
}

pub open spec fn spec_unary_op(token: Token) -> Option<UnaryOp> {
    match token {
        Token::Tilde => Some(UnaryOp::Complement),
        Token::Minus => Some(UnaryOp::Negate),
        Token::Exclamation => Some(UnaryOp::Not),
        _ => None,
    }
}

/// `xs` in front of the list that `r` parsed, or the error of `r`.
pub open spec fn prepend<T>(xs: Seq<T>, r: Parsed<Seq<T>>) -> Parsed<Seq<T>> {
    match r {
        Ok((ys, rest)) => Ok((xs + ys, rest)),
        Err(e) => Err(e),
    }
}

pub proof fn lemma_prepend_push<T>(xs: Seq<T>, x: T, r: Parsed<Seq<T>>)
    ensures
        prepend(xs, prepend(seq![x], r)) == prepend(xs.push(x), r),
        prepend(seq![], r) == r,
{
    match r {
        Ok((ys, rest)) => {
            assert(xs + (seq![x] + ys) =~= xs.push(x) + ys);
            assert(seq![] + ys =~= ys);
        },
        Err(e) => {},
    }
}

pub proof fn lemma_block_items_step(t: Seq<Token>, item: BlockItemModel, rest: Seq<Token>)
    requires
        !first_is(t, Token::CloseBrace),
        sp_block_item(t) == Ok::<(BlockItemModel, Seq<Token>), ParseError>((item, rest)),
        rest.len() < t.len(),
    ensures
        sp_block_items(t) == prepend(seq![item], sp_block_items(rest)),
{
}

pub proof fn lemma_block_items_error(t: Seq<Token>, e: ParseError)
    requires
        !first_is(t, Token::CloseBrace),
        sp_block_item(t) == Err::<(BlockItemModel, Seq<Token>), ParseError>(e),
    ensures
        sp_block_items(t) == Err::<(Seq<BlockItemModel>, Seq<Token>), ParseError>(e),
{
}

/// Removes `expected` from the front, or says what stood there instead.
pub open spec fn sp_consume(expected: Token, t: Seq<Token>) -> Result<Seq<Token>, ParseError> {
    if t.len() == 0 {
        Err(ParseError::UnexpectedEnd)
    } else if t[0] == expected {
        Ok(t.drop_first())
    } else {
        Err(ParseError::UnexpectedToken { expected, found: t[0] })
    }
}

pub open spec fn sp_identifier(t: Seq<Token>) -> Parsed<Seq<char>> {
    if t.len() == 0 {
        Err(ParseError::UnexpectedEnd)
    } else {
        match t[0] {
            Token::Identifier(x) => Ok((x@, t.drop_first())),
            other => Err(ParseError::ExpectedIdentifier(other)),
        }
    }
}

/// `int a, int b, ...` after the first parameter: the further parameters.
pub open spec fn sp_more_params(t: Seq<Token>) -> Parsed<Seq<Seq<char>>>
    decreases t.len(),
{
    if first_is(t, Token::Comma) {
        match sp_consume(Token::Int, t.drop_first()) {
            Ok(r1) => match sp_identifier(r1) {
                Ok((x, r2)) => match sp_more_params(r2) {
                    Ok((xs, r3)) => Ok((seq![x] + xs, r3)),
                    Err(e) => Err(e),
                },
                Err(e) => Err(e),
            },
            Err(e) => Err(e),
        }
    } else {
        Ok((seq![], t))
    }
}

/// `void`, or a comma-separated list of `int` parameters.
pub open spec fn sp_params(t: Seq<Token>) -> Parsed<Seq<Seq<char>>> {
    if first_is(t, Token::Void) {
        Ok((seq![], t.drop_first()))
    } else {
        match sp_consume(Token::Int, t) {
            Ok(r1) => match sp_identifier(r1) {
                Ok((x, r2)) => match sp_more_params(r2) {
                    Ok((xs, r3)) => Ok((seq![x] + xs, r3)),
                    Err(e) => Err(e),
                },
                Err(e) => Err(e),
            },
            Err(e) => Err(e),
        }
    }
}

pub open spec fn sp_function(t: Seq<Token>) -> Parsed<FunctionModel>
    decreases t.len(), 0nat,
{
    match sp_consume(Token::Int, t) {
        Ok(r1) => match sp_identifier(r1) {
            Ok((name, r2)) => match sp_consume(Token::OpenParan, r2) {
                Ok(r3) => match sp_params(r3) {
                    Ok((params, r4)) => match sp_consume(Token::CloseParan, r4) {
                        Ok(r5) => if first_is(r5, Token::Semicolon) {
                            Ok((FunctionModel { name, params, body: None }, r5.drop_first()))
                        } else if r5.len() < t.len() {
                            match sp_block(r5) {
                                Ok((body, r6)) => Ok((FunctionModel { name, params, body: Some(body) }, r6)),
                                Err(e) => Err(e),
                            }
                        } else {
                            Err(ParseError::UnexpectedEnd)
                        },
                        Err(e) => Err(e),
                    },
                    Err(e) => Err(e),
                },
                Err(e) => Err(e),
            },
            Err(e) => Err(e),
        },
        Err(e) => Err(e),
    }
}

pub open spec fn sp_block(t: Seq<Token>) -> Parsed<Seq<BlockItemModel>>
    decreases t.len(), 0nat,
{
    match sp_consume(Token::OpenBrace, t) {
        Ok(r1) => match sp_block_items(r1) {
            Ok((items, r2)) => match sp_consume(Token::CloseBrace, r2) {
                Ok(r3) => Ok((items, r3)),
                Err(e) => Err(e),
            },
            Err(e) => Err(e),
        },
        Err(e) => Err(e),
    }
}

/// The items of a block up to its closing brace.
pub open spec fn sp_block_items(t: Seq<Token>) -> Parsed<Seq<BlockItemModel>>
    decreases t.len(), 4nat,
{
    if first_is(t, Token::CloseBrace) {
        Ok((seq![], t))
    } else {
        match sp_block_item(t) {
            Ok((item, r1)) => if r1.len() < t.len() {
                match sp_block_items(r1) {
                    Ok((items, r2)) => Ok((seq![item] + items, r2)),
                    Err(e) => Err(e),
                }
            } else {
                Err(ParseError::UnexpectedEnd)
            },
            Err(e) => Err(e),
        }
    }
}

pub open spec fn sp_block_item(t: Seq<Token>) -> Parsed<BlockItemModel>
    decreases t.len(), 3nat,
{
    if t.len() == 0 {
        Err(ParseError::UnexpectedEnd)
    } else if t[0] == Token::Int {
        match sp_declaration(t) {
            Ok((d, r)) => Ok((BlockItemModel::D(d), r)),
            Err(e) => Err(e),
        }
    } else {
        match sp_statement(t) {
            Ok((s, r)) => Ok((BlockItemModel::S(s), r)),
            Err(e) => Err(e),
        }
    }
}

/// `int x = e;`
pub open spec fn sp_variable_with_expression(t: Seq<Token>) -> Parsed<VariableModel>
    decreases t.len(), 0nat,
{
    match sp_consume(Token::Int, t) {
        Ok(r1) => match sp_identifier(r1) {
            Ok((name, r2)) => match sp_consume(Token::Equal, r2) {
                Ok(r3) => if r3.len() < t.len() {
                    match sp_exp(r3, 0) {
                        Ok((e, r4)) => match sp_consume(Token::Semicolon, r4) {
                            Ok(r5) => Ok((VariableModel { name, init: Some(e) }, r5)),
                            Err(err) => Err(err),
                        },
                        Err(err) => Err(err),
                    }
                } else {
                    Err(ParseError::UnexpectedEnd)
                },
                Err(err) => Err(err),
            },
            Err(err) => Err(err),
        },
        Err(err) => Err(err),
    }
}

/// `int x;`
pub open spec fn sp_variable_without_expression(t: Seq<Token>) -> Parsed<VariableModel> {
    match sp_consume(Token::Int, t) {
        Ok(r1) => match sp_identifier(r1) {
            Ok((name, r2)) => match sp_consume(Token::Semicolon, r2) {
                Ok(r3) => Ok((VariableModel { name, init: None }, r3)),
                Err(err) => Err(err),
            },
            Err(err) => Err(err),
        },
        Err(err) => Err(err),
    }
}

/// A variable declaration, told apart by its third token.
pub open spec fn sp_variable(t: Seq<Token>) -> Parsed<VariableModel>
    decreases t.len(), 1nat,
{
    if t.len() < 3 {
        Err(ParseError::UnexpectedEnd)
    } else {
        match t[2] {
            Token::Equal => sp_variable_with_expression(t),
            Token::Semicolon => sp_variable_without_expression(t),
            other => Err(ParseError::MalformedVariableDeclaration(other)),
        }
    }
}

/// A declaration, told apart by its third token.
pub open spec fn sp_declaration(t: Seq<Token>) -> Parsed<DeclarationModel>
    decreases t.len(), 1nat,
{
    if t.len() < 3 {
        Err(ParseError::UnexpectedEnd)
    } else {
        match t[2] {
            Token::Equal => match sp_variable_with_expression(t) {
                Ok((v, r)) => Ok((DeclarationModel::VarDecl(v), r)),
                Err(e) => Err(e),
            },
            Token::Semicolon => match sp_variable_without_expression(t) {
                Ok((v, r)) => Ok((DeclarationModel::VarDecl(v), r)),
                Err(e) => Err(e),
            },
            Token::OpenParan => match sp_function(t) {
                Ok((f, r)) => Ok((DeclarationModel::FunDecl(f), r)),
                Err(e) => Err(e),
            },
            other => Err(ParseError::MalformedDeclaration(other)),
        }
    }
}

/// `kw ;` for `break` and `continue`.
pub open spec fn sp_keyword_statement(keyword: Token, t: Seq<Token>, s: StatementModel) -> Parsed<StatementModel> {
    match sp_consume(keyword, t) {
        Ok(r1) => match sp_consume(Token::Semicolon, r1) {
            Ok(r2) => Ok((s, r2)),
            Err(e) => Err(e),
        },
        Err(e) => Err(e),
    }
}

/// `( e )` and what follows it.
pub open spec fn sp_paren_exp(t: Seq<Token>, bound: nat) -> Parsed<ExpressionModel>
    decreases bound, 0nat,
{
    match sp_consume(Token::OpenParan, t) {
        Ok(r1) => if r1.len() < bound {
            match sp_exp(r1, 0) {
                Ok((e, r2)) => match sp_consume(Token::CloseParan, r2) {
                    Ok(r3) => Ok((e, r3)),
                    Err(err) => Err(err),
                },
                Err(err) => Err(err),
            }
        } else {
            Err(ParseError::UnexpectedEnd)
        },
        Err(err) => Err(err),
    }
}

pub open spec fn sp_statement(t: Seq<Token>) -> Parsed<StatementModel>
    decreases t.len(), 2nat,
{
    if t.len() == 0 {
        Err(ParseError::UnexpectedEnd)
    } else {
        let r0 = t.drop_first();
        match t[0] {
            Token::Return => match sp_exp(r0, 0) {
                Ok((e, r1)) => match sp_consume(Token::Semicolon, r1) {
                    Ok(r2) => Ok((StatementModel::Return(e), r2)),
                    Err(err) => Err(err),
                },
                Err(err) => Err(err),
            },
            Token::Semicolon => Ok((StatementModel::Null, r0)),
            Token::If => match sp_paren_exp(r0, t.len()) {
                Ok((condition, r1)) => if r1.len() < t.len() {
                    match sp_statement(r1) {
                        Ok((then, r2)) => if first_is(r2, Token::Else) && r2.len() <= t.len() {
                            match sp_statement(r2.drop_first()) {
                                Ok((otherwise, r3)) => Ok((
                                    StatementModel::If {
                                        condition,
                                        then: Box::new(then),
                                        otherwise: Some(Box::new(otherwise)),
                                    },
                                    r3,
                                )),
                                Err(err) => Err(err),
                            }
                        } else if first_is(r2, Token::Else) {
                            Err(ParseError::UnexpectedEnd)
                        } else {
                            Ok((StatementModel::If { condition, then: Box::new(then), otherwise: None }, r2))
                        },
                        Err(err) => Err(err),
                    }
                } else {
                    Err(ParseError::UnexpectedEnd)
                },
                Err(err) => Err(err),
            },
            Token::Break => sp_keyword_statement(Token::Break, t, StatementModel::Break),
            Token::Continue => sp_keyword_statement(Token::Continue, t, StatementModel::Continue),
            Token::While => match sp_paren_exp(r0, t.len()) {
                Ok((condition, r1)) => if r1.len() < t.len() {
                    match sp_statement(r1) {
                        Ok((body, r2)) => Ok((StatementModel::While { condition, body: Box::new(body) }, r2)),
                        Err(err) => Err(err),
                    }
                } else {
                    Err(ParseError::UnexpectedEnd)
                },
                Err(err) => Err(err),
            },
            Token::Do => match sp_statement(r0) {
                Ok((body, r1)) => match sp_consume(Token::While, r1) {
                    Ok(r2) => if r2.len() < t.len() {
                        match sp_paren_exp(r2, t.len()) {
                            Ok((condition, r3)) => match sp_consume(Token::Semicolon, r3) {
                                Ok(r4) => Ok((StatementModel::DoWhile { condition, body: Box::new(body) }, r4)),
                                Err(err) => Err(err),
                            },
                            Err(err) => Err(err),
                        }
                    } else {
                        Err(ParseError::UnexpectedEnd)
                    },
                    Err(err) => Err(err),
                },
                Err(err) => Err(err),
            },
            Token::For => match sp_consume(Token::OpenParan, r0) {
                Ok(r1) => match sp_for_init(r1) {
                    Ok((init, r2)) => if r2.len() < t.len() {
                        match sp_optional_exp(r2, Token::Semicolon) {
                            Ok((condition, r3)) => match sp_consume(Token::Semicolon, r3) {
                                Ok(r4) => if r4.len() < t.len() {
                                    match sp_optional_exp(r4, Token::CloseParan) {
                                        Ok((post, r5)) => match sp_consume(Token::CloseParan, r5) {
                                            Ok(r6) => if r6.len() < t.len() {
                                                match sp_statement(r6) {
                                                    Ok((body, r7)) => Ok((
                                                        StatementModel::For { init, condition, post, body: Box::new(body) },
                                                        r7,
                                                    )),
                                                    Err(err) => Err(err),
                                                }
                                            } else {
                                                Err(ParseError::UnexpectedEnd)
                                            },
                                            Err(err) => Err(err),
                                        },
                                        Err(err) => Err(err),
                                    }
                                } else {
                                    Err(ParseError::UnexpectedEnd)
                                },
                                Err(err) => Err(err),
                            },
                            Err(err) => Err(err),
                        }
                    } else {
                        Err(ParseError::UnexpectedEnd)
                    },
                    Err(err) => Err(err),
                },
                Err(err) => Err(err),
            },
            Token::OpenBrace => match sp_block(t) {
                Ok((items, r1)) => Ok((StatementModel::Compound(items), r1)),
                Err(err) => Err(err),
            },
            _ => match sp_exp(t, 0) {
                Ok((e, r1)) => match sp_consume(Token::Semicolon, r1) {
                    Ok(r2) => Ok((StatementModel::Expression(e), r2)),
                    Err(err) => Err(err),
                },
                Err(err) => Err(err),
            },
        }
    }
}

pub open spec fn sp_for_init(t: Seq<Token>) -> Parsed<ForInitModel>
    decreases t.len(), 3nat,
{
    if first_is(t, Token::Int) {
        match sp_variable(t) {
            Ok((v, r)) => Ok((ForInitModel::D(v), r)),
            Err(e) => Err(e),
        }
    } else {
        match sp_optional_exp(t, Token::Semicolon) {
            Ok((e, r1)) => match sp_consume(Token::Semicolon, r1) {
                Ok(r2) => Ok((ForInitModel::E(e), r2)),
                Err(err) => Err(err),
            },
            Err(err) => Err(err),
        }
    }
}

/// No expression when `end` comes first, else an expression.
pub open spec fn sp_optional_exp(t: Seq<Token>, end: Token) -> Parsed<Option<ExpressionModel>>
    decreases t.len(), 2nat,
{
    if first_is(t, end) {
        Ok((None, t))
    } else {
        match sp_exp(t, 0) {
            Ok((e, r)) => Ok((Some(e), r)),
            Err(err) => Err(err),
        }
    }
}

/// An expression whose binary operators bind at least as tightly as `min_prec`.
pub open spec fn sp_exp(t: Seq<Token>, min_prec: u8) -> Parsed<ExpressionModel>
    decreases t.len(), 1nat,
{
    match sp_factor(t) {
        Ok((left, r)) => if r.len() < t.len() {
            sp_exp_loop(left, r, min_prec)
        } else {
            Err(ParseError::UnexpectedEnd)
        },
        Err(e) => Err(e),
    }
}

/// Precedence climbing: extends `left` with the binary operators that follow it.
pub open spec fn sp_exp_loop(left: ExpressionModel, t: Seq<Token>, min_prec: u8) -> Parsed<ExpressionModel>
    decreases t.len(), 1nat,
{
    if t.len() == 0 {
        Ok((left, t))
    } else {
        match spec_binary_op(t[0]) {
            None => Ok((left, t)),
            Some(op) => {
                let prec = spec_precedence(op);
                if prec < min_prec {
                    Ok((left, t))
                } else if op == BinaryOp::Assignment {
                    match sp_exp(t.drop_first(), prec) {
                        Ok((right, r1)) => if r1.len() < t.len() {
                            sp_exp_loop(
                                ExpressionModel::Assignment { lvalue: Box::new(left), expression: Box::new(right) },
                                r1,
                                min_prec,
                            )
                        } else {
                            Err(ParseError::UnexpectedEnd)
                        },
                        Err(e) => Err(e),
                    }
                } else if op == BinaryOp::Ternary {
                    match sp_exp(t.drop_first(), 0) {
                        Ok((middle, r1)) => match sp_consume(Token::Colon, r1) {
                            Ok(r2) => if r2.len() < t.len() {
                                match sp_exp(r2, prec) {
                                    Ok((right, r3)) => if r3.len() < t.len() {
                                        sp_exp_loop(
                                            ExpressionModel::Conditional {
                                                condition: Box::new(left),
                                                then: Box::new(middle),
                                                otherwise: Box::new(right),
                                            },
                                            r3,
                                            min_prec,
                                        )
                                    } else {
                                        Err(ParseError::UnexpectedEnd)
                                    },
                                    Err(e) => Err(e),
                                }
                            } else {
                                Err(ParseError::UnexpectedEnd)
                            },
                            Err(e) => Err(e),
                        },
                        Err(e) => Err(e),
                    }
                } else {
                    match sp_exp(t.drop_first(), (prec + 1) as u8) {
                        Ok((right, r1)) => if r1.len() < t.len() {
                            sp_exp_loop(
                                ExpressionModel::Binary {
                                    operator: op,
                                    left_expression: Box::new(left),
                                    right_expression: Box::new(right),
                                },
                                r1,
                                min_prec,
                            )
                        } else {
                            Err(ParseError::UnexpectedEnd)
                        },
                        Err(e) => Err(e),
                    }
                }
            },
        }
    }
}

/// A unary operator applied to a factor, a constant, a parenthesized expression,
/// a variable or a function call.
pub open spec fn sp_factor(t: Seq<Token>) -> Parsed<ExpressionModel>
    decreases t.len(), 0nat,
{
    if t.len() == 0 {
        Err(ParseError::UnexpectedEnd)
    } else {
        let rest = t.drop_first();
        match spec_unary_op(t[0]) {
            Some(operator) => match sp_factor(rest) {
                Ok((operand, r)) => Ok((ExpressionModel::Unary { operator, operand: Box::new(operand) }, r)),
                Err(e) => Err(e),
            },
            None => match t[0] {
                Token::Constant(i) => Ok((ExpressionModel::Constant(i), rest)),
                Token::OpenParan => match sp_exp(rest, 0) {
                    Ok((e, r1)) => match sp_consume(Token::CloseParan, r1) {
                        Ok(r2) => Ok((e, r2)),
                        Err(err) => Err(err),
                    },
                    Err(err) => Err(err),
                },
                Token::Identifier(i) => if first_is(rest, Token::OpenParan) {
                    let r1 = rest.drop_first();
                    if !first_is(r1, Token::CloseParan) {
                        match sp_arguments(r1) {
                            Ok((args, r2)) => match sp_consume(Token::CloseParan, r2) {
                                Ok(r3) => Ok((ExpressionModel::FunctionCall { identifier: i@, args }, r3)),
                                Err(err) => Err(err),
                            },
                            Err(err) => Err(err),
                        }
                    } else {
                        Ok((ExpressionModel::FunctionCall { identifier: i@, args: seq![] }, r1.drop_first()))
                    }
                } else {
                    Ok((ExpressionModel::Var(i@), rest))
                },
                other => Err(ParseError::MalformedFactor(other)),
            },
        }
    }
}

/// A comma-separated list of at least one argument.
pub open spec fn sp_arguments(t: Seq<Token>) -> Parsed<Seq<ExpressionModel>>
    decreases t.len(), 2nat,
{
    match sp_exp(t, 0) {
        Ok((e, r1)) => if r1.len() < t.len() {
            match sp_more_arguments(r1) {
                Ok((es, r2)) => Ok((seq![e] + es, r2)),
                Err(err) => Err(err),
            }
        } else {
            Err(ParseError::UnexpectedEnd)
        },
        Err(err) => Err(err),
    }
}

pub open spec fn sp_more_arguments(t: Seq<Token>) -> Parsed<Seq<ExpressionModel>>
    decreases t.len(), 0nat,
{
    if first_is(t, Token::Comma) {
        match sp_exp(t.drop_first(), 0) {
            Ok((e, r1)) => if r1.len() < t.len() {
                match sp_more_arguments(r1) {
                    Ok((es, r2)) => Ok((seq![e] + es, r2)),
                    Err(err) => Err(err),
                }
            } else {
                Err(ParseError::UnexpectedEnd)
            },
            Err(err) => Err(err),
        }
    } else {
        Ok((seq![], t))
    }
}

/// A whole program: function declarations until the tokens run out.
pub open spec fn sp_program(t: Seq<Token>) -> Result<Seq<FunctionModel>, ParseError>
    decreases t.len(),
{
    if t.len() == 0 {
        Ok(seq![])
    } else {
        match sp_function(t) {
            Ok((f, r)) => if r.len() < t.len() {
                match sp_program(r) {
                    Ok(fs) => Ok(seq![f] + fs),
                    Err(e) => Err(e),
                }
            } else {
                Err(ParseError::UnexpectedEnd)
            },
            Err(e) => Err(e),
        }
    }
}

/// How tightly C groups a binary operator, from the tightest: the multiplicative
/// operators, the additive ones, the relational ones, the equality ones, `&&`,
/// then `||`; assignment and the conditional come below them all.
pub open spec fn c_binding_level(op: BinaryOp) -> int {
    match op {
        BinaryOp::Multiply | BinaryOp::Divide | BinaryOp::Remainder => 6,
        BinaryOp::Add | BinaryOp::Subtract => 5,
        BinaryOp::LessThan | BinaryOp::LessOrEqual | BinaryOp::GreaterThan | BinaryOp::GreaterOrEqual => 4,
        BinaryOp::Equal | BinaryOp::NotEqual => 3,
        BinaryOp::And => 2,
        BinaryOp::Or => 1,
        BinaryOp::Assignment | BinaryOp::Ternary => 0,
    }
}

/// The token that writes a binary operator.
pub open spec fn operator_token(op: BinaryOp) -> Token {
    match op {
        BinaryOp::Add => Token::Plus,
        BinaryOp::Subtract => Token::Minus,
        BinaryOp::Multiply => Token::Asterisk,
        BinaryOp::Divide => Token::ForwardSlash,
        BinaryOp::Remainder => Token::Percent,
        BinaryOp::And => Token::DoubleAmpersands,
        BinaryOp::Or => Token::DoubleBar,
        BinaryOp::Equal => Token::DoubleEqual,
        BinaryOp::NotEqual => Token::ExclamationEqual,
        BinaryOp::LessThan => Token::LeftAngleBracket,
        BinaryOp::GreaterThan => Token::RightAngleBracket,
        BinaryOp::LessOrEqual => Token::LeftAngleBracketEqual,
        BinaryOp::GreaterOrEqual => Token::RightAngleBracketEqual,
        BinaryOp::Assignment => Token::Equal,
        BinaryOp::Ternary => Token::QuestionMark,
    }
}

pub open spec fn binary_of(op: BinaryOp, left: ExpressionModel, right: ExpressionModel) -> ExpressionModel {
    ExpressionModel::Binary { operator: op, left_expression: Box::new(left), right_expression: Box::new(right) }
}

proof fn lemma_loop_stops(left: ExpressionModel, rest: Seq<Token>, min_prec: u8)
    requires
        rest.len() == 0 || spec_binary_op(rest[0]) is None,
    ensures
        sp_exp_loop(left, rest, min_prec) == Ok::<(ExpressionModel, Seq<Token>), ParseError>((left, rest)),
{
}

/// `a op1 b op2 c` groups as C groups it: as `a op1 (b op2 c)` when `op2` binds
/// more tightly than `op1`, and as `(a op1 b) op2 c` otherwise, so that operators
/// that bind equally tightly group from the left. So `1 - 2 * 3` is
/// `1 - (2 * 3)` and `1 - 2 + 3` is `(1 - 2) + 3`.
pub proof fn lemma_binary_operators_group_as_in_c(
    a: i32,
    op1: BinaryOp,
    b: i32,
    op2: BinaryOp,
    c: i32,
    rest: Seq<Token>,
)
    requires
        op1 != BinaryOp::Assignment && op1 != BinaryOp::Ternary,
        op2 != BinaryOp::Assignment && op2 != BinaryOp::Ternary,
        rest.len() == 0 || spec_binary_op(rest[0]) is None,
    ensures
        sp_exp(
            seq![Token::Constant(a), operator_token(op1), Token::Constant(b), operator_token(op2), Token::Constant(c)]
                + rest,
            0,
        ) == Ok::<(ExpressionModel, Seq<Token>), ParseError>(
            (
                if c_binding_level(op2) > c_binding_level(op1) {
                    binary_of(
                        op1,
                        ExpressionModel::Constant(a),
                        binary_of(op2, ExpressionModel::Constant(b), ExpressionModel::Constant(c)),
                    )
                } else {
                    binary_of(
                        op2,
                        binary_of(op1, ExpressionModel::Constant(a), ExpressionModel::Constant(b)),
                        ExpressionModel::Constant(c),
                    )
                },
                rest,
            ),
        ),
{
    let ta = seq![Token::Constant(a), operator_token(op1), Token::Constant(b), operator_token(op2), Token::Constant(c)]
        + rest;
    let t1 = ta.drop_first();
    let t2 = t1.drop_first();
    let t3 = t2.drop_first();
    let t4 = t3.drop_first();
    assert(t4.drop_first() =~= rest);
    assert(t1[0] == operator_token(op1));
    assert(t2[0] == Token::Constant(b));
    assert(t3[0] == operator_token(op2));
    assert(t4[0] == Token::Constant(c));
    assert(spec_binary_op(operator_token(op1)) == Some(op1));
    assert(spec_binary_op(operator_token(op2)) == Some(op2));
    let p1 = spec_precedence(op1);
    let p2 = spec_precedence(op2);
    let ea = ExpressionModel::Constant(a);
    let eb = ExpressionModel::Constant(b);
    let ec = ExpressionModel::Constant(c);
    assert(sp_factor(ta) == Ok::<(ExpressionModel, Seq<Token>), ParseError>((ea, t1)));
    assert(sp_factor(t2) == Ok::<(ExpressionModel, Seq<Token>), ParseError>((eb, t3)));
    assert(sp_factor(t4) == Ok::<(ExpressionModel, Seq<Token>), ParseError>((ec, rest)));
    lemma_loop_stops(ec, rest, (p2 + 1) as u8);
    assert(sp_exp(t4, (p2 + 1) as u8) == Ok::<(ExpressionModel, Seq<Token>), ParseError>((ec, rest)));
    assert((c_binding_level(op2) > c_binding_level(op1)) == (p2 >= p1 + 1));
    if p2 >= p1 + 1 {
        let inner = binary_of(op2, eb, ec);
        lemma_loop_stops(inner, rest, (p1 + 1) as u8);
        assert(sp_exp_loop(eb, t3, (p1 + 1) as u8) == Ok::<(ExpressionModel, Seq<Token>), ParseError>((inner, rest)));
        assert(sp_exp(t2, (p1 + 1) as u8) == Ok::<(ExpressionModel, Seq<Token>), ParseError>((inner, rest)));
        let outer = binary_of(op1, ea, inner);
        lemma_loop_stops(outer, rest, 0);
        assert(sp_exp_loop(ea, t1, 0) == Ok::<(ExpressionModel, Seq<Token>), ParseError>((outer, rest)));
    } else {
        assert(sp_exp_loop(eb, t3, (p1 + 1) as u8) == Ok::<(ExpressionModel, Seq<Token>), ParseError>((eb, t3)));
        assert(sp_exp(t2, (p1 + 1) as u8) == Ok::<(ExpressionModel, Seq<Token>), ParseError>((eb, t3)));
        let left = binary_of(op1, ea, eb);
        let whole = binary_of(op2, left, ec);
        lemma_loop_stops(whole, rest, 0);
        assert(sp_exp_loop(left, t3, 0) == Ok::<(ExpressionModel, Seq<Token>), ParseError>((whole, rest)));
        assert(sp_exp_loop(ea, t1, 0) == Ok::<(ExpressionModel, Seq<Token>), ParseError>((whole, rest)));
    }
}

} // verus!
