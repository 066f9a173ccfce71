//! Parses a sequence of tokens into a syntax tree, by recursive descent with
//! precedence climbing for binary operators.
use vstd::prelude::*;

use crate::lexer::Token;

pub mod grammar;

use grammar::{
    lemma_prepend_push, prepend,
    first_is, sp_arguments, sp_block, sp_block_item, sp_block_items, sp_consume, sp_declaration,
    sp_exp, sp_exp_loop, sp_factor, sp_for_init, sp_function, sp_identifier, sp_more_arguments,
    sp_more_params, sp_optional_exp, sp_params, sp_program, sp_statement, sp_variable,
    sp_variable_with_expression, sp_variable_without_expression, spec_binary_op, spec_precedence,
    spec_unary_op, Parsed,
};

verus! {

broadcast use vstd::std_specs::vec::group_vec_axioms;

pub type Identifier = String;

pub type Int = i32;

#[derive(Debug)]
pub struct Program {
    pub functions: Vec<FunctionDeclaration>,
}

#[derive(Debug)]
pub struct FunctionDeclaration {
    pub name: Identifier,
    pub params: Vec<Identifier>,
    pub body: Option<Block>,
}

#[derive(Debug)]
pub struct Block(pub Vec<BlockItem>);

#[derive(Debug)]
pub enum BlockItem {
    S(Statement),
    D(Declaration),
}

#[derive(Debug)]
pub struct VariableDeclaration {
    pub name: Identifier,
    pub init: Option<Expression>,
}

#[derive(Debug)]
pub enum Declaration {
    FunDecl(FunctionDeclaration),
    VarDecl(VariableDeclaration),
}

#[derive(Debug)]
pub enum Statement {
    Return(Expression),
    Expression(Expression),
    If { condition: Expression, then: Box<Statement>, otherwise: Option<Box<Statement>> },
    Compound(Block),
    Break,
    Continue,
    While { condition: Expression, body: Box<Statement> },
    DoWhile { condition: Expression, body: Box<Statement> },
    For {
        init: ForInit,
        condition: Option<Expression>,
        post: Option<Expression>,
        body: Box<Statement>,
    },
    Null,
}

#[derive(Debug)]
pub enum ForInit {
    D(VariableDeclaration),
    E(Option<Expression>),
}

#[derive(Debug)]
pub enum Expression {
    Constant(Int),
    Var(Identifier),
    Unary { operator: UnaryOp, operand: Box<Expression> },
    Binary { operator: BinaryOp, left_expression: Box<Expression>, right_expression: Box<Expression> },
    Assignment { lvalue: Box<Expression>, expression: Box<Expression> },
    Conditional { condition: Box<Expression>, then: Box<Expression>, otherwise: Box<Expression> },
    FunctionCall { identifier: Identifier, args: Vec<Expression> },
}

/// Why a sequence of tokens is not a program.
#[derive(Debug)]
pub enum ParseError {
    /// The tokens ran out where one more was needed.
    UnexpectedEnd,
    /// A token other than the one that the grammar requires there.
    UnexpectedToken { expected: Token, found: Token },
    /// A token other than an identifier where an identifier is required.
    ExpectedIdentifier(Token),
    /// The third token of a variable declaration is neither `=` nor `;`.
    MalformedVariableDeclaration(Token),
    /// The third token of a declaration is neither `=`, `;` nor `(`.
    MalformedDeclaration(Token),
    /// A token that cannot start a factor.
    MalformedFactor(Token),
}

#[derive(Debug, Clone, Copy, PartialEq, Eq, Structural)]
pub enum BinaryOp {
    Add,
    Subtract,
    Multiply,
    Divide,
    Remainder,
    And,
    Or,
    Equal,
    NotEqual,
    LessThan,
    LessOrEqual,
    GreaterThan,
    GreaterOrEqual,
    Assignment,
    Ternary,
}

#[derive(Debug, Clone, Copy, PartialEq, Eq, Structural)]
pub enum UnaryOp {
    Complement,
    Negate,
    Not,
}

// The mathematical models of the syntax tree: identifiers are character
// sequences and lists are sequences.

pub struct FunctionModel {
    pub name: Seq<char>,
    pub params: Seq<Seq<char>>,
    pub body: Option<Seq<BlockItemModel>>,
}

pub enum BlockItemModel {
    S(StatementModel),
    D(DeclarationModel),
}

pub struct VariableModel {
    pub name: Seq<char>,
    pub init: Option<ExpressionModel>,
}

pub enum DeclarationModel {
    FunDecl(FunctionModel),
    VarDecl(VariableModel),
}

pub enum StatementModel {
    Return(ExpressionModel),
    Expression(ExpressionModel),
    If { condition: ExpressionModel, then: Box<StatementModel>, otherwise: Option<Box<StatementModel>> },
    Compound(Seq<BlockItemModel>),
    Break,
    Continue,
    While { condition: ExpressionModel, body: Box<StatementModel> },
    DoWhile { condition: ExpressionModel, body: Box<StatementModel> },
    For {
        init: ForInitModel,
        condition: Option<ExpressionModel>,
        post: Option<ExpressionModel>,
        body: Box<StatementModel>,
    },
    Null,
}

pub enum ForInitModel {
    D(VariableModel),
    E(Option<ExpressionModel>),
}

pub enum ExpressionModel {
    Constant(Int),
    Var(Seq<char>),
    Unary { operator: UnaryOp, operand: Box<ExpressionModel> },
    Binary {
        operator: BinaryOp,
        left_expression: Box<ExpressionModel>,
        right_expression: Box<ExpressionModel>,
    },
    Assignment { lvalue: Box<ExpressionModel>, expression: Box<ExpressionModel> },
    Conditional {
        condition: Box<ExpressionModel>,
        then: Box<ExpressionModel>,
        otherwise: Box<ExpressionModel>,
    },
    FunctionCall { identifier: Seq<char>, args: Seq<ExpressionModel> },
}

pub open spec fn names_model(names: Seq<String>) -> Seq<Seq<char>> {
    names.map_values(|n: String| n@)
}

pub open spec fn expression_model(e: Expression) -> ExpressionModel
    decreases e,
{
    match e {
        Expression::Constant(i) => ExpressionModel::Constant(i),
        Expression::Var(v) => ExpressionModel::Var(v@),
        Expression::Unary { operator, operand } => ExpressionModel::Unary {
            operator,
            operand: Box::new(expression_model(*operand)),
        },
        Expression::Binary { operator, left_expression, right_expression } => ExpressionModel::Binary {
            operator,
            left_expression: Box::new(expression_model(*left_expression)),
            right_expression: Box::new(expression_model(*right_expression)),
        },
        Expression::Assignment { lvalue, expression } => ExpressionModel::Assignment {
            lvalue: Box::new(expression_model(*lvalue)),
            expression: Box::new(expression_model(*expression)),
        },
        Expression::Conditional { condition, then, otherwise } => ExpressionModel::Conditional {
            condition: Box::new(expression_model(*condition)),
            then: Box::new(expression_model(*then)),
            otherwise: Box::new(expression_model(*otherwise)),
        },
        Expression::FunctionCall { identifier, args } => ExpressionModel::FunctionCall {
            identifier: identifier@,
            args: expressions_model(args@),
        },
    }
}

pub open spec fn expressions_model(es: Seq<Expression>) -> Seq<ExpressionModel>
    decreases es,
{
    if es.len() == 0 {
        seq![]
    } else {
        expressions_model(es.drop_last()).push(expression_model(es.last()))
    }
}

pub open spec fn optional_expression_model(e: Option<Expression>) -> Option<ExpressionModel> {
    match e {
        Some(e) => Some(expression_model(e)),
        None => None,
    }
}

pub open spec fn variable_model(v: VariableDeclaration) -> VariableModel {
    VariableModel { name: v.name@, init: optional_expression_model(v.init) }
}

pub open spec fn for_init_model(init: ForInit) -> ForInitModel {
    match init {
        ForInit::D(v) => ForInitModel::D(variable_model(v)),
        ForInit::E(e) => ForInitModel::E(optional_expression_model(e)),
    }
}

pub open spec fn function_model(f: FunctionDeclaration) -> FunctionModel
    decreases f,
{
    FunctionModel {
        name: f.name@,
        params: names_model(f.params@),
        body: match f.body {
            Some(b) => Some(block_model(b)),
            None => None,
        },
    }
}

pub open spec fn block_model(b: Block) -> Seq<BlockItemModel>
    decreases b,
{
    block_items_model(b.0@)
}

pub open spec fn block_items_model(items: Seq<BlockItem>) -> Seq<BlockItemModel>
    decreases items,
{
    if items.len() == 0 {
        seq![]
    } else {
        block_items_model(items.drop_last()).push(block_item_model(items.last()))
    }
}

pub open spec fn block_item_model(item: BlockItem) -> BlockItemModel
    decreases item,
{
    match item {
        BlockItem::S(s) => BlockItemModel::S(statement_model(s)),
        BlockItem::D(d) => BlockItemModel::D(declaration_model(d)),
    }
}

pub open spec fn declaration_model(d: Declaration) -> DeclarationModel
    decreases d,
{
    match d {
        Declaration::FunDecl(f) => DeclarationModel::FunDecl(function_model(f)),
        Declaration::VarDecl(v) => DeclarationModel::VarDecl(variable_model(v)),
    }
}

pub open spec fn statement_model(s: Statement) -> StatementModel
    decreases s,
{
    match s {
        Statement::Return(e) => StatementModel::Return(expression_model(e)),
        Statement::Expression(e) => StatementModel::Expression(expression_model(e)),
        Statement::If { condition, then, otherwise } => StatementModel::If {
            condition: expression_model(condition),
            then: Box::new(statement_model(*then)),
            otherwise: match otherwise {
                Some(o) => Some(Box::new(statement_model(*o))),
                None => None,
            },
        },
        Statement::Compound(b) => StatementModel::Compound(block_model(b)),
        Statement::Break => StatementModel::Break,
        Statement::Continue => StatementModel::Continue,
        Statement::While { condition, body } => StatementModel::While {
            condition: expression_model(condition),
            body: Box::new(statement_model(*body)),
        },
        Statement::DoWhile { condition, body } => StatementModel::DoWhile {
            condition: expression_model(condition),
            body: Box::new(statement_model(*body)),
        },
        Statement::For { init, condition, post, body } => StatementModel::For {
            init: for_init_model(init),
            condition: optional_expression_model(condition),
            post: optional_expression_model(post),
            body: Box::new(statement_model(*body)),
        },
        Statement::Null => StatementModel::Null,
    }
}

pub open spec fn functions_model(fs: Seq<FunctionDeclaration>) -> Seq<FunctionModel> {
    fs.map_values(|f: FunctionDeclaration| function_model(f))
}

impl View for Expression {
    type V = ExpressionModel;

    open spec fn view(&self) -> ExpressionModel {
        expression_model(*self)
    }
}

impl View for Statement {
    type V = StatementModel;

    open spec fn view(&self) -> StatementModel {
        statement_model(*self)
    }
}

impl View for Block {
    type V = Seq<BlockItemModel>;

    open spec fn view(&self) -> Seq<BlockItemModel> {
        block_model(*self)
    }
}

impl View for BlockItem {
    type V = BlockItemModel;

    open spec fn view(&self) -> BlockItemModel {
        block_item_model(*self)
    }
}

impl View for Declaration {
    type V = DeclarationModel;

    open spec fn view(&self) -> DeclarationModel {
        declaration_model(*self)
    }
}

impl View for VariableDeclaration {
    type V = VariableModel;

    open spec fn view(&self) -> VariableModel {
        variable_model(*self)
    }
}

impl View for FunctionDeclaration {
    type V = FunctionModel;

    open spec fn view(&self) -> FunctionModel {
        function_model(*self)
    }
}

impl View for ForInit {
    type V = ForInitModel;

    open spec fn view(&self) -> ForInitModel {
        for_init_model(*self)
    }
}

impl View for Program {
    type V = Seq<FunctionModel>;

    open spec fn view(&self) -> Seq<FunctionModel> {
        functions_model(self.functions@)
    }
}

/// What the parse of one piece says: the model of what was parsed and the tokens
/// after it, or the error.
pub open spec fn outcome<T: View>(r: Result<T, ParseError>, rest: Seq<Token>) -> Parsed<T::V> {
    match r {
        Ok(v) => Ok((v@, rest)),
        Err(e) => Err(e),
    }
}

pub open spec fn expressions_outcome(r: Result<Vec<Expression>, ParseError>, rest: Seq<Token>) -> Parsed<Seq<ExpressionModel>> {
    match r {
        Ok(v) => Ok((expressions_model(v@), rest)),
        Err(e) => Err(e),
    }
}

pub open spec fn names_outcome(r: Result<Vec<Identifier>, ParseError>, rest: Seq<Token>) -> Parsed<Seq<Seq<char>>> {
    match r {
        Ok(v) => Ok((names_model(v@), rest)),
        Err(e) => Err(e),
    }
}

pub open spec fn optional_outcome(r: Result<Option<Expression>, ParseError>, rest: Seq<Token>) -> Parsed<Option<ExpressionModel>> {
    match r {
        Ok(v) => Ok((optional_expression_model(v), rest)),
        Err(e) => Err(e),
    }
}

/// Parses a whole program, or says why the tokens are not one.
pub fn try_parse(tokens: &mut Vec<Token>) -> (result: Result<Program, ParseError>)
    ensures
        sp_program(old(tokens)@) == match result {
            Ok(p) => Ok(p@),
            Err(e) => Err::<Seq<FunctionModel>, ParseError>(e),
        },
{
    let mut functions: Vec<FunctionDeclaration> = Vec::new();
    let ghost t0 = tokens@;
    while tokens.len() > 0
        invariant
            t0 == old(tokens)@,
            sp_program(t0) == match sp_program(tokens@) {
                Ok(fs) => Ok(functions_model(functions@) + fs),
                Err(e) => Err::<Seq<FunctionModel>, ParseError>(e),
            },
        decreases tokens@.len(),
    {
        let ghost before = tokens@;
        let f = FunctionDeclaration::try_parse(tokens)?;
        proof {
            assert(functions_model(functions@.push(f)) =~= functions_model(functions@).push(f@));
            match sp_program(tokens@) {
                Ok(fs) => {
                    assert(functions_model(functions@) + (seq![f@] + fs) =~= functions_model(functions@).push(f@) + fs);
                },
                Err(e) => {},
            }
        }
        functions.push(f);
    }
    proof {
        assert(functions_model(functions@) + seq![] =~= functions_model(functions@));
    }
    Ok(Program { functions })
}

/// Whether the first token is `expected`.
fn first_is_token(tokens: &Vec<Token>, expected: &Token) -> (r: bool)
    requires
        expected.is_plain(),
    ensures
        r == first_is(tokens@, *expected),
{
    tokens.len() > 0 && tokens[0].is_same_kind(expected)
}

/// Removes the first token, which must be `expected`.
fn try_consume(expected: Token, tokens: &mut Vec<Token>) -> (result: Result<(), ParseError>)
    requires
        expected.is_plain(),
    ensures
        sp_consume(expected, old(tokens)@) == match result {
            Ok(_) => Ok(final(tokens)@),
            Err(e) => Err::<Seq<Token>, ParseError>(e),
        },
        result is Ok ==> final(tokens)@.len() == old(tokens)@.len() - 1,
{
    if tokens.len() == 0 {
        return Err(ParseError::UnexpectedEnd);
    }
    let actual = tokens.remove(0);
    if actual.is_same_kind(&expected) {
        Ok(())
    } else {
        Err(ParseError::UnexpectedToken { expected, found: actual })
    }
}

fn try_parse_identifier(tokens: &mut Vec<Token>) -> (result: Result<Identifier, ParseError>)
    ensures
        sp_identifier(old(tokens)@) == outcome(result, final(tokens)@),
        result is Ok ==> final(tokens)@.len() == old(tokens)@.len() - 1,
{
    if tokens.len() == 0 {
        return Err(ParseError::UnexpectedEnd);
    }
    match tokens.remove(0) {
        Token::Identifier(x) => Ok(x),
        t => Err(ParseError::ExpectedIdentifier(t)),
    }
}

impl FunctionDeclaration {
    fn try_parse(tokens: &mut Vec<Token>) -> (result: Result<Self, ParseError>)
        ensures
            sp_function(old(tokens)@) == outcome(result, final(tokens)@),
            result is Ok ==> final(tokens)@.len() < old(tokens)@.len(),
        decreases old(tokens)@.len(), 0nat,
    {
        let ghost t0 = tokens@;
        try_consume(Token::Int, tokens)?;
        let identifier = try_parse_identifier(tokens)?;
        try_consume(Token::OpenParan, tokens)?;
        let params = Self::try_parse_parameters(tokens)?;
        try_consume(Token::CloseParan, tokens)?;
        let block = if first_is_token(tokens, &Token::Semicolon) {
            try_consume(Token::Semicolon, tokens)?;
            None
        } else {
            Some(Block::try_parse(tokens)?)
        };
        Ok(Self { name: identifier, params, body: block })
    }

    fn try_parse_parameters(tokens: &mut Vec<Token>) -> (result: Result<Vec<Identifier>, ParseError>)
        ensures
            sp_params(old(tokens)@) == names_outcome(result, final(tokens)@),
            result is Ok ==> final(tokens)@.len() < old(tokens)@.len(),
    {
        let ghost t0 = tokens@;
        if first_is_token(tokens, &Token::Void) {
            try_consume(Token::Void, tokens)?;
            proof {
                assert(names_model(Seq::<Identifier>::empty()) =~= seq![]);
            }
            return Ok(Vec::new());
        }
        let mut parameters: Vec<Identifier> = Vec::new();
        try_consume(Token::Int, tokens)?;
        let first = try_parse_identifier(tokens)?;
        parameters.push(first);
        proof {
            assert(names_model(parameters@) =~= seq![first@]);
        }
        while first_is_token(tokens, &Token::Comma)
            invariant
                tokens@.len() < t0.len(),
                t0 == old(tokens)@,
                sp_params(t0) == prepend(names_model(parameters@), sp_more_params(tokens@)),
            decreases tokens@.len(),
        {
            let ghost before = tokens@;
            try_consume(Token::Comma, tokens)?;
            try_consume(Token::Int, tokens)?;
            let p = try_parse_identifier(tokens)?;
            proof {
                assert(names_model(parameters@.push(p)) =~= names_model(parameters@).push(p@));
                assert(sp_more_params(before) == prepend(seq![p@], sp_more_params(tokens@)));
                lemma_prepend_push(names_model(parameters@), p@, sp_more_params(tokens@));
            }
            parameters.push(p);
        }
        proof {
            assert(names_model(parameters@) + seq![] =~= names_model(parameters@));
        }
        Ok(parameters)
    }
}

impl Block {
    #[verifier::spinoff_prover]
    fn try_parse(tokens: &mut Vec<Token>) -> (result: Result<Self, ParseError>)
        ensures
            sp_block(old(tokens)@) == outcome(result, final(tokens)@),
            result is Ok ==> final(tokens)@.len() < old(tokens)@.len(),
        decreases old(tokens)@.len(), 0nat,
    {
        let ghost t0 = tokens@;
        try_consume(Token::OpenBrace, tokens)?;
        let ghost t1 = tokens@;
        let mut block_items: Vec<BlockItem> = Vec::new();
        proof {
            assert(block_items_model(block_items@) =~= seq![]);
            lemma_prepend_push(seq![], BlockItemModel::S(StatementModel::Null), sp_block_items(t1));
        }
        while !first_is_token(tokens, &Token::CloseBrace)
            invariant
                tokens@.len() < t0.len(),
                t0 == old(tokens)@,
                sp_consume(Token::OpenBrace, t0) == Ok::<Seq<Token>, ParseError>(t1),
                sp_block_items(t1) == prepend(block_items_model(block_items@), sp_block_items(tokens@)),
            decreases tokens@.len(),
        {
            let ghost before = tokens@;
            let item = match BlockItem::try_parse(tokens) {
                Ok(item) => item,
                Err(e) => {
                    proof {
                        grammar::lemma_block_items_error(before, e);
                    }
                    return Err(e);
                },
            };
            proof {
                lemma_block_items_model_push(block_items@, item);
                grammar::lemma_block_items_step(before, item@, tokens@);
                lemma_prepend_push(block_items_model(block_items@), item@, sp_block_items(tokens@));
            }
            block_items.push(item);
        }
        proof {
            assert(block_items_model(block_items@) + seq![] =~= block_items_model(block_items@));
        }
        try_consume(Token::CloseBrace, tokens)?;
        Ok(Self(block_items))
    }
}

pub proof fn lemma_block_items_model_push(items: Seq<BlockItem>, item: BlockItem)
    ensures
        block_items_model(items.push(item)) == block_items_model(items).push(item@),
{
    assert(items.push(item).drop_last() =~= items);
}

pub proof fn lemma_block_items_model_index(items: Seq<BlockItem>)
    ensures
        block_items_model(items).len() == items.len(),
        forall|i: int| 0 <= i < items.len() ==> #[trigger] block_items_model(items)[i] == items[i]@,
    decreases items.len(),
{
    if items.len() > 0 {
        lemma_block_items_model_index(items.drop_last());
    }
}

pub proof fn lemma_expressions_model_index(es: Seq<Expression>)
    ensures
        expressions_model(es).len() == es.len(),
        forall|i: int| 0 <= i < es.len() ==> #[trigger] expressions_model(es)[i] == es[i]@,
    decreases es.len(),
{
    if es.len() > 0 {
        lemma_expressions_model_index(es.drop_last());
    }
}

pub proof fn lemma_expressions_model_push(es: Seq<Expression>, e: Expression)
    ensures
        expressions_model(es.push(e)) == expressions_model(es).push(e@),
{
    assert(es.push(e).drop_last() =~= es);
}

impl BlockItem {
    fn try_parse(tokens: &mut Vec<Token>) -> (result: Result<Self, ParseError>)
        ensures
            sp_block_item(old(tokens)@) == outcome(result, final(tokens)@),
            result is Ok ==> final(tokens)@.len() < old(tokens)@.len(),
        decreases old(tokens)@.len(), 3nat,
    {
        if tokens.len() == 0 {
            return Err(ParseError::UnexpectedEnd);
        }
        if tokens[0].is_same_kind(&Token::Int) {
            Ok(Self::D(Declaration::try_parse(tokens)?))
        } else {
            Ok(Self::S(Statement::try_parse(tokens)?))
        }
    }
}

impl VariableDeclaration {
    fn try_parse(tokens: &mut Vec<Token>) -> (result: Result<Self, ParseError>)
        ensures
            sp_variable(old(tokens)@) == outcome(result, final(tokens)@),
            result is Ok ==> final(tokens)@.len() < old(tokens)@.len(),
        decreases old(tokens)@.len(), 1nat,
    {
        if tokens.len() < 3 {
            return Err(ParseError::UnexpectedEnd);
        }
        if tokens[2].is_same_kind(&Token::Equal) {
            Self::try_parse_with_expression(tokens)
        } else if tokens[2].is_same_kind(&Token::Semicolon) {
            Self::try_parse_without_expression(tokens)
        } else {
            let other = tokens.remove(2);
            Err(ParseError::MalformedVariableDeclaration(other))
        }
    }

    fn try_parse_with_expression(tokens: &mut Vec<Token>) -> (result: Result<Self, ParseError>)
        ensures
            sp_variable_with_expression(old(tokens)@) == outcome(result, final(tokens)@),
            result is Ok ==> final(tokens)@.len() < old(tokens)@.len(),
        decreases old(tokens)@.len(), 0nat,
    {
        try_consume(Token::Int, tokens)?;
        let identifier = try_parse_identifier(tokens)?;
        try_consume(Token::Equal, tokens)?;
        let expression = Expression::try_parse(tokens, 0)?;
        try_consume(Token::Semicolon, tokens)?;
        Ok(Self { name: identifier, init: Some(expression) })
    }

    fn try_parse_without_expression(tokens: &mut Vec<Token>) -> (result: Result<Self, ParseError>)
        ensures
            sp_variable_without_expression(old(tokens)@) == outcome(result, final(tokens)@),
            result is Ok ==> final(tokens)@.len() < old(tokens)@.len(),
    {
        try_consume(Token::Int, tokens)?;
        let identifier = try_parse_identifier(tokens)?;
        try_consume(Token::Semicolon, tokens)?;
        Ok(Self { name: identifier, init: None })
    }
}

impl Declaration {
    fn try_parse(tokens: &mut Vec<Token>) -> (result: Result<Self, ParseError>)
        ensures
            sp_declaration(old(tokens)@) == outcome(result, final(tokens)@),
            result is Ok ==> final(tokens)@.len() < old(tokens)@.len(),
        decreases old(tokens)@.len(), 1nat,
    {
        if tokens.len() < 3 {
            return Err(ParseError::UnexpectedEnd);
        }
        if tokens[2].is_same_kind(&Token::Equal) {
            Ok(Self::VarDecl(VariableDeclaration::try_parse_with_expression(tokens)?))
        } else if tokens[2].is_same_kind(&Token::Semicolon) {
            Ok(Self::VarDecl(VariableDeclaration::try_parse_without_expression(tokens)?))
        } else if tokens[2].is_same_kind(&Token::OpenParan) {
            Ok(Self::FunDecl(FunctionDeclaration::try_parse(tokens)?))
        } else {
            let other = tokens.remove(2);
            Err(ParseError::MalformedDeclaration(other))
        }
    }
}

impl Statement {
    fn try_parse(tokens: &mut Vec<Token>) -> (result: Result<Self, ParseError>)
        ensures
            sp_statement(old(tokens)@) == outcome(result, final(tokens)@),
            result is Ok ==> final(tokens)@.len() < old(tokens)@.len(),
        decreases old(tokens)@.len(), 2nat,
    {
        let ghost t0 = tokens@;
        if tokens.len() == 0 {
            return Err(ParseError::UnexpectedEnd);
        }
        match &tokens[0] {
            Token::Return => {
                try_consume(Token::Return, tokens)?;
                let expression = Expression::try_parse(tokens, 0)?;
                try_consume(Token::Semicolon, tokens)?;
                Ok(Self::Return(expression))
            },
            Token::Semicolon => {
                try_consume(Token::Semicolon, tokens)?;
                Ok(Self::Null)
            },
            Token::If => {
                try_consume(Token::If, tokens)?;
                try_consume(Token::OpenParan, tokens)?;
                let condition = Expression::try_parse(tokens, 0)?;
                try_consume(Token::CloseParan, tokens)?;
                let then = Self::try_parse(tokens)?;
                let mut otherwise = None;
                if first_is_token(tokens, &Token::Else) {
                    try_consume(Token::Else, tokens)?;
                    otherwise = Some(Self::try_parse(tokens)?);
                }
                Ok(
                    Self::If {
                        condition,
                        then: Box::new(then),
                        otherwise: match otherwise {
                            Some(o) => Some(Box::new(o)),
                            None => None,
                        },
                    },
                )
            },
            Token::Break => {
                try_consume(Token::Break, tokens)?;
                try_consume(Token::Semicolon, tokens)?;
                Ok(Self::Break)
            },
            Token::Continue => {
                try_consume(Token::Continue, tokens)?;
                try_consume(Token::Semicolon, tokens)?;
                Ok(Self::Continue)
            },
            Token::While => {
                try_consume(Token::While, tokens)?;
                try_consume(Token::OpenParan, tokens)?;
                let condition = Expression::try_parse(tokens, 0)?;
                try_consume(Token::CloseParan, tokens)?;
                let body = Box::new(Self::try_parse(tokens)?);
                Ok(Self::While { condition, body })
            },
            Token::Do => {
                try_consume(Token::Do, tokens)?;
                let body = Box::new(Self::try_parse(tokens)?);
                try_consume(Token::While, tokens)?;
                try_consume(Token::OpenParan, tokens)?;
                let condition = Expression::try_parse(tokens, 0)?;
                try_consume(Token::CloseParan, tokens)?;
                try_consume(Token::Semicolon, tokens)?;
                Ok(Self::DoWhile { condition, body })
            },
            Token::For => {
                try_consume(Token::For, tokens)?;
                try_consume(Token::OpenParan, tokens)?;
                let init = ForInit::try_parse(tokens)?;
                let condition = Expression::try_parse_optional(tokens, Token::Semicolon)?;
                try_consume(Token::Semicolon, tokens)?;
                let post = Expression::try_parse_optional(tokens, Token::CloseParan)?;
                try_consume(Token::CloseParan, tokens)?;
                let body = Box::new(Self::try_parse(tokens)?);
                Ok(Self::For { init, condition, post, body })
            },
            Token::OpenBrace => Ok(Self::Compound(Block::try_parse(tokens)?)),
            _ => {
                let expression = Expression::try_parse(tokens, 0)?;
                try_consume(Token::Semicolon, tokens)?;
                Ok(Self::Expression(expression))
            },
        }
    }
}

impl ForInit {
    fn try_parse(tokens: &mut Vec<Token>) -> (result: Result<Self, ParseError>)
        ensures
            sp_for_init(old(tokens)@) == outcome(result, final(tokens)@),
            result is Ok ==> final(tokens)@.len() < old(tokens)@.len(),
        decreases old(tokens)@.len(), 3nat,
    {
        if first_is_token(tokens, &Token::Int) {
            return Ok(Self::D(VariableDeclaration::try_parse(tokens)?));
        }
        if let Some(e) = Expression::try_parse_optional(tokens, Token::Semicolon)? {
            try_consume(Token::Semicolon, tokens)?;
            Ok(Self::E(Some(e)))
        } else {
            try_consume(Token::Semicolon, tokens)?;
            Ok(Self::E(None))
        }
    }
}

impl Expression {
    fn try_parse(tokens: &mut Vec<Token>, min_prec: u8) -> (result: Result<Self, ParseError>)
        ensures
            sp_exp(old(tokens)@, min_prec) == outcome(result, final(tokens)@),
            result is Ok ==> final(tokens)@.len() < old(tokens)@.len(),
        decreases old(tokens)@.len(), 1nat,
    {
        let ghost t0 = tokens@;
        let mut left = Self::try_parse_factor(tokens)?;
        loop
            invariant
                tokens@.len() < t0.len(),
                t0 == old(tokens)@,
                sp_exp(t0, min_prec) == sp_exp_loop(left@, tokens@, min_prec),
            ensures
                tokens@.len() < t0.len(),
                sp_exp(t0, min_prec) == Ok::<(ExpressionModel, Seq<Token>), ParseError>((left@, tokens@)),
            decreases tokens@.len(),
        {
            if tokens.len() == 0 {
                break;
            }
            let binary_op = match BinaryOp::parse(&tokens[0]) {
                Ok(op) => op,
                Err(_) => break,
            };
            let prec = binary_op.precedence();
            if prec < min_prec {
                break;
            }
            match binary_op {
                BinaryOp::Assignment => {
                    try_consume(Token::Equal, tokens)?;
                    let right = Self::try_parse(tokens, prec)?;
                    left = Self::Assignment { lvalue: Box::new(left), expression: Box::new(right) };
                },
                BinaryOp::Ternary => {
                    try_consume(Token::QuestionMark, tokens)?;
                    let middle = Self::try_parse(tokens, 0)?;
                    try_consume(Token::Colon, tokens)?;
                    let right = Self::try_parse(tokens, prec)?;
                    left = Self::Conditional {
                        condition: Box::new(left),
                        then: Box::new(middle),
                        otherwise: Box::new(right),
                    };
                },
                _ => {
                    tokens.remove(0);
                    let right = Self::try_parse(tokens, prec + 1)?;
                    left = Self::Binary {
                        operator: binary_op,
                        left_expression: Box::new(left),
                        right_expression: Box::new(right),
                    };
                },
            }
        }
        Ok(left)
    }

    fn try_parse_optional(tokens: &mut Vec<Token>, end_token: Token) -> (result: Result<Option<Self>, ParseError>)
        requires
            end_token.is_plain(),
        ensures
            sp_optional_exp(old(tokens)@, end_token) == optional_outcome(result, final(tokens)@),
            result is Ok ==> final(tokens)@.len() <= old(tokens)@.len(),
        decreases old(tokens)@.len(), 2nat,
    {
        if first_is_token(tokens, &end_token) {
            Ok(None)
        } else {
            Ok(Some(Self::try_parse(tokens, 0)?))
        }
    }

    fn try_parse_factor(tokens: &mut Vec<Token>) -> (result: Result<Self, ParseError>)
        ensures
            sp_factor(old(tokens)@) == outcome(result, final(tokens)@),
            result is Ok ==> final(tokens)@.len() < old(tokens)@.len(),
        decreases old(tokens)@.len(), 0nat,
    {
        if tokens.len() == 0 {
            return Err(ParseError::UnexpectedEnd);
        }
        let token = tokens.remove(0);
        match UnaryOp::parse(&token) {
            Ok(unary_op) => Ok(Self::Unary { operator: unary_op, operand: Box::new(Self::try_parse_factor(tokens)?) }),
            Err(_) => match token {
                Token::Constant(i) => Ok(Self::Constant(i)),
                Token::OpenParan => {
                    let expr = Self::try_parse(tokens, 0)?;
                    try_consume(Token::CloseParan, tokens)?;
                    Ok(expr)
                },
                Token::Identifier(i) => {
                    if first_is_token(tokens, &Token::OpenParan) {
                        try_consume(Token::OpenParan, tokens)?;
                        let mut args: Vec<Self> = Vec::new();
                        proof {
                            assert(expressions_model(args@) =~= seq![]);
                        }
                        if !first_is_token(tokens, &Token::CloseParan) {
                            args = Self::try_parse_argument_list(tokens)?;
                        }
                        try_consume(Token::CloseParan, tokens)?;
                        return Ok(Self::FunctionCall { identifier: i, args });
                    }
                    Ok(Self::Var(i))
                },
                t => Err(ParseError::MalformedFactor(t)),
            },
        }
    }

    fn try_parse_argument_list(tokens: &mut Vec<Token>) -> (result: Result<Vec<Self>, ParseError>)
        ensures
            sp_arguments(old(tokens)@) == expressions_outcome(result, final(tokens)@),
            result is Ok ==> final(tokens)@.len() < old(tokens)@.len(),
        decreases old(tokens)@.len(), 2nat,
    {
        let ghost t0 = tokens@;
        let mut args: Vec<Self> = Vec::new();
        let first = Self::try_parse(tokens, 0)?;
        proof {
            lemma_expressions_model_push(args@, first);
            assert(expressions_model(args@) =~= seq![]);
            assert(seq![] + seq![first@] =~= seq![first@]);
        }
        args.push(first);
        while first_is_token(tokens, &Token::Comma)
            invariant
                tokens@.len() < t0.len(),
                t0 == old(tokens)@,
                sp_arguments(t0) == prepend(expressions_model(args@), sp_more_arguments(tokens@)),
            decreases tokens@.len(),
        {
            let ghost before = tokens@;
            try_consume(Token::Comma, tokens)?;
            let a = Self::try_parse(tokens, 0)?;
            proof {
                lemma_expressions_model_push(args@, a);
                assert(sp_more_arguments(before) == prepend(seq![a@], sp_more_arguments(tokens@)));
                lemma_prepend_push(expressions_model(args@), a@, sp_more_arguments(tokens@));
            }
            args.push(a);
        }
        proof {
            assert(expressions_model(args@) + seq![] =~= expressions_model(args@));
        }
        Ok(args)
    }
}

impl BinaryOp {
    fn parse(token: &Token) -> (result: Result<BinaryOp, &'static str>)
        ensures
            match result {
                Ok(op) => spec_binary_op(*token) == Some(op),
                Err(_) => spec_binary_op(*token) is None,
            },
    {
        Ok(
            match token {
                Token::Plus => Self::Add,
                Token::Minus => Self::Subtract,
                Token::Asterisk => Self::Multiply,
                Token::ForwardSlash => Self::Divide,
                Token::Percent => Self::Remainder,
                Token::DoubleAmpersands => Self::And,
                Token::DoubleBar => Self::Or,
                Token::DoubleEqual => Self::Equal,
                Token::ExclamationEqual => Self::NotEqual,
                Token::LeftAngleBracket => Self::LessThan,
                Token::RightAngleBracket => Self::GreaterThan,
                Token::LeftAngleBracketEqual => Self::LessOrEqual,
                Token::RightAngleBracketEqual => Self::GreaterOrEqual,
                Token::Equal => Self::Assignment,
                Token::QuestionMark => Self::Ternary,
                _ => return Err("Token does not correspond to binary operator"),
            },
        )
    }

    fn precedence(&self) -> (result: u8)
        ensures
            result == spec_precedence(*self),
    {
        match self {
            Self::Multiply | Self::Divide | Self::Remainder => 50,
            Self::Add | Self::Subtract => 45,
            Self::LessThan | Self::LessOrEqual | Self::GreaterThan | Self::GreaterOrEqual => 35,
            Self::Equal | Self::NotEqual => 30,
            Self::And => 10,
            Self::Or => 5,
            Self::Ternary => 3,
            Self::Assignment => 1,
        }
    }
}

impl UnaryOp {
    fn parse(token: &Token) -> (result: Result<Self, &'static str>)
        ensures
            match result {
                Ok(op) => spec_unary_op(*token) == Some(op),
                Err(_) => spec_unary_op(*token) is None,
            },
    {
        Ok(
            match token {
                Token::Tilde => Self::Complement,
                Token::Minus => Self::Negate,
                Token::Exclamation => Self::Not,
                _ => return Err("Token does not correspond to unary operator"),
            },
        )
    }
}


// The parsers below take token sequences that the grammar accepts. For other
// sequences the `try_` function of the same name returns the error.

/// A program: function declarations up to the end of the tokens.
pub fn parse(tokens: &mut Vec<Token>) -> (result: Program)
    requires
        sp_program(old(tokens)@) is Ok,
    ensures
        sp_program(old(tokens)@) == Ok::<Seq<FunctionModel>, ParseError>(result@),
{
    try_parse(tokens).unwrap()
}

/// Removes the first token, which must be of the kind of `expected`.
pub fn consume(expected: Token, tokens: &mut Vec<Token>)
    requires
        expected.is_plain(),
        sp_consume(expected, old(tokens)@) is Ok,
    ensures
        sp_consume(expected, old(tokens)@) == Ok::<Seq<Token>, ParseError>(final(tokens)@),
{
    try_consume(expected, tokens).unwrap()
}

/// Removes the first token, which must be an identifier, and returns its name.
pub fn parse_identifier(tokens: &mut Vec<Token>) -> (result: Identifier)
    requires
        sp_identifier(old(tokens)@) is Ok,
    ensures
        sp_identifier(old(tokens)@) == outcome(Ok(result), final(tokens)@),
{
    try_parse_identifier(tokens).unwrap()
}

impl FunctionDeclaration {
    pub fn parse(tokens: &mut Vec<Token>) -> (result: Self)
        requires
            sp_function(old(tokens)@) is Ok,
        ensures
            sp_function(old(tokens)@) == outcome(Ok(result), final(tokens)@),
    {
        Self::try_parse(tokens).unwrap()
    }
}

impl FunctionDeclaration {
    pub fn parse_parameters(tokens: &mut Vec<Token>) -> (result: Vec<Identifier>)
        requires
            sp_params(old(tokens)@) is Ok,
        ensures
            sp_params(old(tokens)@) == names_outcome(Ok(result), final(tokens)@),
    {
        Self::try_parse_parameters(tokens).unwrap()
    }
}

impl Block {
    pub fn parse(tokens: &mut Vec<Token>) -> (result: Self)
        requires
            sp_block(old(tokens)@) is Ok,
        ensures
            sp_block(old(tokens)@) == outcome(Ok(result), final(tokens)@),
    {
        Self::try_parse(tokens).unwrap()
    }
}

impl BlockItem {
    pub fn parse(tokens: &mut Vec<Token>) -> (result: Self)
        requires
            sp_block_item(old(tokens)@) is Ok,
        ensures
            sp_block_item(old(tokens)@) == outcome(Ok(result), final(tokens)@),
    {
        Self::try_parse(tokens).unwrap()
    }
}

impl VariableDeclaration {
    pub fn parse(tokens: &mut Vec<Token>) -> (result: Self)
        requires
            sp_variable(old(tokens)@) is Ok,
        ensures
            sp_variable(old(tokens)@) == outcome(Ok(result), final(tokens)@),
    {
        Self::try_parse(tokens).unwrap()
    }
}

impl VariableDeclaration {
    pub fn parse_with_expression(tokens: &mut Vec<Token>) -> (result: Self)
        requires
            sp_variable_with_expression(old(tokens)@) is Ok,
        ensures
            sp_variable_with_expression(old(tokens)@) == outcome(Ok(result), final(tokens)@),
    {
        Self::try_parse_with_expression(tokens).unwrap()
    }
}

impl VariableDeclaration {
    pub fn parse_without_expression(tokens: &mut Vec<Token>) -> (result: Self)
        requires
            sp_variable_without_expression(old(tokens)@) is Ok,
        ensures
            sp_variable_without_expression(old(tokens)@) == outcome(Ok(result), final(tokens)@),
    {
        Self::try_parse_without_expression(tokens).unwrap()
    }
}

impl Declaration {
    pub fn parse(tokens: &mut Vec<Token>) -> (result: Self)
        requires
            sp_declaration(old(tokens)@) is Ok,
        ensures
            sp_declaration(old(tokens)@) == outcome(Ok(result), final(tokens)@),
    {
        Self::try_parse(tokens).unwrap()
    }
}

impl Statement {
    pub fn parse(tokens: &mut Vec<Token>) -> (result: Self)
        requires
            sp_statement(old(tokens)@) is Ok,
        ensures
            sp_statement(old(tokens)@) == outcome(Ok(result), final(tokens)@),
    {
        Self::try_parse(tokens).unwrap()
    }
}

impl ForInit {
    pub fn parse(tokens: &mut Vec<Token>) -> (result: Self)
        requires
            sp_for_init(old(tokens)@) is Ok,
        ensures
            sp_for_init(old(tokens)@) == outcome(Ok(result), final(tokens)@),
    {
        Self::try_parse(tokens).unwrap()
    }
}

impl Expression {
    pub fn parse(tokens: &mut Vec<Token>, min_prec: u8) -> (result: Self)
        requires
            sp_exp(old(tokens)@, min_prec) is Ok,
        ensures
            sp_exp(old(tokens)@, min_prec) == outcome(Ok(result), final(tokens)@),
    {
        Self::try_parse(tokens, min_prec).unwrap()
    }
}

impl Expression {
    pub fn parse_optional(tokens: &mut Vec<Token>, end_token: Token) -> (result: Option<Self>)
        requires
            end_token.is_plain(),
            sp_optional_exp(old(tokens)@, end_token) is Ok,
        ensures
            sp_optional_exp(old(tokens)@, end_token) == optional_outcome(Ok(result), final(tokens)@),
    {
        Self::try_parse_optional(tokens, end_token).unwrap()
    }
}

impl Expression {
    pub fn parse_factor(tokens: &mut Vec<Token>) -> (result: Self)
        requires
            sp_factor(old(tokens)@) is Ok,
        ensures
            sp_factor(old(tokens)@) == outcome(Ok(result), final(tokens)@),
    {
        Self::try_parse_factor(tokens).unwrap()
    }
}

impl Expression {
    pub fn parse_argument_list(tokens: &mut Vec<Token>) -> (result: Vec<Self>)
        requires
            sp_arguments(old(tokens)@) is Ok,
        ensures
            sp_arguments(old(tokens)@) == expressions_outcome(Ok(result), final(tokens)@),
    {
        Self::try_parse_argument_list(tokens).unwrap()
    }
}

} // verus!
