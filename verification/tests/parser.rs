use crust::lexer::{lex, Token};
use crust::parser::{
    try_parse, Block, BlockItem, Declaration, Expression, ForInit, ParseError, Program, Statement, UnaryOp,
};

fn parse_source(source: &str) -> Result<Program, ParseError> {
    let mut tokens = lex(source).unwrap();
    try_parse(&mut tokens)
}

/// A compact rendering of an expression, to compare trees in tests.
fn show(e: &Expression) -> String {
    match e {
        Expression::Constant(i) => format!("{i}"),
        Expression::Var(v) => v.clone(),
        Expression::Unary { operator, operand } => {
            let op = match operator {
                UnaryOp::Complement => "~",
                UnaryOp::Negate => "-",
                UnaryOp::Not => "!",
            };
            format!("({op} {})", show(operand))
        }
        Expression::Binary { operator, left_expression, right_expression } => {
            format!("({:?} {} {})", operator, show(left_expression), show(right_expression))
        }
        Expression::Assignment { lvalue, expression } => format!("(= {} {})", show(lvalue), show(expression)),
        Expression::Conditional { condition, then, otherwise } => {
            format!("(? {} {} {})", show(condition), show(then), show(otherwise))
        }
        Expression::FunctionCall { identifier, args } => {
            let args: Vec<String> = args.iter().map(show).collect();
            format!("(call {identifier} [{}])", args.join(" "))
        }
    }
}

fn single_body(program: &Program) -> &Block {
    assert_eq!(program.functions.len(), 1);
    program.functions[0].body.as_ref().unwrap()
}

fn returned(source: &str) -> String {
    let program = parse_source(&format!("int main(void) {{ return {source}; }}")).unwrap();
    let body = single_body(&program);
    match &body.0[0] {
        BlockItem::S(Statement::Return(e)) => show(e),
        other => panic!("unexpected item: {:?}", other),
    }
}

#[test]
fn parse_return_program() {
    let program = parse_source("int main(void) { return 2; }").unwrap();
    assert_eq!(program.functions[0].name, "main");
    assert!(program.functions[0].params.is_empty());
    let body = single_body(&program);
    assert_eq!(body.0.len(), 1);
    assert!(matches!(&body.0[0], BlockItem::S(Statement::Return(Expression::Constant(2)))));
}

#[test]
fn parse_precedence_and_associativity() {
    assert_eq!(returned("1 + 2 * 3"), "(Add 1 (Multiply 2 3))");
    assert_eq!(returned("1 - 2 - 3"), "(Subtract (Subtract 1 2) 3)");
    assert_eq!(returned("(1 - 2) - 3"), "(Subtract (Subtract 1 2) 3)");
    assert_eq!(returned("1 - (2 - 3)"), "(Subtract 1 (Subtract 2 3))");
    assert_eq!(returned("1 < 2 == 3 > 4"), "(Equal (LessThan 1 2) (GreaterThan 3 4))");
    assert_eq!(returned("1 || 2 && 3"), "(Or 1 (And 2 3))");
    assert_eq!(returned("10 / 2 % 3"), "(Remainder (Divide 10 2) 3)");
    assert_eq!(returned("-~!1"), "(- (~ (! 1)))");
}

#[test]
fn parse_assignment_and_conditional() {
    let program = parse_source("int main(void) { int a; int b; a = b = 3; return a ? 1 : b ? 2 : 3; }").unwrap();
    let body = single_body(&program);
    assert_eq!(body.0.len(), 4);
    match &body.0[2] {
        BlockItem::S(Statement::Expression(e)) => assert_eq!(show(e), "(= a (= b 3))"),
        other => panic!("unexpected item: {:?}", other),
    }
    match &body.0[3] {
        BlockItem::S(Statement::Return(e)) => assert_eq!(show(e), "(? a 1 (? b 2 3))"),
        other => panic!("unexpected item: {:?}", other),
    }
}

#[test]
fn parse_calls_and_parameters() {
    let program = parse_source("int add(int a, int b); int main(void) { return add(1, 2 + 3); }").unwrap();
    assert_eq!(program.functions.len(), 2);
    assert_eq!(program.functions[0].name, "add");
    assert_eq!(program.functions[0].params, vec!["a".to_string(), "b".to_string()]);
    assert!(program.functions[0].body.is_none());
    match &program.functions[1].body.as_ref().unwrap().0[0] {
        BlockItem::S(Statement::Return(e)) => assert_eq!(show(e), "(call add [1 (Add 2 3)])"),
        other => panic!("unexpected item: {:?}", other),
    }
}

#[test]
fn parse_statements() {
    let program = parse_source(
        "int main(void) { if (1) return 1; else ; while (0) break; do { continue; } while (1); \
         for (int i = 0; i < 3; i = i + 1) ; for (;;) ; int x = 4; }",
    )
    .unwrap();
    let body = single_body(&program);
    assert_eq!(body.0.len(), 6);
    assert!(matches!(&body.0[0], BlockItem::S(Statement::If { otherwise: Some(_), .. })));
    assert!(matches!(&body.0[1], BlockItem::S(Statement::While { .. })));
    assert!(matches!(&body.0[2], BlockItem::S(Statement::DoWhile { .. })));
    match &body.0[3] {
        BlockItem::S(Statement::For { init: ForInit::D(d), condition: Some(c), post: Some(p), .. }) => {
            assert_eq!(d.name, "i");
            assert_eq!(show(c), "(LessThan i 3)");
            assert_eq!(show(p), "(= i (Add i 1))");
        }
        other => panic!("unexpected item: {:?}", other),
    }
    assert!(matches!(
        &body.0[4],
        BlockItem::S(Statement::For { init: ForInit::E(None), condition: None, post: None, .. })
    ));
    match &body.0[5] {
        BlockItem::D(Declaration::VarDecl(v)) => {
            assert_eq!(v.name, "x");
            assert!(matches!(v.init, Some(Expression::Constant(4))));
        }
        other => panic!("unexpected item: {:?}", other),
    }
}

#[test]
fn parse_error_unexpected_end() {
    assert!(matches!(parse_source("int main(void) { return 2;"), Err(ParseError::UnexpectedEnd)));
    assert!(matches!(parse_source("int"), Err(ParseError::UnexpectedEnd)));
}

#[test]
fn parse_error_unexpected_token() {
    match parse_source("int main(void) { return 2 }") {
        Err(ParseError::UnexpectedToken { expected, found }) => {
            assert_eq!(expected, Token::Semicolon);
            assert_eq!(found, Token::CloseBrace);
        }
        other => panic!("unexpected: {:?}", other),
    }
}

#[test]
fn parse_error_expected_identifier() {
    match parse_source("int 5(void) { return 2; }") {
        Err(ParseError::ExpectedIdentifier(found)) => assert_eq!(found, Token::Constant(5)),
        other => panic!("unexpected: {:?}", other),
    }
}

#[test]
fn parse_error_malformed_declarations() {
    match parse_source("int main(void) { int a + 1; }") {
        Err(ParseError::MalformedDeclaration(found)) => assert_eq!(found, Token::Plus),
        other => panic!("unexpected: {:?}", other),
    }
    match parse_source("int main(void) { for (int a + 1; ; ) ; }") {
        Err(ParseError::MalformedVariableDeclaration(found)) => assert_eq!(found, Token::Plus),
        other => panic!("unexpected: {:?}", other),
    }
}

#[test]
fn parse_error_malformed_factor() {
    match parse_source("int main(void) { return ; }") {
        Err(ParseError::MalformedFactor(found)) => assert_eq!(found, Token::Semicolon),
        other => panic!("unexpected: {:?}", other),
    }
}

#[test]
fn parse_equality_is_left_associative() {
    assert_eq!(returned("a == b != c"), "(NotEqual (Equal a b) c)");
}
