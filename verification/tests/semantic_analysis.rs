use crust::lexer::lex;
use crust::parser::{self, BlockItem, Declaration, Expression, Statement};
use crust::semantic_analysis::identifier_resolution::ResolveError;
use crust::semantic_analysis::loop_labeling::{LabelError, LabeledBlockItem, LabeledProgram, LabeledStatement};
use crust::semantic_analysis::type_checking::{Symbol, Type, TypeError};
use crust::semantic_analysis::{try_check_types, try_label_loops, try_resolve_identifiers};

fn parse_source(source: &str) -> parser::Program {
    let mut tokens = lex(source).unwrap();
    parser::try_parse(&mut tokens).unwrap()
}

fn labeled(source: &str) -> Result<LabeledProgram, LabelError> {
    try_label_loops(try_resolve_identifiers(parse_source(source)).unwrap())
}

#[test]
fn resolution_renames_variables_and_keeps_function_names() {
    let program = try_resolve_identifiers(parse_source("int main(void) { int a = 1; int b = a; return b; }")).unwrap();
    let f = &program.functions[0];
    assert_eq!(f.name, "main");
    let items = &f.body.as_ref().unwrap().0;
    match &items[0] {
        BlockItem::D(Declaration::VarDecl(v)) => assert_eq!(v.name, "a.1"),
        other => panic!("unexpected item: {:?}", other),
    }
    match &items[1] {
        BlockItem::D(Declaration::VarDecl(v)) => {
            assert_eq!(v.name, "b.2");
            assert!(matches!(&v.init, Some(Expression::Var(name)) if name == "a.1"));
        }
        other => panic!("unexpected item: {:?}", other),
    }
    assert!(matches!(&items[2], BlockItem::S(Statement::Return(Expression::Var(name))) if name == "b.2"));
}

#[test]
fn resolution_renames_parameters_and_calls() {
    let program =
        try_resolve_identifiers(parse_source("int f(int x) { return x; } int main(void) { return f(3); }")).unwrap();
    assert_eq!(program.functions[0].params, vec!["x.1".to_string()]);
    match &program.functions[1].body.as_ref().unwrap().0[0] {
        BlockItem::S(Statement::Return(Expression::FunctionCall { identifier, args })) => {
            assert_eq!(identifier, "f");
            assert_eq!(args.len(), 1);
        }
        other => panic!("unexpected item: {:?}", other),
    }
}

#[test]
fn resolution_inner_block_shadows() {
    let program = try_resolve_identifiers(parse_source("int main(void) { int x = 1; { int x = 2; return x; } }")).unwrap();
    let items = &program.functions[0].body.as_ref().unwrap().0;
    match &items[1] {
        BlockItem::S(Statement::Compound(block)) => {
            assert!(matches!(&block.0[0], BlockItem::D(Declaration::VarDecl(v)) if v.name == "x.2"));
            assert!(matches!(&block.0[1], BlockItem::S(Statement::Return(Expression::Var(n))) if n == "x.2"));
        }
        other => panic!("unexpected item: {:?}", other),
    }
}

#[test]
fn resolution_errors() {
    assert!(matches!(
        try_resolve_identifiers(parse_source("int main(void) { int a; int a; return 0; }")),
        Err(ResolveError::DuplicateDeclaration(name)) if name == "a"
    ));
    assert!(matches!(
        try_resolve_identifiers(parse_source("int main(void) { return b; }")),
        Err(ResolveError::UndeclaredVariable(name)) if name == "b"
    ));
    assert!(matches!(
        try_resolve_identifiers(parse_source("int main(void) { return g(); }")),
        Err(ResolveError::UndeclaredFunction(name)) if name == "g"
    ));
    assert!(matches!(
        try_resolve_identifiers(parse_source("int main(void) { 2 = 3; return 0; }")),
        Err(ResolveError::InvalidLvalue(Expression::Constant(2)))
    ));
    assert!(matches!(
        try_resolve_identifiers(parse_source("int main(void) { int g(void) { return 1; } return 0; }")),
        Err(ResolveError::NestedFunctionDefinition(name)) if name == "g"
    ));
}

#[test]
fn type_checking_builds_the_symbol_table() {
    let symbols = try_check_types(&parse_source("int f(int a); int main(void) { int b = f(2); return b; }")).unwrap();
    assert_eq!(symbols.len(), 3);
    assert_eq!(*symbols.get("f").unwrap(), Symbol { kind: Type::FunType { param_count: 1 }, defined: false });
    assert_eq!(*symbols.get("main").unwrap(), Symbol { kind: Type::FunType { param_count: 0 }, defined: true });
    assert_eq!(*symbols.get("b").unwrap(), Symbol { kind: Type::Int, defined: false });
    assert!(symbols.get("a").is_none());
}

#[test]
fn type_checking_accepts_declaration_before_definition() {
    let symbols =
        try_check_types(&parse_source("int f(int a); int f(int a) { return a; } int main(void) { return f(1); }")).unwrap();
    assert_eq!(*symbols.get("f").unwrap(), Symbol { kind: Type::FunType { param_count: 1 }, defined: true });
    assert_eq!(*symbols.get("a").unwrap(), Symbol { kind: Type::Int, defined: false });
}

#[test]
fn type_error_incompatible_declaration() {
    match try_check_types(&parse_source("int f(int a); int f(void) { return 0; }")) {
        Err(TypeError::IncompatibleDeclaration { name, previous, declared }) => {
            assert_eq!(name, "f");
            assert_eq!(previous, Type::FunType { param_count: 1 });
            assert_eq!(declared, Type::FunType { param_count: 0 });
        }
        other => panic!("unexpected: {:?}", other.err()),
    }
}

#[test]
fn type_error_duplicate_definition() {
    assert!(matches!(
        try_check_types(&parse_source("int f(void) { return 0; } int f(void) { return 1; }")),
        Err(TypeError::DuplicateDefinition(name)) if name == "f"
    ));
}

#[test]
fn type_error_variable_used_as_function() {
    assert!(matches!(
        try_check_types(&parse_source("int main(void) { int a = 1; return a(); }")),
        Err(TypeError::VariableUsedAsFunction(name)) if name == "a"
    ));
}

#[test]
fn type_error_function_used_as_variable() {
    assert!(matches!(
        try_check_types(&parse_source("int f(void); int main(void) { return f; }")),
        Err(TypeError::FunctionUsedAsVariable(name)) if name == "f"
    ));
}

#[test]
fn type_error_wrong_argument_count() {
    assert!(matches!(
        try_check_types(&parse_source("int f(int a); int main(void) { return f(); }")),
        Err(TypeError::WrongArgumentCount(name)) if name == "f"
    ));
}

#[test]
fn type_error_undeclared_identifier() {
    assert!(matches!(
        try_check_types(&parse_source("int main(void) { return x; }")),
        Err(TypeError::UndeclaredIdentifier(name)) if name == "x"
    ));
}

#[test]
fn loops_get_distinct_labels_and_jumps_the_innermost() {
    let program = labeled(
        "int main(void) { while (1) { for (;;) { break; } continue; } do ; while (0); return 0; }",
    )
    .unwrap();
    let items = &program.functions[0].body.as_ref().unwrap().0;
    match &items[0] {
        LabeledBlockItem::S(LabeledStatement::While { body, label, .. }) => {
            assert_eq!(label, "loop.0");
            match &**body {
                LabeledStatement::Compound(block) => {
                    match &block.0[0] {
                        LabeledBlockItem::S(LabeledStatement::For { body, label, .. }) => {
                            assert_eq!(label, "loop.1");
                            match &**body {
                                LabeledStatement::Compound(inner) => assert!(matches!(
                                    &inner.0[0],
                                    LabeledBlockItem::S(LabeledStatement::Break(l)) if l == "loop.1"
                                )),
                                other => panic!("unexpected: {:?}", other),
                            }
                        }
                        other => panic!("unexpected: {:?}", other),
                    }
                    assert!(matches!(
                        &block.0[1],
                        LabeledBlockItem::S(LabeledStatement::Continue(l)) if l == "loop.0"
                    ));
                }
                other => panic!("unexpected: {:?}", other),
            }
        }
        other => panic!("unexpected: {:?}", other),
    }
    assert!(matches!(&items[1], LabeledBlockItem::S(LabeledStatement::DoWhile { label, .. }) if label == "loop.2"));
}

#[test]
fn loop_numbers_continue_across_functions() {
    let program = labeled("int f(void) { while (0) ; return 0; } int main(void) { while (0) ; return 0; }").unwrap();
    assert!(matches!(
        &program.functions[0].body.as_ref().unwrap().0[0],
        LabeledBlockItem::S(LabeledStatement::While { label, .. }) if label == "loop.0"
    ));
    assert!(matches!(
        &program.functions[1].body.as_ref().unwrap().0[0],
        LabeledBlockItem::S(LabeledStatement::While { label, .. }) if label == "loop.1"
    ));
}

#[test]
fn label_errors() {
    assert!(matches!(labeled("int main(void) { break; }"), Err(LabelError::BreakOutsideLoop)));
    assert!(matches!(labeled("int main(void) { if (1) continue; return 0; }"), Err(LabelError::ContinueOutsideLoop)));
}
