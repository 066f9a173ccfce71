use crust::lexer::lex;
use crust::parser::{self, BinaryOp as SourceBinaryOp, Expression};
use crust::semantic_analysis::loop_labeling::{
    LabeledBlock, LabeledBlockItem, LabeledDeclaration, LabeledFunctionDeclaration, LabeledProgram, LabeledStatement,
};
use crust::semantic_analysis::{try_label_loops, try_resolve_identifiers};
use crust::tacky::{try_translate_program, Instruction, Program, TackyError, Val};

fn tacky(source: &str) -> Program {
    let mut tokens = lex(source).unwrap();
    let program = parser::try_parse(&mut tokens).unwrap();
    try_translate_program(try_label_loops(try_resolve_identifiers(program).unwrap()).unwrap()).unwrap()
}

fn val(v: &Val) -> String {
    match v {
        Val::Constant(c) => format!("{c}"),
        Val::Var(name) => name.clone(),
    }
}

/// A compact rendering of a TACKY instruction.
fn show(i: &Instruction) -> String {
    match i {
        Instruction::Return(v) => format!("return {}", val(v)),
        Instruction::Unary { op, src, dst } => format!("{} = {:?} {}", val(dst), op, val(src)),
        Instruction::Binary { op, left, right, dst } => format!("{} = {} {:?} {}", val(dst), val(left), op, val(right)),
        Instruction::Copy { src, dst } => format!("{} = {}", val(dst), val(src)),
        Instruction::Jump { target } => format!("jump {target}"),
        Instruction::JumpIfZero { condition, target } => format!("jz {} {target}", val(condition)),
        Instruction::JumpIfNotZero { condition, target } => format!("jnz {} {target}", val(condition)),
        Instruction::Label(l) => format!("{l}:"),
        Instruction::FunCall { fun_name, args, dst } => {
            let args: Vec<String> = args.iter().map(val).collect();
            format!("{} = call {fun_name}({})", val(dst), args.join(", "))
        }
    }
}

fn body(program: &Program, index: usize) -> Vec<String> {
    program.functions[index].body.iter().map(show).collect()
}

#[test]
fn tacky_return_constant_ends_with_return_zero() {
    let program = tacky("int main(void) { return 2; }");
    assert_eq!(program.functions.len(), 1);
    assert_eq!(program.functions[0].identifier, "main");
    assert_eq!(body(&program, 0), vec!["return 2", "return 0"]);
}

#[test]
fn tacky_arithmetic_uses_numbered_temporaries() {
    let program = tacky("int main(void) { return 1 + 2 * -3; }");
    assert_eq!(
        body(&program, 0),
        vec!["tmp.2 = Negate 3", "tmp.1 = 2 Multiply tmp.2", "tmp.0 = 1 Add tmp.1", "return tmp.0", "return 0"]
    );
}

#[test]
fn tacky_short_circuit_and() {
    let program = tacky("int main(void) { return 1 && 0; }");
    assert_eq!(
        body(&program, 0),
        vec![
            "jz 1 and_false0",
            "jz 0 and_false0",
            "tmp.0 = 1",
            "jump and_end0",
            "and_false0:",
            "tmp.0 = 0",
            "and_end0:",
            "return tmp.0",
            "return 0",
        ]
    );
}

#[test]
fn tacky_short_circuit_or() {
    let program = tacky("int main(void) { return 0 || 1; }");
    assert_eq!(
        body(&program, 0),
        vec![
            "jnz 0 or_false0",
            "jnz 1 or_false0",
            "tmp.0 = 0",
            "jump or_end0",
            "or_false0:",
            "tmp.0 = 1",
            "or_end0:",
            "return tmp.0",
            "return 0",
        ]
    );
}

#[test]
fn tacky_if_else() {
    let program = tacky("int main(void) { int a = 0; if (a) a = 1; else a = 2; return a; }");
    assert_eq!(
        body(&program, 0),
        vec![
            "a.1 = 0",
            "jz a.1 if_else0",
            "a.1 = 1",
            "jump if_end0",
            "if_else0:",
            "a.1 = 2",
            "if_end0:",
            "return a.1",
            "return 0",
        ]
    );
}

#[test]
fn tacky_while_loop() {
    let program = tacky("int main(void) { int i = 0; while (i < 3) i = i + 1; return i; }");
    assert_eq!(
        body(&program, 0),
        vec![
            "i.1 = 0",
            "continue_loop.0:",
            "tmp.0 = i.1 LessThan 3",
            "jz tmp.0 break_loop.0",
            "tmp.1 = i.1 Add 1",
            "i.1 = tmp.1",
            "jump continue_loop.0",
            "break_loop.0:",
            "return i.1",
            "return 0",
        ]
    );
}

#[test]
fn tacky_do_while_and_for() {
    let program = tacky("int main(void) { do ; while (0); for (int i = 0; i; ) break; return 0; }");
    assert_eq!(
        body(&program, 0),
        vec![
            "start_loop.0:",
            "continue_loop.0:",
            "jnz 0 start_loop.0",
            "break_loop.0:",
            "i.1 = 0",
            "start_loop.1:",
            "jz i.1 break_loop.1",
            "jump break_loop.1",
            "continue_loop.1:",
            "jump start_loop.1",
            "break_loop.1:",
            "return 0",
            "return 0",
        ]
    );
}

#[test]
fn tacky_conditional_expression() {
    let program = tacky("int main(void) { return 1 ? 2 : 3; }");
    assert_eq!(
        body(&program, 0),
        vec![
            "jz 1 ternary_otherwise0",
            "tmp.0 = 2",
            "jump ternary_end0",
            "ternary_otherwise0:",
            "tmp.0 = 3",
            "ternary_end0:",
            "return tmp.0",
            "return 0",
        ]
    );
}

#[test]
fn tacky_calls_and_parameters() {
    let program = tacky("int f(int x); int f(int x) { return x; } int main(void) { return f(3); }");
    assert_eq!(program.functions.len(), 2);
    assert_eq!(program.functions[0].identifier, "f");
    assert_eq!(program.functions[0].params, vec!["x.2".to_string()]);
    assert_eq!(body(&program, 0), vec!["return x.2", "return 0"]);
    assert_eq!(body(&program, 1), vec!["tmp.0 = call f(3)", "return tmp.0", "return 0"]);
}

fn single_function(items: Vec<LabeledBlockItem>) -> LabeledProgram {
    LabeledProgram {
        functions: vec![LabeledFunctionDeclaration {
            name: "main".to_string(),
            params: vec![],
            body: Some(LabeledBlock(items)),
        }],
    }
}

#[test]
fn tacky_error_nested_function_definition() {
    let program = single_function(vec![LabeledBlockItem::D(LabeledDeclaration::LabeledFuncDecl(
        LabeledFunctionDeclaration { name: "g".to_string(), params: vec![], body: Some(LabeledBlock(vec![])) },
    ))]);
    assert!(matches!(try_translate_program(program), Err(TackyError::NestedFunctionDefinition)));
}

#[test]
fn tacky_local_function_declaration_translates_to_nothing() {
    let program = single_function(vec![LabeledBlockItem::D(LabeledDeclaration::LabeledFuncDecl(
        LabeledFunctionDeclaration { name: "g".to_string(), params: vec![], body: None },
    ))]);
    let translated = try_translate_program(program).unwrap();
    assert_eq!(body(&translated, 0), vec!["return 0"]);
}

#[test]
fn tacky_error_misplaced_operator() {
    let program = single_function(vec![LabeledBlockItem::S(LabeledStatement::Return(Expression::Binary {
        operator: SourceBinaryOp::Assignment,
        left_expression: Box::new(Expression::Constant(1)),
        right_expression: Box::new(Expression::Constant(2)),
    }))]);
    assert!(matches!(try_translate_program(program), Err(TackyError::MisplacedOperator)));
}

#[test]
fn tacky_computes_each_value_into_a_new_temporary() {
    let program = tacky(
        "int f(int a, int b); int main(void) { int x = 1; return (x && 2) + f(-x, x ? 3 : 4) * ~x; }",
    );
    let main = &program.functions[0];
    assert_eq!(main.identifier, "main");
    let computed: Vec<String> = main
        .body
        .iter()
        .filter_map(|i| match i {
            Instruction::Unary { dst, .. } | Instruction::Binary { dst, .. } | Instruction::FunCall { dst, .. } => {
                Some(val(dst))
            }
            _ => None,
        })
        .collect();
    assert_eq!(computed.len(), 5);
    for (k, name) in computed.iter().enumerate() {
        assert!(name.starts_with("tmp."), "{name}");
        assert!(!computed[k + 1..].contains(name), "{name} is computed twice");
    }
    let numbers: Vec<i32> = computed.iter().map(|n| n["tmp.".len()..].parse().unwrap()).collect();
    assert!(numbers.iter().all(|&n| (0..7).contains(&n)), "{numbers:?}");
}
