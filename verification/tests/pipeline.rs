use crust::assembly::generate::generate;
use crust::code_emission::emit;
use crust::lexer::lex;
use crust::parser::{parse, try_parse};
use crust::semantic_analysis::{
    check_types, label_loops, resolve_identifiers, try_check_types, try_label_loops, try_resolve_identifiers,
};
use crust::tacky::{translate_program, try_translate_program};

/// Every pass in the order of the compiler driver, from source text to
/// assembly text.
fn compile(source: &str) -> String {
    let mut tokens = lex(source).unwrap();
    let ast = try_parse(&mut tokens).unwrap();
    let ast = try_resolve_identifiers(ast).unwrap();
    try_check_types(&ast).unwrap();
    let ast = try_label_loops(ast).unwrap();
    let ir = try_translate_program(ast).unwrap();
    emit(generate(ir).unwrap())
}

#[test]
fn compile_return_two() {
    assert_eq!(
        compile("int main(void) {\n    return 2;\n}\n"),
        "    .globl main\n  main:\n    pushq   %rbp\n    movq    %rsp, %rbp\n    subq    $0, %rsp\n    movl    $2, %eax\n    movq    %rbp, %rsp\n    popq    %rbp\n    ret\n    movl    $0, %eax\n    movq    %rbp, %rsp\n    popq    %rbp\n    ret\n\n    .section .note.GNU-stack,\"\",@progbits"
    );
}

#[test]
fn compile_negation_through_the_stack() {
    assert_eq!(
        compile("int main(void) { return -3; }"),
        "    .globl main\n  main:\n    pushq   %rbp\n    movq    %rsp, %rbp\n    subq    $4, %rsp\n    movl    $3, -4(%rbp)\n    negl    -4(%rbp)\n    movl    -4(%rbp), %eax\n    movq    %rbp, %rsp\n    popq    %rbp\n    ret\n    movl    $0, %eax\n    movq    %rbp, %rsp\n    popq    %rbp\n    ret\n\n    .section .note.GNU-stack,\"\",@progbits"
    );
}

#[test]
fn compile_loop_with_call() {
    let text = compile(
        "int inc(int x) { return x + 1; }\n\
         int main(void) { int s = 0; for (int i = 0; i < 10; i = i + 1) { if (i % 2 == 0) continue; s = inc(s); } return s; }",
    );
    assert!(text.starts_with("    .globl inc\n  inc:\n"));
    assert!(text.contains("    .globl main\n  main:\n"));
    assert!(text.contains("    call inc@PLT\n"));
    assert!(text.contains("    .Lstart_loop.0:\n"));
    assert!(text.contains("    jmp    .Lcontinue_loop.0\n"));
    assert!(text.contains("    idivl    "));
    assert!(!text.contains("Pseudo"));
    assert!(text.ends_with("    .section .note.GNU-stack,\"\",@progbits"));
}

#[test]
fn passes_that_assume_valid_input_agree_with_the_checked_ones() {
    let source = "int f(int a); int main(void) { int s = 0; while (s < 3) s = s + 1; return f(s); }";
    let debug = |value: &dyn std::fmt::Debug| format!("{:?}", value);

    let ast = parse(&mut lex(source).unwrap());
    let checked_ast = try_parse(&mut lex(source).unwrap()).unwrap();
    assert_eq!(debug(&ast), debug(&checked_ast));

    let resolved = resolve_identifiers(ast);
    let checked_resolved = try_resolve_identifiers(checked_ast).unwrap();
    assert_eq!(debug(&resolved), debug(&checked_resolved));

    let symbols = check_types(&resolved);
    let checked_symbols = try_check_types(&checked_resolved).unwrap();
    assert_eq!(symbols.len(), checked_symbols.len());
    for name in ["f", "main", "a.0", "s.1"] {
        assert_eq!(symbols.get(name), checked_symbols.get(name), "{name}");
    }

    let labeled = label_loops(resolved);
    let checked_labeled = try_label_loops(checked_resolved).unwrap();
    assert_eq!(debug(&labeled), debug(&checked_labeled));

    let ir = translate_program(labeled);
    let checked_ir = try_translate_program(checked_labeled).unwrap();
    assert_eq!(debug(&ir), debug(&checked_ir));
    assert!(!emit(generate(ir).unwrap()).contains("Pseudo"));
}
