use teeny::error::CompileError;
use teeny::parse::translate;
use teeny::token::TokenType;

fn ok(src: &str) -> String {
    translate(&String::from(src)).expect("translation should succeed")
}

fn err(src: &str) -> CompileError {
    translate(&String::from(src)).expect_err("translation should fail")
}

#[test]
fn empty_program_emits_skeleton() {
    assert_eq!(ok(""), "#include <stdio.h>\nint main(void) {\nreturn 0;\n}\n");
}

#[test]
fn backward_jump_to_declared_label_succeeds() {
    let out = ok("LABEL start\nPRINT \"hi\"\nGOTO start\n");
    assert_eq!(
        out,
        "#include <stdio.h>\nint main(void) {\nstart:\nprintf(\"hi\");\ngoto start;\nreturn 0;\n}\n"
    );
    assert!(out.contains("start:\n"));
    assert!(out.contains("printf(\"hi\");"));
    assert!(out.contains("goto start;"));
}

#[test]
fn precedence_is_structural_not_parenthesized() {
    let out = ok("PRINT 1 + 2 * 3\n");
    assert_eq!(
        out,
        "#include <stdio.h>\nint main(void) {\nprintf(\"%.2f\", (float)(1+2*3));\nreturn 0;\n}\n"
    );
}

#[test]
fn missing_then_is_a_syntax_error() {
    assert_eq!(
        err("IF 1 > 2\nPRINT \"x\"\nENDIF\n"),
        CompileError::Expected { expected: TokenType::Then, got: TokenType::Newline }
    );
}

#[test]
fn undeclared_variable_is_a_semantic_error_naming_it() {
    assert_eq!(
        err("LET x = 1\nPRINT y\n"),
        CompileError::UndeclaredVariable(String::from("y"))
    );
}

#[test]
fn undeclared_goto_target_fails_after_full_parse() {
    assert_eq!(
        err("GOTO missing\n"),
        CompileError::UndeclaredLabel(String::from("missing"))
    );
}

#[test]
fn translation_is_deterministic() {
    let src = String::from("LET n = 3\nWHILE n > 0 REPEAT\nPRINT n\nLET n = n - 1\nENDWHILE\n");
    let a = translate(&src).unwrap();
    let b = translate(&src).unwrap();
    assert_eq!(a, b);
}

#[test]
fn while_loop_emits_c_while_block() {
    let out = ok("LET n = 3\nWHILE n > 0 REPEAT\nPRINT n\nLET n = n - 1\nENDWHILE\n");
    assert_eq!(
        out,
        "#include <stdio.h>\nint main(void) {\nfloat n;\nn = 3;\nwhile (n>0) {\nprintf(\"%.2f\", (float)(n));\nn = n-1;\n}\nreturn 0;\n}\n"
    );
}

#[test]
fn nested_if_blocks_nest_braces() {
    let out = ok("IF 1 > 2 THEN\nIF 3 > 2 THEN\nPRINT \"x\"\nENDIF\nENDIF\n");
    assert_eq!(
        out,
        "#include <stdio.h>\nint main(void) {\nif (1>2) {\nif (3>2) {\nprintf(\"x\");\n}\n}\nreturn 0;\n}\n"
    );
}

#[test]
fn input_emits_guarded_scanf_and_declares_variable() {
    let out = ok("INPUT x\nPRINTLN x\n");
    assert_eq!(
        out,
        "#include <stdio.h>\nint main(void) {\nfloat x;\nif (0 == scanf(\"%f\", &x)) {\nx = 0;\nscanf(\"%*s\");\n}\nprintf(\"%.2f\\n\", (float)(x));\nreturn 0;\n}\n"
    );
}

#[test]
fn println_string_appends_line_break_in_format() {
    let out = ok("PRINTLN \"hi\"\n");
    assert!(out.contains("printf(\"hi\\n\");"));
}

#[test]
fn print_string_has_no_line_break_in_format() {
    let out = ok("PRINT \"hi\"\n");
    assert!(out.contains("printf(\"hi\");"));
    assert!(!out.contains("hi\\n"));
}

#[test]
fn numeric_lexeme_survives_verbatim() {
    let out = ok("LET x = 1.50\nPRINT x + 007\n");
    assert!(out.contains("x = 1.50;"));
    assert!(out.contains("(float)(x+007)"));
}

#[test]
fn let_declares_each_variable_once() {
    let out = ok("LET x = 1\nLET x = 2\nLET y = 3\n");
    assert_eq!(out.matches("float x;").count(), 1);
    assert_eq!(out.matches("float y;").count(), 1);
    assert!(out.contains("x = 1;\nx = 2;\ny = 3;"));
}

#[test]
fn forward_jump_is_legal() {
    let out = ok("GOTO end\nLABEL end\n");
    assert!(out.contains("goto end;\nend:\n"));
}

#[test]
fn first_missing_target_in_first_goto_order_is_reported() {
    assert_eq!(
        err("GOTO b\nGOTO a\n"),
        CompileError::UndeclaredLabel(String::from("b"))
    );
}

#[test]
fn duplicate_label_is_a_semantic_error() {
    assert_eq!(
        err("LABEL a\nPRINT 1\nLABEL a\n"),
        CompileError::DuplicateLabel(String::from("a"))
    );
}

#[test]
fn label_declared_once_and_jumped_twice_succeeds() {
    let out = ok("LABEL a\nGOTO a\nGOTO a\n");
    assert_eq!(out.matches("goto a;").count(), 2);
}

#[test]
fn condition_without_comparison_operator_is_rejected() {
    assert_eq!(
        err("IF 1 THEN\nPRINT 1\nENDIF\n"),
        CompileError::ExpectedComparisonOperator(String::from("THEN"))
    );
}

#[test]
fn statement_cannot_start_with_endif() {
    assert_eq!(err("ENDIF\n"), CompileError::InvalidStatement(TokenType::EndIf));
}

#[test]
fn label_target_must_be_an_identifier() {
    assert_eq!(
        err("LABEL 5\n"),
        CompileError::Expected { expected: TokenType::Ident, got: TokenType::Number }
    );
}

#[test]
fn unary_sign_passes_through() {
    let out = ok("PRINT -5\n");
    assert!(out.contains("(float)(-5)"));
}

#[test]
fn comparison_operators_pass_through_verbatim() {
    let out = ok("LET a = 1\nIF a >= 1 THEN\nPRINT a\nENDIF\nIF a != 2 THEN\nPRINT a\nENDIF\n");
    assert!(out.contains("if (a>=1) {"));
    assert!(out.contains("if (a!=2) {"));
}

#[test]
fn chained_comparison_is_accepted() {
    let out = ok("IF 1 < 2 == 3 THEN\nPRINT 1\nENDIF\n");
    assert!(out.contains("if (1<2==3) {"));
}

#[test]
fn blank_lines_are_skipped() {
    let out = ok("\n\nPRINT 1\n\n\nPRINT 2\n");
    assert!(out.contains("printf(\"%.2f\", (float)(1));\nprintf(\"%.2f\", (float)(2));"));
}

#[test]
fn comments_are_ignored_to_end_of_line() {
    let out = ok("# leading comment\nPRINT 1 # trailing comment\nPRINT 2\n");
    assert!(out.contains("(float)(1)"));
    assert!(out.contains("(float)(2)"));
    assert!(!out.contains("comment"));
}

#[test]
fn spaces_and_tabs_between_tokens_are_skipped() {
    let out = ok("PRINT  \t 1  +\t2\n");
    assert!(out.contains("(float)(1+2)"));
}

#[test]
fn input_declares_variable_for_later_use() {
    let out = ok("INPUT x\nPRINT x\n");
    assert_eq!(out.matches("float x;").count(), 1);
}

#[test]
fn variable_use_before_any_declaration_fails() {
    assert_eq!(err("PRINT y\n"), CompileError::UndeclaredVariable(String::from("y")));
}

#[test]
fn division_and_addition_keep_source_order() {
    let out = ok("PRINT 8 / 2 + 1\n");
    assert!(out.contains("(float)(8/2+1)"));
}

#[test]
fn no_output_shape_changes_on_error() {
    assert!(translate(&String::from("GOTO missing\n")).is_err());
    assert!(translate(&String::from("PRINT \"ok\"\n")).is_ok());
}

#[test]
fn declaration_after_use_does_not_help() {
    assert_eq!(
        err("PRINT y\nLET y = 1\n"),
        CompileError::UndeclaredVariable(String::from("y"))
    );
}

#[test]
fn expression_cannot_start_with_an_operator() {
    assert_eq!(
        err("LET x = *\n"),
        CompileError::UnexpectedPrimary(String::from("*"))
    );
}
