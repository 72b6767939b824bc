use teeny::cemitter::CEmitter;
use teeny::emit::Emitter;
use teeny::token::TokenType;

#[test]
fn emitter_keeps_header_before_body() {
    let mut em = Emitter::new();
    em.emit("a");
    em.header_line("H");
    em.emit_line("b");
    assert_eq!(em.output(), "H\nab\n");
}

#[test]
fn emitter_appends_in_order_without_reordering() {
    let mut em = Emitter::new();
    em.emit("one");
    em.emit("two");
    em.emit_line("three");
    em.emit("four");
    assert_eq!(em.output(), "onetwothree\nfour");
}

#[test]
fn fresh_emitter_outputs_nothing() {
    let em = Emitter::new();
    assert_eq!(em.output(), "");
}

#[test]
fn cemitter_begin_and_end_wrap_the_program() {
    let mut em = CEmitter::new();
    em.begin();
    em.emit_val("x;");
    em.end();
    assert_eq!(em.output(), "#include <stdio.h>\n\nint main(void) {\nx;return 0;\n}\n");
}

#[test]
fn cemitter_operator_table_spells_every_operator() {
    let mut em = CEmitter::new();
    em.emit_op(TokenType::Assign);
    em.emit_op(TokenType::EqEq);
    em.emit_op(TokenType::NotEq);
    em.emit_op(TokenType::Gt);
    em.emit_op(TokenType::GtEq);
    em.emit_op(TokenType::Lt);
    em.emit_op(TokenType::LtEq);
    em.emit_op(TokenType::Plus);
    em.emit_op(TokenType::Minus);
    em.emit_op(TokenType::Asterisk);
    em.emit_op(TokenType::Slash);
    assert_eq!(em.output(), "===!=>>=<<=+-*/");
}

#[test]
fn cemitter_non_operator_kind_emits_nothing() {
    let mut em = CEmitter::new();
    em.emit_op(TokenType::Print);
    assert_eq!(em.output(), "");
}

#[test]
fn cemitter_header_lines_precede_code() {
    let mut em = CEmitter::new();
    em.emit_line("body");
    em.header_line("decl");
    assert_eq!(em.output(), "decl\nbody\n");
}
