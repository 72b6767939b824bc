use teeny::emit::Emitter;
use teeny::error::CompileError;
use teeny::lex::Lexer;
use teeny::parse::{translate, Parser};

#[test]
fn parser_drives_lexer_and_emitter_to_the_same_output_as_translate() {
    let src = String::from("LET x = 2\nPRINT x * 3\n");
    let lexer = Lexer::new(&src);
    let emitter = Emitter::new();
    let mut parser = Parser::new(lexer, emitter).expect("lookahead should fill");
    parser.program().expect("program should parse");
    assert_eq!(parser.output(), translate(&src).unwrap());
}

#[test]
fn parser_construction_fails_on_a_lexical_fault_in_the_lookahead() {
    let lexer = Lexer::new(&String::from("?"));
    let emitter = Emitter::new();
    match Parser::new(lexer, emitter) {
        Err(CompileError::UnknownChar(c)) => assert_eq!(c, '?'),
        _ => panic!("expected the unknown-character fault"),
    }
}

#[test]
fn lexical_fault_two_tokens_ahead_surfaces_through_the_lookahead() {
    // The parser pulls tokens on demand; the fault sits after two good
    // tokens and aborts the statement that pulls it.
    let r = translate(&String::from("PRINT 1 ?\n"));
    assert_eq!(r.unwrap_err(), CompileError::UnknownChar('?'));
}

#[test]
fn program_output_is_header_then_body() {
    let out = translate(&String::from("LET a = 1\n")).unwrap();
    let header_end = out.find("int main(void) {\n").unwrap();
    let decl = out.find("float a;").unwrap();
    let assign = out.find("a = 1;").unwrap();
    assert!(header_end < decl);
    assert!(decl < assign);
}
