use teeny::error::CompileError;
use teeny::lex::Lexer;
use teeny::token::{Token, TokenType};

fn kinds_and_texts(src: &str) -> Vec<(TokenType, String)> {
    let mut lx = Lexer::new(&String::from(src));
    let mut out = Vec::new();
    loop {
        let t = lx.get_token().expect("lexing should succeed");
        let done = t.kind == TokenType::Eof;
        out.push((t.kind, t.text));
        if done {
            break;
        }
    }
    out
}

#[test]
fn single_character_operators_lex() {
    let toks = kinds_and_texts("+-*/");
    let kinds: Vec<TokenType> = toks.iter().map(|t| t.0).collect();
    assert_eq!(
        kinds,
        vec![
            TokenType::Plus,
            TokenType::Minus,
            TokenType::Asterisk,
            TokenType::Slash,
            TokenType::Newline,
            TokenType::Eof
        ]
    );
    assert_eq!(toks[0].1, "+");
}

#[test]
fn two_character_operators_need_lookahead() {
    let toks = kinds_and_texts("= == > >= < <= !=");
    let kinds: Vec<TokenType> = toks.iter().map(|t| t.0).collect();
    assert_eq!(
        kinds,
        vec![
            TokenType::Assign,
            TokenType::EqEq,
            TokenType::Gt,
            TokenType::GtEq,
            TokenType::Lt,
            TokenType::LtEq,
            TokenType::NotEq,
            TokenType::Newline,
            TokenType::Eof
        ]
    );
    assert_eq!(toks[1].1, "==");
    assert_eq!(toks[6].1, "!=");
}

#[test]
fn bang_alone_is_a_lexical_error() {
    let mut lx = Lexer::new(&String::from("!x"));
    assert_eq!(lx.get_token().unwrap_err(), CompileError::ExclamationWithoutEq('x'));
}

#[test]
fn string_lexeme_excludes_quotes() {
    let toks = kinds_and_texts("\"hello world\"");
    assert_eq!(toks[0], (TokenType::StringLit, String::from("hello world")));
}

#[test]
fn percent_inside_string_is_illegal() {
    let mut lx = Lexer::new(&String::from("\"a%b\""));
    assert_eq!(lx.get_token().unwrap_err(), CompileError::IllegalStringChar);
}

#[test]
fn backslash_inside_string_is_illegal() {
    let mut lx = Lexer::new(&String::from("\"a\\b\""));
    assert_eq!(lx.get_token().unwrap_err(), CompileError::IllegalStringChar);
}

#[test]
fn unterminated_string_hits_the_newline() {
    let mut lx = Lexer::new(&String::from("\"abc"));
    assert_eq!(lx.get_token().unwrap_err(), CompileError::IllegalStringChar);
}

#[test]
fn integer_and_decimal_numbers_lex_verbatim() {
    let toks = kinds_and_texts("9 123.456 007");
    assert_eq!(toks[0], (TokenType::Number, String::from("9")));
    assert_eq!(toks[1], (TokenType::Number, String::from("123.456")));
    assert_eq!(toks[2], (TokenType::Number, String::from("007")));
}

#[test]
fn bare_trailing_dot_is_illegal() {
    let mut lx = Lexer::new(&String::from("1."));
    assert_eq!(lx.get_token().unwrap_err(), CompileError::IllegalNumberChar);
}

#[test]
fn identifiers_and_keywords_are_distinguished() {
    let toks = kinds_and_texts("LET letx WHILE while9");
    assert_eq!(toks[0], (TokenType::Let, String::from("LET")));
    assert_eq!(toks[1], (TokenType::Ident, String::from("letx")));
    assert_eq!(toks[2], (TokenType::While, String::from("WHILE")));
    assert_eq!(toks[3], (TokenType::Ident, String::from("while9")));
}

#[test]
fn unknown_character_is_reported() {
    let mut lx = Lexer::new(&String::from("?"));
    assert_eq!(lx.get_token().unwrap_err(), CompileError::UnknownChar('?'));
}

#[test]
fn comment_runs_to_but_not_including_newline() {
    let toks = kinds_and_texts("# all of this vanishes\nPRINT");
    let kinds: Vec<TokenType> = toks.iter().map(|t| t.0).collect();
    assert_eq!(
        kinds,
        vec![TokenType::Newline, TokenType::Print, TokenType::Newline, TokenType::Eof]
    );
}

#[test]
fn eof_token_repeats_forever() {
    let mut lx = Lexer::new(&String::from(""));
    assert_eq!(lx.get_token().unwrap().kind, TokenType::Newline);
    assert_eq!(lx.get_token().unwrap().kind, TokenType::Eof);
    assert_eq!(lx.get_token().unwrap().kind, TokenType::Eof);
    assert_eq!(lx.get_token().unwrap().kind, TokenType::Eof);
}

#[test]
fn peek_sees_one_character_ahead() {
    let lx = Lexer::new(&String::from("ab"));
    assert_eq!(lx.cur_char, 'a');
    assert_eq!(lx.peek(), 'b');
}

#[test]
fn next_char_advances_and_saturates() {
    let mut lx = Lexer::new(&String::from("a"));
    assert_eq!(lx.cur_char, 'a');
    lx.next_char();
    assert_eq!(lx.cur_char, '\n');
    lx.next_char();
    assert_eq!(lx.cur_char, '\0');
    lx.next_char();
    assert_eq!(lx.cur_char, '\0');
}

#[test]
fn carriage_return_and_tab_are_whitespace() {
    let toks = kinds_and_texts("\r\tPRINT\r");
    let kinds: Vec<TokenType> = toks.iter().map(|t| t.0).collect();
    assert_eq!(kinds, vec![TokenType::Print, TokenType::Newline, TokenType::Eof]);
}

#[test]
fn keyword_table_is_exact_and_case_sensitive() {
    assert_eq!(Token::check_if_keyword("LABEL"), TokenType::Label);
    assert_eq!(Token::check_if_keyword("GOTO"), TokenType::Goto);
    assert_eq!(Token::check_if_keyword("PRINT"), TokenType::Print);
    assert_eq!(Token::check_if_keyword("PRINTLN"), TokenType::PrintLn);
    assert_eq!(Token::check_if_keyword("INPUT"), TokenType::Input);
    assert_eq!(Token::check_if_keyword("LET"), TokenType::Let);
    assert_eq!(Token::check_if_keyword("IF"), TokenType::If);
    assert_eq!(Token::check_if_keyword("THEN"), TokenType::Then);
    assert_eq!(Token::check_if_keyword("ENDIF"), TokenType::EndIf);
    assert_eq!(Token::check_if_keyword("WHILE"), TokenType::While);
    assert_eq!(Token::check_if_keyword("REPEAT"), TokenType::Repeat);
    assert_eq!(Token::check_if_keyword("ENDWHILE"), TokenType::EndWhile);
    assert_eq!(Token::check_if_keyword("label"), TokenType::Unknown);
    assert_eq!(Token::check_if_keyword("PRINTLNX"), TokenType::Unknown);
    assert_eq!(Token::check_if_keyword(""), TokenType::Unknown);
}

#[test]
fn token_new_copies_text_and_kind() {
    let t = Token::new(&String::from("42"), TokenType::Number);
    assert_eq!(t.text, "42");
    assert_eq!(t.kind, TokenType::Number);
}
