//! The token model: the closed set of lexical categories and the runtime
//! representation of a single token (its category and its exact lexeme).

use vstd::prelude::*;
use vstd::string::*;

verus! {

/// The lexical category of a token. The set is closed and partitioned into
/// end markers (`Unknown`, `Eof`), atomic lexemes, keywords, and operators.
/// Equality is by logical identity of the category.
#[derive(Clone, Copy, PartialEq, Eq, Structural, Debug)]
pub enum TokenType {
    Unknown,
    Eof,
    Newline,
    Number,
    Ident,
    StringLit,
    // Keywords
    Label,
    Goto,
    Print,
    PrintLn,
    Input,
    Let,
    If,
    Then,
    EndIf,
    While,
    Repeat,
    EndWhile,
    // Operators
    Assign,
    Plus,
    Minus,
    Asterisk,
    Slash,
    EqEq,
    NotEq,
    Lt,
    LtEq,
    Gt,
    GtEq,
}

/// The mathematical value of a token: its category and its lexeme as a
/// sequence of characters.
pub ghost struct TokView {
    pub text: Seq<char>,
    pub kind: TokenType,
}

/// A single token: the exact lexeme captured from the source and its
/// category. Tokens are produced once and never mutated.
#[derive(Debug)]
pub struct Token {
    pub text: String,
    pub kind: TokenType,
}

impl View for Token {
    type V = TokView;

    open spec fn view(&self) -> TokView {
        TokView { text: self.text@, kind: self.kind }
    }
}

/// The fixed mapping from reserved-word text to keyword category;
/// any other text maps to `Unknown`.
pub open spec fn keyword_kind(text: Seq<char>) -> TokenType {
    if text == "LABEL"@ {
        TokenType::Label
    } else if text == "GOTO"@ {
        TokenType::Goto
    } else if text == "PRINT"@ {
        TokenType::Print
    } else if text == "PRINTLN"@ {
        TokenType::PrintLn
    } else if text == "INPUT"@ {
        TokenType::Input
    } else if text == "LET"@ {
        TokenType::Let
    } else if text == "IF"@ {
        TokenType::If
    } else if text == "THEN"@ {
        TokenType::Then
    } else if text == "ENDIF"@ {
        TokenType::EndIf
    } else if text == "WHILE"@ {
        TokenType::While
    } else if text == "REPEAT"@ {
        TokenType::Repeat
    } else if text == "ENDWHILE"@ {
        TokenType::EndWhile
    } else {
        TokenType::Unknown
    }
}

/// Character-by-character string equality, verified against the views.
pub fn str_eq(a: &str, b: &str) -> (r: bool)
    ensures
        r == (a@ == b@),
{
    let la = a.unicode_len();
    let lb = b.unicode_len();
    if la != lb {
        proof {
            assert(a@ != b@);
        }
        return false;
    }
    let mut i: usize = 0;
    while i < la
        invariant
            i <= la,
            la == a@.len(),
            lb == b@.len(),
            la == lb,
            forall|j: int| 0 <= j < i ==> a@[j] == b@[j],
        decreases la - i,
    {
        if a.get_char(i) != b.get_char(i) {
            return false;
        }
        i += 1;
    }
    proof {
        assert(a@ =~= b@);
    }
    true
}

impl Token {
    /// Create a new token with the given lexeme text and category.
    pub fn new(token_text: &String, kind: TokenType) -> (t: Token)
        ensures
            t@ == (TokView { text: token_text@, kind }),
    {
        Token { text: token_text.clone(), kind }
    }

    /// Return the keyword category of the given text, or `Unknown` when the
    /// text is not a reserved word. The match is exact and case-sensitive.
    pub fn check_if_keyword(token_text: &str) -> (k: TokenType)
        ensures
            k == keyword_kind(token_text@),
    {
        if str_eq(token_text, "LABEL") {
            TokenType::Label
        } else if str_eq(token_text, "GOTO") {
            TokenType::Goto
        } else if str_eq(token_text, "PRINT") {
            TokenType::Print
        } else if str_eq(token_text, "PRINTLN") {
            TokenType::PrintLn
        } else if str_eq(token_text, "INPUT") {
            TokenType::Input
        } else if str_eq(token_text, "LET") {
            TokenType::Let
        } else if str_eq(token_text, "IF") {
            TokenType::If
        } else if str_eq(token_text, "THEN") {
            TokenType::Then
        } else if str_eq(token_text, "ENDIF") {
            TokenType::EndIf
        } else if str_eq(token_text, "WHILE") {
            TokenType::While
        } else if str_eq(token_text, "REPEAT") {
            TokenType::Repeat
        } else if str_eq(token_text, "ENDWHILE") {
            TokenType::EndWhile
        } else {
            TokenType::Unknown
        }
    }
}

} // verus!
