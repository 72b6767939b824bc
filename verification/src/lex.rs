//! The character-level lexer. `next_token_spec` defines tokenization
//! mathematically over the character sequence; the `Lexer` type walks the
//! source one character at a time and is proved to produce exactly the
//! tokens of that definition.
//!
//! The source always carries one appended trailing newline, so the final
//! statement is newline-terminated and no end-of-input special case exists
//! in the grammar. Repeated calls past end-of-input return the end-of-input
//! token forever.

use vstd::prelude::*;
use vstd::string::*;
use crate::token::{Token, TokenType, TokView, keyword_kind};
use crate::error::{CompileError, ErrView};

verus! {

/// The character at position `i`, or the NUL sentinel past either end.
pub open spec fn char_at(s: Seq<char>, i: int) -> char {
    if 0 <= i < s.len() {
        s[i]
    } else {
        '\0'
    }
}

/// Whitespace skipped before every token: space, tab, carriage return —
/// never the newline, which is a token of its own.
pub open spec fn is_space(c: char) -> bool {
    c == ' ' || c == '\t' || c == '\r'
}

pub open spec fn is_digit_char(c: char) -> bool {
    ('0' as u32) <= (c as u32) && (c as u32) <= ('9' as u32)
}

pub open spec fn is_alpha_char(c: char) -> bool {
    (('a' as u32) <= (c as u32) && (c as u32) <= ('z' as u32)) || (('A' as u32) <= (c as u32)
        && (c as u32) <= ('Z' as u32))
}

pub open spec fn is_alnum_char(c: char) -> bool {
    is_alpha_char(c) || is_digit_char(c)
}

/// Characters that may not appear inside a string literal: the emitted
/// target text uses C format strings, so these are reserved.
pub open spec fn is_illegal_in_string(c: char) -> bool {
    c == '\r' || c == '\n' || c == '\t' || c == '\\' || c == '%'
}

/// First position at or after `i` whose character is not space/tab/CR.
pub open spec fn skip_ws_spec(s: Seq<char>, i: int) -> int
    decreases s.len() - i,
{
    if 0 <= i < s.len() && is_space(s[i]) {
        skip_ws_spec(s, i + 1)
    } else {
        i
    }
}

/// First position at or after `i` holding a newline (or the end).
pub open spec fn skip_to_newline(s: Seq<char>, i: int) -> int
    decreases s.len() - i,
{
    if 0 <= i < s.len() && s[i] != '\n' {
        skip_to_newline(s, i + 1)
    } else {
        i
    }
}

/// A comment runs from `#` up to, but not including, the next newline, so
/// the newline still terminates the statement normally.
pub open spec fn skip_comment_spec(s: Seq<char>, i: int) -> int {
    if char_at(s, i) == '#' {
        skip_to_newline(s, i)
    } else {
        i
    }
}

/// First position at or after `i` whose character is not a digit.
pub open spec fn scan_digits(s: Seq<char>, i: int) -> int
    decreases s.len() - i,
{
    if 0 <= i < s.len() && is_digit_char(s[i]) {
        scan_digits(s, i + 1)
    } else {
        i
    }
}

/// First position at or after `i` whose character is not a letter or digit.
pub open spec fn scan_alnum(s: Seq<char>, i: int) -> int
    decreases s.len() - i,
{
    if 0 <= i < s.len() && is_alnum_char(s[i]) {
        scan_alnum(s, i + 1)
    } else {
        i
    }
}

/// Position of the closing quote of a string literal whose contents start
/// at `i`, or `None` when an illegal character intervenes or the literal is
/// unterminated.
pub open spec fn scan_string_end(s: Seq<char>, i: int) -> Option<int>
    decreases s.len() - i,
{
    if !(0 <= i < s.len()) {
        None
    } else if s[i] == '"' {
        Some(i)
    } else if is_illegal_in_string(s[i]) {
        None
    } else {
        scan_string_end(s, i + 1)
    }
}

/// What one call to `Lexer::get_token` produces from position `start`:
/// either exactly one token together with the position of the character
/// after it, or a lexical error.
pub open spec fn next_token_spec(s: Seq<char>, start: int) -> Result<(TokView, int), ErrView> {
    let i = skip_comment_spec(s, skip_ws_spec(s, start));
    let c = char_at(s, i);
    if c == '+' {
        Ok((TokView { text: s.subrange(i, i + 1), kind: TokenType::Plus }, i + 1))
    } else if c == '-' {
        Ok((TokView { text: s.subrange(i, i + 1), kind: TokenType::Minus }, i + 1))
    } else if c == '*' {
        Ok((TokView { text: s.subrange(i, i + 1), kind: TokenType::Asterisk }, i + 1))
    } else if c == '/' {
        Ok((TokView { text: s.subrange(i, i + 1), kind: TokenType::Slash }, i + 1))
    } else if c == '=' {
        if char_at(s, i + 1) == '=' {
            Ok((TokView { text: s.subrange(i, i + 2), kind: TokenType::EqEq }, i + 2))
        } else {
            Ok((TokView { text: s.subrange(i, i + 1), kind: TokenType::Assign }, i + 1))
        }
    } else if c == '>' {
        if char_at(s, i + 1) == '=' {
            Ok((TokView { text: s.subrange(i, i + 2), kind: TokenType::GtEq }, i + 2))
        } else {
            Ok((TokView { text: s.subrange(i, i + 1), kind: TokenType::Gt }, i + 1))
        }
    } else if c == '<' {
        if char_at(s, i + 1) == '=' {
            Ok((TokView { text: s.subrange(i, i + 2), kind: TokenType::LtEq }, i + 2))
        } else {
            Ok((TokView { text: s.subrange(i, i + 1), kind: TokenType::Lt }, i + 1))
        }
    } else if c == '!' {
        if char_at(s, i + 1) == '=' {
            Ok((TokView { text: s.subrange(i, i + 2), kind: TokenType::NotEq }, i + 2))
        } else {
            Err(ErrView::ExclamationWithoutEq(char_at(s, i + 1)))
        }
    } else if c == '"' {
        match scan_string_end(s, i + 1) {
            Some(q) => Ok(
                (TokView { text: s.subrange(i + 1, q), kind: TokenType::StringLit }, q + 1),
            ),
            None => Err(ErrView::IllegalStringChar),
        }
    } else if is_digit_char(c) {
        let d = scan_digits(s, i);
        if char_at(s, d) == '.' {
            if !is_digit_char(char_at(s, d + 1)) {
                Err(ErrView::IllegalNumberChar)
            } else {
                let d2 = scan_digits(s, d + 1);
                Ok((TokView { text: s.subrange(i, d2), kind: TokenType::Number }, d2))
            }
        } else {
            Ok((TokView { text: s.subrange(i, d), kind: TokenType::Number }, d))
        }
    } else if is_alpha_char(c) {
        let a = scan_alnum(s, i);
        let text = s.subrange(i, a);
        let kw = keyword_kind(text);
        let kind = if kw == TokenType::Unknown {
            TokenType::Ident
        } else {
            kw
        };
        Ok((TokView { text, kind }, a))
    } else if c == '\n' {
        Ok((TokView { text: s.subrange(i, i + 1), kind: TokenType::Newline }, i + 1))
    } else if c == '\0' {
        Ok(
            (
                TokView { text: "\0"@, kind: TokenType::Eof },
                if i < s.len() {
                    i + 1
                } else {
                    i
                },
            ),
        )
    } else {
        Err(ErrView::UnknownChar(c))
    }
}

pub proof fn lemma_skip_ws_bounds(s: Seq<char>, i: int)
    requires
        0 <= i <= s.len(),
    ensures
        i <= skip_ws_spec(s, i) <= s.len(),
    decreases s.len() - i,
{
    if i < s.len() && is_space(s[i]) {
        lemma_skip_ws_bounds(s, i + 1);
    }
}

pub proof fn lemma_skip_to_newline_bounds(s: Seq<char>, i: int)
    requires
        0 <= i <= s.len(),
    ensures
        i <= skip_to_newline(s, i) <= s.len(),
    decreases s.len() - i,
{
    if i < s.len() && s[i] != '\n' {
        lemma_skip_to_newline_bounds(s, i + 1);
    }
}

pub proof fn lemma_scan_digits_bounds(s: Seq<char>, i: int)
    requires
        0 <= i <= s.len(),
    ensures
        i <= scan_digits(s, i) <= s.len(),
    decreases s.len() - i,
{
    if i < s.len() && is_digit_char(s[i]) {
        lemma_scan_digits_bounds(s, i + 1);
    }
}

pub proof fn lemma_scan_alnum_bounds(s: Seq<char>, i: int)
    requires
        0 <= i <= s.len(),
    ensures
        i <= scan_alnum(s, i) <= s.len(),
    decreases s.len() - i,
{
    if i < s.len() && is_alnum_char(s[i]) {
        lemma_scan_alnum_bounds(s, i + 1);
    }
}

pub proof fn lemma_scan_string_bounds(s: Seq<char>, i: int)
    requires
        0 <= i,
    ensures
        scan_string_end(s, i) matches Some(q) ==> i <= q < s.len(),
    decreases s.len() - i,
{
    if 0 <= i < s.len() && s[i] != '"' && !is_illegal_in_string(s[i]) {
        lemma_scan_string_bounds(s, i + 1);
    }
}

/// A produced token ends no earlier than it starts, stays inside the
/// source, and — except for the end-of-input token — consumes at least one
/// character.
pub proof fn lemma_next_token_bounds(s: Seq<char>, start: int)
    requires
        0 <= start <= s.len(),
    ensures
        next_token_spec(s, start) matches Ok(tj) ==> {
            &&& start <= tj.1 <= s.len()
            &&& (tj.0.kind != TokenType::Eof ==> start < tj.1)
        },
{
    lemma_skip_ws_bounds(s, start);
    let w = skip_ws_spec(s, start);
    if char_at(s, w) == '#' {
        lemma_skip_to_newline_bounds(s, w);
    }
    let i = skip_comment_spec(s, w);
    let c = char_at(s, i);
    if is_digit_char(c) {
        assert(!is_digit_char('\0'));
        assert(0 <= i < s.len());
        lemma_scan_digits_bounds(s, i + 1);
        assert(scan_digits(s, i) == scan_digits(s, i + 1));
        let d = scan_digits(s, i);
        assert(i < d);
        if char_at(s, d) == '.' && is_digit_char(char_at(s, d + 1)) {
            lemma_scan_digits_bounds(s, d + 1);
        }
    } else if is_alpha_char(c) {
        assert(!is_alnum_char('\0'));
        assert(0 <= i < s.len());
        lemma_scan_alnum_bounds(s, i + 1);
        assert(scan_alnum(s, i) == scan_alnum(s, i + 1));
        assert(i < scan_alnum(s, i));
    } else if c == '"' {
        lemma_scan_string_bounds(s, i + 1);
    }
}

/// The lexer cursor: the source text (with its appended trailing newline),
/// the current position, and the character there (`NUL` past the end).
pub struct Lexer {
    source: String,
    pub cur_char: char,
    cur_pos: usize,
}

impl Lexer {
    /// The source text being tokenized.
    pub closed spec fn src(&self) -> Seq<char> {
        self.source@
    }

    /// The current cursor position.
    pub closed spec fn pos(&self) -> int {
        self.cur_pos as int
    }

    /// Well-formedness: the cursor stays inside the source (or one past its
    /// end), the source ends with a newline, and `cur_char` mirrors the
    /// character under the cursor.
    pub closed spec fn wf(&self) -> bool {
        &&& self.cur_pos <= self.source@.len()
        &&& self.source@.len() >= 1
        &&& self.source@.len() <= usize::MAX
        &&& self.source@[self.source@.len() - 1] == '\n'
        &&& self.cur_char == char_at(self.source@, self.cur_pos as int)
    }

    /// A well-formed lexer's position stays inside its source.
    pub proof fn lemma_wf_bounds(&self)
        requires
            self.wf(),
        ensures
            0 <= self.pos() <= self.src().len(),
            self.src().len() >= 1,
    {
    }

    /// Create a lexer over the given input with one newline appended, the
    /// cursor on the first character.
    pub fn new(input: &String) -> (l: Lexer)
        ensures
            l.wf(),
            l.src() == input@ + "\n"@,
            l.pos() == 0,
    {
        let mut source = input.clone();
        source.append("\n");
        proof {
            reveal_strlit("\n");
            assert(source@.len() >= 1);
            assert(source@[source@.len() - 1] == '\n');
        }
        // counting the characters also pins the character count within usize
        let n = source.as_str().unicode_len();
        let c = source.as_str().get_char(0);
        Lexer { source, cur_char: c, cur_pos: 0 }
    }

    /// Advance the cursor one character; past the end it stays put and the
    /// current character remains the `NUL` sentinel.
    pub fn next_char(&mut self)
        requires
            old(self).wf(),
        ensures
            final(self).wf(),
            final(self).src() == old(self).src(),
            final(self).pos() == if old(self).pos() < old(self).src().len() {
                old(self).pos() + 1
            } else {
                old(self).pos()
            },
    {
        let n = self.source.as_str().unicode_len();
        if self.cur_pos < n {
            self.cur_pos = self.cur_pos + 1;
        }
        self.cur_char = if self.cur_pos < n {
            self.source.as_str().get_char(self.cur_pos)
        } else {
            '\0'
        };
    }

    /// The character one position ahead of the cursor, without consuming
    /// it; the `NUL` sentinel past the end.
    pub fn peek(&self) -> (c: char)
        requires
            self.wf(),
        ensures
            c == char_at(self.src(), self.pos() + 1),
    {
        let n = self.source.as_str().unicode_len();
        if self.cur_pos >= n {
            '\0'
        } else {
            let p = self.cur_pos + 1;
            if p >= n {
                '\0'
            } else {
                self.source.as_str().get_char(p)
            }
        }
    }

    /// Skip the run of space/tab/carriage-return under the cursor.
    pub fn skip_whitespace(&mut self)
        requires
            old(self).wf(),
        ensures
            final(self).wf(),
            final(self).src() == old(self).src(),
            final(self).pos() == skip_ws_spec(old(self).src(), old(self).pos()),
    {
        while self.cur_char == ' ' || self.cur_char == '\t' || self.cur_char == '\r'
            invariant
                self.wf(),
                self.src() == old(self).src(),
                skip_ws_spec(self.src(), self.pos()) == skip_ws_spec(
                    old(self).src(),
                    old(self).pos(),
                ),
            decreases self.src().len() - self.pos(),
        {
            self.next_char();
        }
    }

    /// Skip a comment: from `#` up to, but not including, the next newline.
    pub fn skip_comment(&mut self)
        requires
            old(self).wf(),
        ensures
            final(self).wf(),
            final(self).src() == old(self).src(),
            final(self).pos() == skip_comment_spec(old(self).src(), old(self).pos()),
    {
        if self.cur_char == '#' {
            while self.cur_char != '\n'
                invariant
                    self.wf(),
                    self.src() == old(self).src(),
                    self.pos() < self.src().len(),
                    skip_to_newline(self.src(), self.pos()) == skip_to_newline(
                        old(self).src(),
                        old(self).pos(),
                    ),
                decreases self.src().len() - self.pos(),
            {
                self.next_char();
            }
        }
    }

    /// Executable test for a decimal digit.
    fn is_digit(c: char) -> (r: bool)
        ensures
            r == is_digit_char(c),
    {
        ('0' as u32) <= (c as u32) && (c as u32) <= ('9' as u32)
    }

    /// Executable test for a letter or digit.
    fn is_alnum(c: char) -> (r: bool)
        ensures
            r == is_alnum_char(c),
    {
        (('a' as u32) <= (c as u32) && (c as u32) <= ('z' as u32)) || (('A' as u32) <= (c as u32)
            && (c as u32) <= ('Z' as u32)) || (('0' as u32) <= (c as u32) && (c as u32) <= ('9'
            as u32))
    }

    /// The lexeme spanning positions `from..to` of the source.
    fn lexeme(&self, from: usize, to: usize) -> (t: String)
        requires
            self.wf(),
            from <= to <= self.src().len(),
        ensures
            t@ == self.src().subrange(from as int, to as int),
    {
        self.source.as_str().substring_char(from, to).to_owned()
    }

    /// Consume one character and return it as a token of the given kind.
    fn one_char_token(&mut self, kind: TokenType) -> (t: Token)
        requires
            old(self).wf(),
            old(self).pos() < old(self).src().len(),
        ensures
            final(self).wf(),
            final(self).src() == old(self).src(),
            final(self).pos() == old(self).pos() + 1,
            t@ == (TokView {
                text: old(self).src().subrange(old(self).pos(), old(self).pos() + 1),
                kind,
            }),
    {
        let text = self.lexeme(self.cur_pos, self.cur_pos + 1);
        self.next_char();
        Token::new(&text, kind)
    }

    /// Consume two characters and return them as one token of the given
    /// kind.
    fn two_char_token(&mut self, kind: TokenType) -> (t: Token)
        requires
            old(self).wf(),
            old(self).pos() + 1 < old(self).src().len(),
        ensures
            final(self).wf(),
            final(self).src() == old(self).src(),
            final(self).pos() == old(self).pos() + 2,
            t@ == (TokView {
                text: old(self).src().subrange(old(self).pos(), old(self).pos() + 2),
                kind,
            }),
    {
        let text = self.lexeme(self.cur_pos, self.cur_pos + 2);
        self.next_char();
        self.next_char();
        Token::new(&text, kind)
    }

    /// Produce exactly one token, consuming as many characters as it needs,
    /// or report the first lexical fault. After end-of-input this returns
    /// the end-of-input token forever.
    #[verifier::loop_isolation(false)]
    pub fn get_token(&mut self) -> (r: Result<Token, CompileError>)
        requires
            old(self).wf(),
        ensures
            final(self).wf(),
            final(self).src() == old(self).src(),
            match next_token_spec(old(self).src(), old(self).pos()) {
                Ok(tj) => r matches Ok(tok) && tok@ == tj.0 && final(self).pos() == tj.1,
                Err(e) => r matches Err(err) && err@ == e,
            },
    {
        self.skip_whitespace();
        self.skip_comment();
        let ghost s = self.src();
        let ghost i = self.pos();
        let c = self.cur_char;
        if c == '+' {
            Ok(self.one_char_token(TokenType::Plus))
        } else if c == '-' {
            Ok(self.one_char_token(TokenType::Minus))
        } else if c == '*' {
            Ok(self.one_char_token(TokenType::Asterisk))
        } else if c == '/' {
            Ok(self.one_char_token(TokenType::Slash))
        } else if c == '=' {
            if self.peek() == '=' {
                Ok(self.two_char_token(TokenType::EqEq))
            } else {
                Ok(self.one_char_token(TokenType::Assign))
            }
        } else if c == '>' {
            if self.peek() == '=' {
                Ok(self.two_char_token(TokenType::GtEq))
            } else {
                Ok(self.one_char_token(TokenType::Gt))
            }
        } else if c == '<' {
            if self.peek() == '=' {
                Ok(self.two_char_token(TokenType::LtEq))
            } else {
                Ok(self.one_char_token(TokenType::Lt))
            }
        } else if c == '!' {
            if self.peek() == '=' {
                Ok(self.two_char_token(TokenType::NotEq))
            } else {
                Err(CompileError::ExclamationWithoutEq(self.peek()))
            }
        } else if c == '"' {
            self.next_char();
            let start = self.cur_pos;
            while self.cur_char != '"'
                invariant
                    self.wf(),
                    self.src() == s,
                    start <= self.pos() < self.src().len(),
                    start == i + 1,
                    scan_string_end(s, start as int) == scan_string_end(s, self.pos()),
                decreases self.src().len() - self.pos(),
            {
                let cc = self.cur_char;
                if cc == '\r' || cc == '\n' || cc == '\t' || cc == '\\' || cc == '%' {
                    return Err(CompileError::IllegalStringChar);
                }
                self.next_char();
            }
            let text = self.lexeme(start, self.cur_pos);
            self.next_char();
            Ok(Token::new(&text, TokenType::StringLit))
        } else if Self::is_digit(c) {
            let start = self.cur_pos;
            while Self::is_digit(self.peek())
                invariant
                    self.wf(),
                    self.src() == s,
                    i <= self.pos() < self.src().len(),
                    start == i,
                    is_digit_char(char_at(s, self.pos())),
                    scan_digits(s, i) == scan_digits(s, self.pos() + 1),
                decreases self.src().len() - self.pos(),
            {
                self.next_char();
            }
            let ghost d = scan_digits(s, i);
            assert(d == self.pos() + 1);
            if self.peek() == '.' {
                self.next_char();
                if !Self::is_digit(self.peek()) {
                    return Err(CompileError::IllegalNumberChar);
                }
                while Self::is_digit(self.peek())
                    invariant
                        self.wf(),
                        self.src() == s,
                        d <= self.pos() < self.src().len(),
                        scan_digits(s, d + 1) == scan_digits(s, self.pos() + 1),
                    decreases self.src().len() - self.pos(),
                {
                    self.next_char();
                }
                let text = self.lexeme(start, self.cur_pos + 1);
                self.next_char();
                Ok(Token::new(&text, TokenType::Number))
            } else {
                let text = self.lexeme(start, self.cur_pos + 1);
                self.next_char();
                Ok(Token::new(&text, TokenType::Number))
            }
        } else if (('a' as u32) <= (c as u32) && (c as u32) <= ('z' as u32)) || (('A' as u32) <= (
        c as u32) && (c as u32) <= ('Z' as u32)) {
            let start = self.cur_pos;
            while Self::is_alnum(self.peek())
                invariant
                    self.wf(),
                    self.src() == s,
                    i <= self.pos() < self.src().len(),
                    start == i,
                    is_alnum_char(char_at(s, self.pos())),
                    scan_alnum(s, i) == scan_alnum(s, self.pos() + 1),
                decreases self.src().len() - self.pos(),
            {
                self.next_char();
            }
            let text = self.lexeme(start, self.cur_pos + 1);
            self.next_char();
            let kw = Token::check_if_keyword(text.as_str());
            if kw == TokenType::Unknown {
                Ok(Token::new(&text, TokenType::Ident))
            } else {
                Ok(Token::new(&text, kw))
            }
        } else if c == '\n' {
            Ok(self.one_char_token(TokenType::Newline))
        } else if c == '\0' {
            let text = String::from_str("\0");
            self.next_char();
            Ok(Token::new(&text, TokenType::Eof))
        } else {
            Err(CompileError::UnknownChar(c))
        }
    }
}

} // verus!
