//! The one-token-lookahead recursive-descent parser and its mathematical
//! model. The spec functions `sp_*` define, production by production, what
//! one left-to-right pass over the token stream recognizes, which text it
//! emits, and which error aborts it; the `Parser` type is proved to return
//! exactly what they say. `translate_spec` composes the whole pipeline, so
//! the result of a translation is a function of the source text alone.

use vstd::prelude::*;
use vstd::string::*;
use crate::token::{Token, TokenType, TokView};
use crate::error::{CompileError, ErrView};
use crate::lex::{Lexer, next_token_spec, lemma_next_token_bounds};
use crate::emit::Emitter;

verus! {

/// The parser's window onto the token stream: the current token, the one
/// token of lookahead, and the lexer position from which the token after
/// that will be read.
pub ghost struct Cursor {
    pub cur: TokView,
    pub peek: TokView,
    pub pos: int,
}

/// The parser state the grammar actions act on: the two emission regions
/// and the three validation sets (in first-insertion order).
pub ghost struct PState {
    pub header: Seq<char>,
    pub body: Seq<char>,
    pub symbols: Seq<Seq<char>>,
    pub labels_declared: Seq<Seq<char>>,
    pub labels_gotoed: Seq<Seq<char>>,
}

pub open spec fn with_body(st: PState, t: Seq<char>) -> PState {
    PState { body: st.body + t, ..st }
}

/// The expression layer only appends to the body; the header and the
/// three validation sets pass through unchanged.
pub open spec fn state_extends(st: PState, st2: PState) -> bool {
    &&& st.body.is_prefix_of(st2.body)
    &&& st2.header == st.header
    &&& st2.symbols == st.symbols
    &&& st2.labels_declared == st.labels_declared
    &&& st2.labels_gotoed == st.labels_gotoed
}

/// A statement appends to the two emission regions and never rewrites
/// what stands in them.
pub open spec fn state_grows(st: PState, st2: PState) -> bool {
    &&& st.body.is_prefix_of(st2.body)
    &&& st.header.is_prefix_of(st2.header)
}

/// How much input a cursor still has in front of it: unread characters
/// plus the lookahead tokens not yet at end-of-input. Parsing any
/// construct strictly shrinks it.
pub open spec fn tok_weight(t: TokView) -> int {
    if t.kind == TokenType::Eof {
        0
    } else {
        1
    }
}

pub open spec fn cursor_wf(s: Seq<char>, cu: Cursor) -> bool {
    0 <= cu.pos <= s.len()
}

pub open spec fn cursor_measure(s: Seq<char>, cu: Cursor) -> int {
    if cursor_wf(s, cu) {
        s.len() - cu.pos + tok_weight(cu.cur) + tok_weight(cu.peek)
    } else {
        0
    }
}

/// Pull one token: the lookahead becomes current and the lexer reads the
/// next token, or the translation stops at the first lexical fault.
pub open spec fn cursor_advance(s: Seq<char>, cu: Cursor) -> Result<Cursor, ErrView> {
    match next_token_spec(s, cu.pos) {
        Ok(tj) => Ok(Cursor { cur: cu.peek, peek: tj.0, pos: tj.1 }),
        Err(e) => Err(e),
    }
}

/// The cursor obtained by reading the first two tokens from position `p`.
pub open spec fn cursor_at(s: Seq<char>, p: int) -> Result<Cursor, ErrView> {
    match next_token_spec(s, p) {
        Err(e) => Err(e),
        Ok(tj) => match next_token_spec(s, tj.1) {
            Err(e) => Err(e),
            Ok(tj2) => Ok(Cursor { cur: tj.0, peek: tj2.0, pos: tj2.1 }),
        },
    }
}

pub proof fn lemma_advance(s: Seq<char>, cu: Cursor)
    requires
        cursor_wf(s, cu),
    ensures
        cursor_advance(s, cu) matches Ok(c2) ==> {
            &&& cursor_wf(s, c2)
            &&& c2.cur == cu.peek
            &&& cursor_measure(s, c2) <= cursor_measure(s, cu)
            &&& (cu.cur.kind != TokenType::Eof ==> cursor_measure(s, c2) < cursor_measure(s, cu))
        },
        cursor_advance(s, cu) matches Err(e) ==> !(e is UndeclaredLabel),
{
    lemma_next_token_bounds(s, cu.pos);
}

/// The cursor window was read from some position of the source: this is
/// how every cursor the parser ever holds arose, and advancing preserves
/// it.
pub open spec fn cursor_reachable(s: Seq<char>, cu: Cursor) -> bool {
    exists|p: int| 0 <= p <= s.len() && cursor_at(s, p) == Ok::<Cursor, ErrView>(cu)
}

/// At position `p` of the source stands a `LET` or `INPUT` keyword token,
/// immediately followed by an identifier token whose lexeme is `x`.
pub open spec fn declares_at(s: Seq<char>, p: int, x: Seq<char>) -> bool {
    &&& 0 <= p <= s.len()
    &&& match next_token_spec(s, p) {
        Ok(t1) => (t1.0.kind == TokenType::Let || t1.0.kind == TokenType::Input)
            && match next_token_spec(s, t1.1) {
            Ok(t2) => t2.0.kind == TokenType::Ident && t2.0.text == x,
            Err(_) => false,
        },
        Err(_) => false,
    }
}

/// `x` stands somewhere in the source as the target of a `LET` or `INPUT`.
pub open spec fn is_declaration_target(s: Seq<char>, x: Seq<char>) -> bool {
    exists|p: int| declares_at(s, p, x)
}

pub proof fn lemma_advance_reachable(s: Seq<char>, cu: Cursor)
    requires
        cursor_wf(s, cu),
    ensures
        cursor_advance(s, cu) matches Ok(c2) ==> (cursor_reachable(s, cu) ==> cursor_reachable(
            s,
            c2,
        )),
{
    if cursor_reachable(s, cu) {
        let p = choose|p: int| 0 <= p <= s.len() && cursor_at(s, p) == Ok::<Cursor, ErrView>(cu);
        match next_token_spec(s, p) {
            Ok(t1) => {
                lemma_next_token_bounds(s, p);
                match cursor_advance(s, cu) {
                    Ok(c2) => {
                        assert(0 <= t1.1 <= s.len() && cursor_at(s, t1.1) == Ok::<
                            Cursor,
                            ErrView,
                        >(c2));
                    },
                    Err(_) => {},
                }
            },
            Err(_) => {},
        }
    }
}

/// Demand a token of the given kind and consume it; anything else is the
/// syntactic expected-token fault.
pub open spec fn sp_match(s: Seq<char>, cu: Cursor, kind: TokenType) -> Result<Cursor, ErrView> {
    if cu.cur.kind == kind {
        cursor_advance(s, cu)
    } else {
        Err(ErrView::Expected { expected: kind, got: cu.cur.kind })
    }
}

pub proof fn lemma_match_m(s: Seq<char>, cu: Cursor, kind: TokenType)
    requires
        cursor_wf(s, cu),
    ensures
        sp_match(s, cu, kind) matches Ok(c2) ==> {
            &&& cursor_wf(s, c2)
            &&& cursor_measure(s, c2) <= cursor_measure(s, cu)
            &&& (kind != TokenType::Eof ==> cursor_measure(s, c2) < cursor_measure(s, cu))
            &&& (cursor_reachable(s, cu) ==> cursor_reachable(s, c2))
        },
        sp_match(s, cu, kind) matches Err(e) ==> !(e is UndeclaredLabel),
{
    lemma_advance(s, cu);
    lemma_advance_reachable(s, cu);
    lemma_advance_reachable(s, cu);
}

pub open spec fn is_comparison_kind(k: TokenType) -> bool {
    ||| k == TokenType::Gt
    ||| k == TokenType::GtEq
    ||| k == TokenType::Lt
    ||| k == TokenType::LtEq
    ||| k == TokenType::EqEq
    ||| k == TokenType::NotEq
}

/// primary := NUMBER | IDENT. The lexeme is re-emitted verbatim; an
/// identifier must already have been declared by `LET` or `INPUT`.
pub open spec fn sp_primary(s: Seq<char>, cu: Cursor, st: PState) -> Result<
    (Cursor, PState),
    ErrView,
> {
    if cu.cur.kind == TokenType::Number {
        match cursor_advance(s, cu) {
            Ok(c2) => Ok((c2, with_body(st, cu.cur.text))),
            Err(e) => Err(e),
        }
    } else if cu.cur.kind == TokenType::Ident {
        if st.symbols.contains(cu.cur.text) {
            match cursor_advance(s, cu) {
                Ok(c2) => Ok((c2, with_body(st, cu.cur.text))),
                Err(e) => Err(e),
            }
        } else {
            Err(ErrView::UndeclaredVariable(cu.cur.text))
        }
    } else {
        Err(ErrView::UnexpectedPrimary(cu.cur.text))
    }
}

pub proof fn lemma_primary_m(s: Seq<char>, cu: Cursor, st: PState)
    requires
        cursor_wf(s, cu),
    ensures
        sp_primary(s, cu, st) matches Ok(r) ==> {
            &&& cursor_wf(s, r.0)
            &&& (cursor_reachable(s, cu) ==> cursor_reachable(s, r.0))
            &&& cursor_measure(s, r.0) < cursor_measure(s, cu)
            &&& state_extends(st, r.1)
        },
        sp_primary(s, cu, st) matches Err(e) ==> !(e is UndeclaredLabel),
{
    lemma_advance(s, cu);
    lemma_advance_reachable(s, cu);
    lemma_prefix_add(st.body, cu.cur.text);
}

/// unary := [ "+" | "-" ] primary.
pub open spec fn sp_unary(s: Seq<char>, cu: Cursor, st: PState) -> Result<
    (Cursor, PState),
    ErrView,
> {
    if cu.cur.kind == TokenType::Plus || cu.cur.kind == TokenType::Minus {
        let st2 = with_body(st, cu.cur.text);
        match cursor_advance(s, cu) {
            Ok(c2) => sp_primary(s, c2, st2),
            Err(e) => Err(e),
        }
    } else {
        sp_primary(s, cu, st)
    }
}

pub proof fn lemma_unary_m(s: Seq<char>, cu: Cursor, st: PState)
    requires
        cursor_wf(s, cu),
    ensures
        sp_unary(s, cu, st) matches Ok(r) ==> {
            &&& cursor_wf(s, r.0)
            &&& (cursor_reachable(s, cu) ==> cursor_reachable(s, r.0))
            &&& cursor_measure(s, r.0) < cursor_measure(s, cu)
            &&& state_extends(st, r.1)
        },
        sp_unary(s, cu, st) matches Err(e) ==> !(e is UndeclaredLabel),
{
    lemma_advance(s, cu);
    lemma_advance_reachable(s, cu);
    if cu.cur.kind == TokenType::Plus || cu.cur.kind == TokenType::Minus {
        let st2 = with_body(st, cu.cur.text);
        lemma_prefix_add(st.body, cu.cur.text);
        match cursor_advance(s, cu) {
            Ok(c2) => {
                lemma_primary_m(s, c2, st2);
                match sp_primary(s, c2, st2) {
                    Ok(r) => {
                        lemma_prefix_trans(st.body, st2.body, r.1.body);
                    },
                    Err(_) => {},
                }
            },
            Err(_) => {},
        }
    } else {
        lemma_primary_m(s, cu, st);
    }
}

/// The `{ ("*" | "/") unary }` tail of a term.
pub open spec fn sp_term_more(s: Seq<char>, cu: Cursor, st: PState) -> Result<
    (Cursor, PState),
    ErrView,
>
    decreases cursor_measure(s, cu),
    when cursor_wf(s, cu)
    via sp_term_more_dec
{
    if cu.cur.kind == TokenType::Asterisk || cu.cur.kind == TokenType::Slash {
        let st2 = with_body(st, cu.cur.text);
        match cursor_advance(s, cu) {
            Ok(c2) => match sp_unary(s, c2, st2) {
                Ok(r) => sp_term_more(s, r.0, r.1),
                Err(e) => Err(e),
            },
            Err(e) => Err(e),
        }
    } else {
        Ok((cu, st))
    }
}

#[via_fn]
proof fn sp_term_more_dec(s: Seq<char>, cu: Cursor, st: PState) {
    lemma_advance(s, cu);
    if cu.cur.kind == TokenType::Asterisk || cu.cur.kind == TokenType::Slash {
        match cursor_advance(s, cu) {
            Ok(c2) => {
                lemma_unary_m(s, c2, with_body(st, cu.cur.text));
            },
            Err(_) => {},
        }
    }
}

pub proof fn lemma_term_more_m(s: Seq<char>, cu: Cursor, st: PState)
    requires
        cursor_wf(s, cu),
    ensures
        sp_term_more(s, cu, st) matches Ok(r) ==> {
            &&& cursor_wf(s, r.0)
            &&& (cursor_reachable(s, cu) ==> cursor_reachable(s, r.0))
            &&& cursor_measure(s, r.0) <= cursor_measure(s, cu)
            &&& state_extends(st, r.1)
        },
        sp_term_more(s, cu, st) matches Err(e) ==> !(e is UndeclaredLabel),
    decreases cursor_measure(s, cu),
{
    lemma_advance(s, cu);
    lemma_advance_reachable(s, cu);
    if cu.cur.kind == TokenType::Asterisk || cu.cur.kind == TokenType::Slash {
        let st2 = with_body(st, cu.cur.text);
        lemma_prefix_add(st.body, cu.cur.text);
        match cursor_advance(s, cu) {
            Ok(c2) => {
                lemma_unary_m(s, c2, st2);
                match sp_unary(s, c2, st2) {
                    Ok(r) => {
                        lemma_term_more_m(s, r.0, r.1);
                        match sp_term_more(s, r.0, r.1) {
                            Ok(rr) => {
                                lemma_prefix_trans(st.body, st2.body, r.1.body);
                                lemma_prefix_trans(st.body, r.1.body, rr.1.body);
                            },
                            Err(_) => {},
                        }
                    },
                    Err(_) => {},
                }
            },
            Err(_) => {},
        }
    }
}

/// term := unary { ("*" | "/") unary }.
pub open spec fn sp_term(s: Seq<char>, cu: Cursor, st: PState) -> Result<
    (Cursor, PState),
    ErrView,
> {
    match sp_unary(s, cu, st) {
        Ok(r) => sp_term_more(s, r.0, r.1),
        Err(e) => Err(e),
    }
}

pub proof fn lemma_term_m(s: Seq<char>, cu: Cursor, st: PState)
    requires
        cursor_wf(s, cu),
    ensures
        sp_term(s, cu, st) matches Ok(r) ==> {
            &&& cursor_wf(s, r.0)
            &&& (cursor_reachable(s, cu) ==> cursor_reachable(s, r.0))
            &&& cursor_measure(s, r.0) < cursor_measure(s, cu)
            &&& state_extends(st, r.1)
        },
        sp_term(s, cu, st) matches Err(e) ==> !(e is UndeclaredLabel),
{
    lemma_unary_m(s, cu, st);
    match sp_unary(s, cu, st) {
        Ok(r) => {
            lemma_term_more_m(s, r.0, r.1);
            match sp_term_more(s, r.0, r.1) {
                Ok(rr) => {
                    lemma_prefix_trans(st.body, r.1.body, rr.1.body);
                },
                Err(_) => {},
            }
        },
        Err(_) => {},
    }
}

/// The `{ ("+" | "-") term }` tail of an expression.
pub open spec fn sp_expression_more(s: Seq<char>, cu: Cursor, st: PState) -> Result<
    (Cursor, PState),
    ErrView,
>
    decreases cursor_measure(s, cu),
    when cursor_wf(s, cu)
    via sp_expression_more_dec
{
    if cu.cur.kind == TokenType::Plus || cu.cur.kind == TokenType::Minus {
        let st2 = with_body(st, cu.cur.text);
        match cursor_advance(s, cu) {
            Ok(c2) => match sp_term(s, c2, st2) {
                Ok(r) => sp_expression_more(s, r.0, r.1),
                Err(e) => Err(e),
            },
            Err(e) => Err(e),
        }
    } else {
        Ok((cu, st))
    }
}

#[via_fn]
proof fn sp_expression_more_dec(s: Seq<char>, cu: Cursor, st: PState) {
    lemma_advance(s, cu);
    if cu.cur.kind == TokenType::Plus || cu.cur.kind == TokenType::Minus {
        match cursor_advance(s, cu) {
            Ok(c2) => {
                lemma_term_m(s, c2, with_body(st, cu.cur.text));
            },
            Err(_) => {},
        }
    }
}

pub proof fn lemma_expression_more_m(s: Seq<char>, cu: Cursor, st: PState)
    requires
        cursor_wf(s, cu),
    ensures
        sp_expression_more(s, cu, st) matches Ok(r) ==> {
            &&& cursor_wf(s, r.0)
            &&& (cursor_reachable(s, cu) ==> cursor_reachable(s, r.0))
            &&& cursor_measure(s, r.0) <= cursor_measure(s, cu)
            &&& state_extends(st, r.1)
        },
        sp_expression_more(s, cu, st) matches Err(e) ==> !(e is UndeclaredLabel),
    decreases cursor_measure(s, cu),
{
    lemma_advance(s, cu);
    lemma_advance_reachable(s, cu);
    if cu.cur.kind == TokenType::Plus || cu.cur.kind == TokenType::Minus {
        let st2 = with_body(st, cu.cur.text);
        lemma_prefix_add(st.body, cu.cur.text);
        match cursor_advance(s, cu) {
            Ok(c2) => {
                lemma_term_m(s, c2, st2);
                match sp_term(s, c2, st2) {
                    Ok(r) => {
                        lemma_expression_more_m(s, r.0, r.1);
                        match sp_expression_more(s, r.0, r.1) {
                            Ok(rr) => {
                                lemma_prefix_trans(st.body, st2.body, r.1.body);
                                lemma_prefix_trans(st.body, r.1.body, rr.1.body);
                            },
                            Err(_) => {},
                        }
                    },
                    Err(_) => {},
                }
            },
            Err(_) => {},
        }
    }
}

/// expression := term { ("+" | "-") term }.
pub open spec fn sp_expression(s: Seq<char>, cu: Cursor, st: PState) -> Result<
    (Cursor, PState),
    ErrView,
> {
    match sp_term(s, cu, st) {
        Ok(r) => sp_expression_more(s, r.0, r.1),
        Err(e) => Err(e),
    }
}

pub proof fn lemma_expression_m(s: Seq<char>, cu: Cursor, st: PState)
    requires
        cursor_wf(s, cu),
    ensures
        sp_expression(s, cu, st) matches Ok(r) ==> {
            &&& cursor_wf(s, r.0)
            &&& (cursor_reachable(s, cu) ==> cursor_reachable(s, r.0))
            &&& cursor_measure(s, r.0) < cursor_measure(s, cu)
            &&& state_extends(st, r.1)
        },
        sp_expression(s, cu, st) matches Err(e) ==> !(e is UndeclaredLabel),
{
    lemma_term_m(s, cu, st);
    match sp_term(s, cu, st) {
        Ok(r) => {
            lemma_expression_more_m(s, r.0, r.1);
            match sp_expression_more(s, r.0, r.1) {
                Ok(rr) => {
                    lemma_prefix_trans(st.body, r.1.body, rr.1.body);
                },
                Err(_) => {},
            }
        },
        Err(_) => {},
    }
}

/// The `{ comparisonOp expression }` tail of a comparison.
pub open spec fn sp_comparison_more(s: Seq<char>, cu: Cursor, st: PState) -> Result<
    (Cursor, PState),
    ErrView,
>
    decreases cursor_measure(s, cu),
    when cursor_wf(s, cu)
    via sp_comparison_more_dec
{
    if is_comparison_kind(cu.cur.kind) {
        let st2 = with_body(st, cu.cur.text);
        match cursor_advance(s, cu) {
            Ok(c2) => match sp_expression(s, c2, st2) {
                Ok(r) => sp_comparison_more(s, r.0, r.1),
                Err(e) => Err(e),
            },
            Err(e) => Err(e),
        }
    } else {
        Ok((cu, st))
    }
}

#[via_fn]
proof fn sp_comparison_more_dec(s: Seq<char>, cu: Cursor, st: PState) {
    lemma_advance(s, cu);
    if is_comparison_kind(cu.cur.kind) {
        match cursor_advance(s, cu) {
            Ok(c2) => {
                lemma_expression_m(s, c2, with_body(st, cu.cur.text));
            },
            Err(_) => {},
        }
    }
}

pub proof fn lemma_comparison_more_m(s: Seq<char>, cu: Cursor, st: PState)
    requires
        cursor_wf(s, cu),
    ensures
        sp_comparison_more(s, cu, st) matches Ok(r) ==> {
            &&& cursor_wf(s, r.0)
            &&& (cursor_reachable(s, cu) ==> cursor_reachable(s, r.0))
            &&& cursor_measure(s, r.0) <= cursor_measure(s, cu)
            &&& state_extends(st, r.1)
        },
        sp_comparison_more(s, cu, st) matches Err(e) ==> !(e is UndeclaredLabel),
    decreases cursor_measure(s, cu),
{
    lemma_advance(s, cu);
    lemma_advance_reachable(s, cu);
    if is_comparison_kind(cu.cur.kind) {
        let st2 = with_body(st, cu.cur.text);
        lemma_prefix_add(st.body, cu.cur.text);
        match cursor_advance(s, cu) {
            Ok(c2) => {
                lemma_expression_m(s, c2, st2);
                match sp_expression(s, c2, st2) {
                    Ok(r) => {
                        lemma_comparison_more_m(s, r.0, r.1);
                        match sp_comparison_more(s, r.0, r.1) {
                            Ok(rr) => {
                                lemma_prefix_trans(st.body, st2.body, r.1.body);
                                lemma_prefix_trans(st.body, r.1.body, rr.1.body);
                            },
                            Err(_) => {},
                        }
                    },
                    Err(_) => {},
                }
            },
            Err(_) => {},
        }
    }
}

/// comparison := expression comparisonOp expression { comparisonOp
/// expression }. At least one comparison operator is mandatory.
pub open spec fn sp_comparison(s: Seq<char>, cu: Cursor, st: PState) -> Result<
    (Cursor, PState),
    ErrView,
> {
    match sp_expression(s, cu, st) {
        Ok(r) => if is_comparison_kind(r.0.cur.kind) {
            let st2 = with_body(r.1, r.0.cur.text);
            match cursor_advance(s, r.0) {
                Ok(c2) => match sp_expression(s, c2, st2) {
                    Ok(r2) => sp_comparison_more(s, r2.0, r2.1),
                    Err(e) => Err(e),
                },
                Err(e) => Err(e),
            }
        } else {
            Err(ErrView::ExpectedComparisonOperator(r.0.cur.text))
        },
        Err(e) => Err(e),
    }
}

pub proof fn lemma_comparison_m(s: Seq<char>, cu: Cursor, st: PState)
    requires
        cursor_wf(s, cu),
    ensures
        sp_comparison(s, cu, st) matches Ok(r) ==> {
            &&& cursor_wf(s, r.0)
            &&& (cursor_reachable(s, cu) ==> cursor_reachable(s, r.0))
            &&& cursor_measure(s, r.0) < cursor_measure(s, cu)
            &&& state_extends(st, r.1)
        },
        sp_comparison(s, cu, st) matches Err(e) ==> !(e is UndeclaredLabel),
{
    lemma_expression_m(s, cu, st);
    match sp_expression(s, cu, st) {
        Ok(r) => {
            if is_comparison_kind(r.0.cur.kind) {
                let st2 = with_body(r.1, r.0.cur.text);
                lemma_prefix_add(r.1.body, r.0.cur.text);
                lemma_advance(s, r.0);
                lemma_advance_reachable(s, r.0);
                match cursor_advance(s, r.0) {
                    Ok(c2) => {
                        lemma_expression_m(s, c2, st2);
                        match sp_expression(s, c2, st2) {
                            Ok(r2) => {
                                lemma_comparison_more_m(s, r2.0, r2.1);
                                match sp_comparison_more(s, r2.0, r2.1) {
                                    Ok(rr) => {
                                        lemma_prefix_trans(st.body, r.1.body, st2.body);
                                        lemma_prefix_trans(st.body, st2.body, r2.1.body);
                                        lemma_prefix_trans(st.body, r2.1.body, rr.1.body);
                                    },
                                    Err(_) => {},
                                }
                            },
                            Err(_) => {},
                        }
                    },
                    Err(_) => {},
                }
            }
        },
        Err(_) => {},
    }
}

/// The run of newline tokens after the mandatory first one.
pub open spec fn sp_newline_run(s: Seq<char>, cu: Cursor) -> Result<Cursor, ErrView>
    decreases cursor_measure(s, cu),
    when cursor_wf(s, cu)
    via sp_newline_run_dec
{
    if cu.cur.kind == TokenType::Newline {
        match cursor_advance(s, cu) {
            Ok(c2) => sp_newline_run(s, c2),
            Err(e) => Err(e),
        }
    } else {
        Ok(cu)
    }
}

#[via_fn]
proof fn sp_newline_run_dec(s: Seq<char>, cu: Cursor) {
    lemma_advance(s, cu);
}

pub proof fn lemma_newline_run_m(s: Seq<char>, cu: Cursor)
    requires
        cursor_wf(s, cu),
    ensures
        sp_newline_run(s, cu) matches Ok(c2) ==> cursor_wf(s, c2) && cursor_measure(s, c2)
            <= cursor_measure(s, cu) && (cursor_reachable(s, cu) ==> cursor_reachable(s, c2)),
        sp_newline_run(s, cu) matches Err(e) ==> !(e is UndeclaredLabel),
    decreases cursor_measure(s, cu),
{
    lemma_advance(s, cu);
    lemma_advance_reachable(s, cu);
    if cu.cur.kind == TokenType::Newline {
        match cursor_advance(s, cu) {
            Ok(c2) => {
                lemma_newline_run_m(s, c2);
            },
            Err(_) => {},
        }
    }
}

/// nl := NEWLINE { NEWLINE }: one mandatory newline, then any run of them.
pub open spec fn sp_nl(s: Seq<char>, cu: Cursor) -> Result<Cursor, ErrView> {
    match sp_match(s, cu, TokenType::Newline) {
        Ok(c2) => sp_newline_run(s, c2),
        Err(e) => Err(e),
    }
}

pub proof fn lemma_nl_m(s: Seq<char>, cu: Cursor)
    requires
        cursor_wf(s, cu),
    ensures
        sp_nl(s, cu) matches Ok(c2) ==> cursor_wf(s, c2) && cursor_measure(s, c2)
            < cursor_measure(s, cu) && (cursor_reachable(s, cu) ==> cursor_reachable(s, c2)),
        sp_nl(s, cu) matches Err(e) ==> !(e is UndeclaredLabel),
{
    lemma_match_m(s, cu, TokenType::Newline);
    match sp_match(s, cu, TokenType::Newline) {
        Ok(c2) => {
            lemma_newline_run_m(s, c2);
        },
        Err(_) => {},
    }
}

/// The statement's mandatory trailing newline run, returning the state the
/// statement computed.
pub open spec fn sp_statement_end(s: Seq<char>, cu: Cursor, st: PState) -> Result<
    (Cursor, PState),
    ErrView,
> {
    match sp_nl(s, cu) {
        Ok(c2) => Ok((c2, st)),
        Err(e) => Err(e),
    }
}

/// One statement, with its semantic actions: emission into header and
/// body, idempotent variable registration for `LET`/`INPUT`, the
/// duplicate-`LABEL` check, and unconditional recording of `GOTO` targets.
pub open spec fn sp_statement(s: Seq<char>, cu: Cursor, st: PState) -> Result<
    (Cursor, PState),
    ErrView,
>
    decreases cursor_measure(s, cu), 0int,
    when cursor_wf(s, cu)
    via sp_statement_dec
{
    let k = cu.cur.kind;
    if k == TokenType::Print || k == TokenType::PrintLn {
        match cursor_advance(s, cu) {
            Err(e) => Err(e),
            Ok(c1) => if c1.cur.kind == TokenType::StringLit {
                let st1 = if k == TokenType::Print {
                    with_body(st, "printf(\""@ + c1.cur.text + "\");"@ + "\n"@)
                } else {
                    with_body(st, "printf(\""@ + c1.cur.text + "\\n\");"@ + "\n"@)
                };
                match cursor_advance(s, c1) {
                    Err(e) => Err(e),
                    Ok(c2) => sp_statement_end(s, c2, st1),
                }
            } else {
                let st1 = if k == TokenType::Print {
                    with_body(st, "printf(\"%.2f\", (float)("@)
                } else {
                    with_body(st, "printf(\"%.2f\\n\", (float)("@)
                };
                match sp_expression(s, c1, st1) {
                    Err(e) => Err(e),
                    Ok(r) => sp_statement_end(s, r.0, with_body(r.1, "));"@ + "\n"@)),
                }
            },
        }
    } else if k == TokenType::If {
        match cursor_advance(s, cu) {
            Err(e) => Err(e),
            Ok(c1) => match sp_comparison(s, c1, with_body(st, "if ("@)) {
                Err(e) => Err(e),
                Ok(r1) => match sp_match(s, r1.0, TokenType::Then) {
                    Err(e) => Err(e),
                    Ok(c2) => match sp_nl(s, c2) {
                        Err(e) => Err(e),
                        Ok(c3) => match sp_block(
                            s,
                            c3,
                            with_body(r1.1, ") {"@ + "\n"@),
                            TokenType::EndIf,
                        ) {
                            Err(e) => Err(e),
                            Ok(r2) => match sp_match(s, r2.0, TokenType::EndIf) {
                                Err(e) => Err(e),
                                Ok(c4) => sp_statement_end(
                                    s,
                                    c4,
                                    with_body(r2.1, "}"@ + "\n"@),
                                ),
                            },
                        },
                    },
                },
            },
        }
    } else if k == TokenType::While {
        match cursor_advance(s, cu) {
            Err(e) => Err(e),
            Ok(c1) => match sp_comparison(s, c1, with_body(st, "while ("@)) {
                Err(e) => Err(e),
                Ok(r1) => match sp_match(s, r1.0, TokenType::Repeat) {
                    Err(e) => Err(e),
                    Ok(c2) => match sp_nl(s, c2) {
                        Err(e) => Err(e),
                        Ok(c3) => match sp_block(
                            s,
                            c3,
                            with_body(r1.1, ") {"@ + "\n"@),
                            TokenType::EndWhile,
                        ) {
                            Err(e) => Err(e),
                            Ok(r2) => match sp_match(s, r2.0, TokenType::EndWhile) {
                                Err(e) => Err(e),
                                Ok(c4) => sp_statement_end(
                                    s,
                                    c4,
                                    with_body(r2.1, "}"@ + "\n"@),
                                ),
                            },
                        },
                    },
                },
            },
        }
    } else if k == TokenType::Label {
        match cursor_advance(s, cu) {
            Err(e) => Err(e),
            Ok(c1) => if st.labels_declared.contains(c1.cur.text) {
                Err(ErrView::DuplicateLabel(c1.cur.text))
            } else {
                let st1 = PState {
                    labels_declared: st.labels_declared.push(c1.cur.text),
                    body: st.body + c1.cur.text + ":"@ + "\n"@,
                    ..st
                };
                match sp_match(s, c1, TokenType::Ident) {
                    Err(e) => Err(e),
                    Ok(c2) => sp_statement_end(s, c2, st1),
                }
            },
        }
    } else if k == TokenType::Goto {
        match cursor_advance(s, cu) {
            Err(e) => Err(e),
            Ok(c1) => {
                let st1 = PState {
                    labels_gotoed: st.labels_gotoed.push(c1.cur.text),
                    body: st.body + "goto "@ + c1.cur.text + ";"@ + "\n"@,
                    ..st
                };
                match sp_match(s, c1, TokenType::Ident) {
                    Err(e) => Err(e),
                    Ok(c2) => sp_statement_end(s, c2, st1),
                }
            },
        }
    } else if k == TokenType::Let {
        match cursor_advance(s, cu) {
            Err(e) => Err(e),
            Ok(c1) => {
                let st1 = if st.symbols.contains(c1.cur.text) {
                    st
                } else {
                    PState {
                        symbols: st.symbols.push(c1.cur.text),
                        header: st.header + "float "@ + c1.cur.text + ";"@ + "\n"@,
                        ..st
                    }
                };
                let st2 = with_body(st1, c1.cur.text + " = "@);
                match sp_match(s, c1, TokenType::Ident) {
                    Err(e) => Err(e),
                    Ok(c2) => match sp_match(s, c2, TokenType::Assign) {
                        Err(e) => Err(e),
                        Ok(c3) => match sp_expression(s, c3, st2) {
                            Err(e) => Err(e),
                            Ok(r) => sp_statement_end(s, r.0, with_body(r.1, ";"@ + "\n"@)),
                        },
                    },
                }
            },
        }
    } else if k == TokenType::Input {
        match cursor_advance(s, cu) {
            Err(e) => Err(e),
            Ok(c1) => {
                let st1 = if st.symbols.contains(c1.cur.text) {
                    st
                } else {
                    PState {
                        symbols: st.symbols.push(c1.cur.text),
                        header: st.header + "float "@ + c1.cur.text + ";"@ + "\n"@,
                        ..st
                    }
                };
                let st2 = with_body(
                    st1,
                    "if (0 == scanf(\"%f\", &"@ + c1.cur.text + ")) {"@ + "\n"@ + c1.cur.text
                        + " = 0;"@ + "\n"@ + "scanf(\"%*s\");"@ + "\n"@ + "}"@ + "\n"@,
                );
                match sp_match(s, c1, TokenType::Ident) {
                    Err(e) => Err(e),
                    Ok(c2) => sp_statement_end(s, c2, st2),
                }
            },
        }
    } else {
        Err(ErrView::InvalidStatement(k))
    }
}

/// A statement list up to (but not consuming) the given end token.
pub open spec fn sp_block(s: Seq<char>, cu: Cursor, st: PState, end: TokenType) -> Result<
    (Cursor, PState),
    ErrView,
>
    decreases cursor_measure(s, cu), 1int,
    when cursor_wf(s, cu)
    via sp_block_dec
{
    if cu.cur.kind == end {
        Ok((cu, st))
    } else {
        match sp_statement(s, cu, st) {
            Err(e) => Err(e),
            Ok(r) => if cursor_wf(s, r.0) && cursor_measure(s, r.0) < cursor_measure(s, cu) {
                sp_block(s, r.0, r.1, end)
            } else {
                // A parsed statement always consumes at least one token, so
                // this stop is never reached; it keeps the recursion
                // well-founded.
                Ok(r)
            },
        }
    }
}

#[via_fn]
proof fn sp_statement_dec(s: Seq<char>, cu: Cursor, st: PState) {
    lemma_advance(s, cu);
    let k = cu.cur.kind;
    if k == TokenType::If {
        match cursor_advance(s, cu) {
            Err(_) => {},
            Ok(c1) => {
                lemma_comparison_m(s, c1, with_body(st, "if ("@));
                match sp_comparison(s, c1, with_body(st, "if ("@)) {
                    Err(_) => {},
                    Ok(r1) => {
                        lemma_match_m(s, r1.0, TokenType::Then);
                        match sp_match(s, r1.0, TokenType::Then) {
                            Err(_) => {},
                            Ok(c2) => {
                                lemma_nl_m(s, c2);
                            },
                        }
                    },
                }
            },
        }
    } else if k == TokenType::While {
        match cursor_advance(s, cu) {
            Err(_) => {},
            Ok(c1) => {
                lemma_comparison_m(s, c1, with_body(st, "while ("@));
                match sp_comparison(s, c1, with_body(st, "while ("@)) {
                    Err(_) => {},
                    Ok(r1) => {
                        lemma_match_m(s, r1.0, TokenType::Repeat);
                        match sp_match(s, r1.0, TokenType::Repeat) {
                            Err(_) => {},
                            Ok(c2) => {
                                lemma_nl_m(s, c2);
                            },
                        }
                    },
                }
            },
        }
    }
}

#[via_fn]
proof fn sp_block_dec(s: Seq<char>, cu: Cursor, st: PState, end: TokenType) {
}

/// The first jump target, in first-`GOTO` order, that no `LABEL` declares.
pub open spec fn first_undeclared(
    gotoed: Seq<Seq<char>>,
    declared: Seq<Seq<char>>,
) -> Option<Seq<char>>
    decreases gotoed.len(),
{
    if gotoed.len() == 0 {
        None
    } else if !declared.contains(gotoed[0]) {
        Some(gotoed[0])
    } else {
        first_undeclared(gotoed.drop_first(), declared)
    }
}

/// program := { statement }, wrapped in the target preamble and epilogue,
/// followed by the deferred label-target validation — deferred to the end
/// of the program precisely so that forward jumps are legal.
pub open spec fn sp_program(s: Seq<char>, cu: Cursor, st: PState) -> Result<PState, ErrView> {
    let st1 = PState {
        header: st.header + "#include <stdio.h>"@ + "\n"@ + "int main(void) {"@ + "\n"@,
        ..st
    };
    match sp_newline_run(s, cu) {
        Err(e) => Err(e),
        Ok(c1) => match sp_block(s, c1, st1, TokenType::Eof) {
            Err(e) => Err(e),
            Ok(r) => {
                let st2 = with_body(r.1, "return 0;\n}"@ + "\n"@);
                match first_undeclared(st2.labels_gotoed, st2.labels_declared) {
                    Some(l) => Err(ErrView::UndeclaredLabel(l)),
                    None => Ok(st2),
                }
            },
        },
    }
}

proof fn lemma_prefix_refl(a: Seq<char>)
    ensures
        a.is_prefix_of(a),
{
    assert(a =~= a.subrange(0, a.len() as int));
}

proof fn lemma_grows_body(st: PState, t: Seq<char>)
    ensures
        state_grows(st, with_body(st, t)),
{
    lemma_prefix_add(st.body, t);
    lemma_prefix_refl(st.header);
}

proof fn lemma_grows_trans(a: PState, b: PState, c: PState)
    requires
        state_grows(a, b),
        state_grows(b, c),
    ensures
        state_grows(a, c),
{
    lemma_prefix_trans(a.body, b.body, c.body);
    lemma_prefix_trans(a.header, b.header, c.header);
}

proof fn lemma_extends_grows(a: PState, b: PState)
    requires
        state_extends(a, b),
    ensures
        state_grows(a, b),
{
    lemma_prefix_refl(a.header);
}

/// A recognized statement only appends emitted text; and no fault a
/// statement raises is the undeclared-label error — that one arises only
/// from the deferred check at the end of the program.
#[verifier::rlimit(100)]
#[verifier::spinoff_prover]
pub proof fn lemma_statement_effects(s: Seq<char>, cu: Cursor, st: PState)
    requires
        cursor_wf(s, cu),
    ensures
        sp_statement(s, cu, st) matches Ok(r) ==> cursor_wf(s, r.0) && state_grows(st, r.1),
        sp_statement(s, cu, st) matches Ok(r) ==> (cursor_reachable(s, cu) ==> {
            &&& cursor_reachable(s, r.0)
            &&& forall|x: Seq<char>|
                r.1.symbols.contains(x) ==> st.symbols.contains(x) || is_declaration_target(
                    s,
                    x,
                )
        }),
        sp_statement(s, cu, st) matches Err(e) ==> !(e is UndeclaredLabel),
    decreases cursor_measure(s, cu), 0int,
{
    lemma_advance(s, cu);
    lemma_advance_reachable(s, cu);
    let k = cu.cur.kind;
    if k == TokenType::Print || k == TokenType::PrintLn {
        match cursor_advance(s, cu) {
            Err(_) => {},
            Ok(c1) => {
                lemma_advance(s, c1);
                lemma_advance_reachable(s, c1);
                if c1.cur.kind == TokenType::StringLit {
                    let st1 = if k == TokenType::Print {
                        with_body(st, "printf(\""@ + c1.cur.text + "\");"@ + "\n"@)
                    } else {
                        with_body(st, "printf(\""@ + c1.cur.text + "\\n\");"@ + "\n"@)
                    };
                    assert(state_grows(st, st1)) by {
                        lemma_prefix_add(st.body, "printf(\""@ + c1.cur.text + "\");"@ + "\n"@);
                        lemma_prefix_add(st.body, "printf(\""@ + c1.cur.text + "\\n\");"@ + "\n"@);
                        assert(st.body.is_prefix_of(st1.body));
                        lemma_prefix_refl(st.header);
                    }
                    match cursor_advance(s, c1) {
                        Err(_) => {},
                        Ok(c2) => {
                            lemma_nl_m(s, c2);
                        },
                    }
                } else {
                    let st1 = if k == TokenType::Print {
                        with_body(st, "printf(\"%.2f\", (float)("@)
                    } else {
                        with_body(st, "printf(\"%.2f\\n\", (float)("@)
                    };
                    assert(state_grows(st, st1)) by {
                        lemma_prefix_add(st.body, "printf(\"%.2f\", (float)("@);
                        lemma_prefix_add(st.body, "printf(\"%.2f\\n\", (float)("@);
                        lemma_prefix_refl(st.header);
                    }
                    lemma_expression_m(s, c1, st1);
                    match sp_expression(s, c1, st1) {
                        Err(_) => {},
                        Ok(r) => {
                            lemma_extends_grows(st1, r.1);
                            lemma_grows_trans(st, st1, r.1);
                            lemma_grows_body(r.1, "));"@ + "\n"@);
                            lemma_grows_trans(st, r.1, with_body(r.1, "));"@ + "\n"@));
                            lemma_nl_m(s, r.0);
                        },
                    }
                }
            },
        }
    } else if k == TokenType::If || k == TokenType::While {
        match cursor_advance(s, cu) {
            Err(_) => {},
            Ok(c1) => {
                let st1 = if k == TokenType::If {
                    with_body(st, "if ("@)
                } else {
                    with_body(st, "while ("@)
                };
                assert(state_grows(st, st1)) by {
                    lemma_prefix_add(st.body, "if ("@);
                    lemma_prefix_add(st.body, "while ("@);
                    lemma_prefix_refl(st.header);
                }
                lemma_comparison_m(s, c1, st1);
                match sp_comparison(s, c1, st1) {
                    Err(_) => {},
                    Ok(r1) => {
                        lemma_extends_grows(st1, r1.1);
                        lemma_grows_trans(st, st1, r1.1);
                        let kw = if k == TokenType::If {
                            TokenType::Then
                        } else {
                            TokenType::Repeat
                        };
                        lemma_match_m(s, r1.0, kw);
                        match sp_match(s, r1.0, kw) {
                            Err(_) => {},
                            Ok(c2) => {
                                lemma_nl_m(s, c2);
                                match sp_nl(s, c2) {
                                    Err(_) => {},
                                    Ok(c3) => {
                                        let st2 = with_body(r1.1, ") {"@ + "\n"@);
                                        lemma_grows_body(r1.1, ") {"@ + "\n"@);
                                        lemma_grows_trans(st, r1.1, st2);
                                        let endk = if k == TokenType::If {
                                            TokenType::EndIf
                                        } else {
                                            TokenType::EndWhile
                                        };
                                        lemma_block_effects(s, c3, st2, endk);
                                        match sp_block(s, c3, st2, endk) {
                                            Err(_) => {},
                                            Ok(r2) => {
                                                lemma_grows_trans(st, st2, r2.1);
                                                lemma_match_m(s, r2.0, endk);
                                                match sp_match(s, r2.0, endk) {
                                                    Err(_) => {},
                                                    Ok(c4) => {
                                                        lemma_grows_body(r2.1, "}"@ + "\n"@);
                                                        lemma_grows_trans(
                                                            st,
                                                            r2.1,
                                                            with_body(r2.1, "}"@ + "\n"@),
                                                        );
                                                        lemma_nl_m(s, c4);
                                                    },
                                                }
                                            },
                                        }
                                    },
                                }
                            },
                        }
                    },
                }
            },
        }
    } else if k == TokenType::Label {
        match cursor_advance(s, cu) {
            Err(_) => {},
            Ok(c1) => {
                if !st.labels_declared.contains(c1.cur.text) {
                    let st1 = PState {
                        labels_declared: st.labels_declared.push(c1.cur.text),
                        body: st.body + c1.cur.text + ":"@ + "\n"@,
                        ..st
                    };
                    assert(state_grows(st, st1)) by {
                        assert(st.body =~= st1.body.subrange(0, st.body.len() as int));
                        lemma_prefix_refl(st.header);
                    }
                    lemma_match_m(s, c1, TokenType::Ident);
                    match sp_match(s, c1, TokenType::Ident) {
                        Err(_) => {},
                        Ok(c2) => {
                            lemma_nl_m(s, c2);
                        },
                    }
                }
            },
        }
    } else if k == TokenType::Goto {
        match cursor_advance(s, cu) {
            Err(_) => {},
            Ok(c1) => {
                let st1 = PState {
                    labels_gotoed: st.labels_gotoed.push(c1.cur.text),
                    body: st.body + "goto "@ + c1.cur.text + ";"@ + "\n"@,
                    ..st
                };
                assert(state_grows(st, st1)) by {
                    assert(st.body =~= st1.body.subrange(0, st.body.len() as int));
                    lemma_prefix_refl(st.header);
                }
                lemma_match_m(s, c1, TokenType::Ident);
                match sp_match(s, c1, TokenType::Ident) {
                    Err(_) => {},
                    Ok(c2) => {
                        lemma_nl_m(s, c2);
                    },
                }
            },
        }
    } else if k == TokenType::Let {
        match cursor_advance(s, cu) {
            Err(_) => {},
            Ok(c1) => {
                let st1 = if st.symbols.contains(c1.cur.text) {
                    st
                } else {
                    PState {
                        symbols: st.symbols.push(c1.cur.text),
                        header: st.header + "float "@ + c1.cur.text + ";"@ + "\n"@,
                        ..st
                    }
                };
                assert(state_grows(st, st1)) by {
                    lemma_prefix_refl(st.body);
                    lemma_prefix_refl(st.header);
                    assert(st.header =~= st1.header.subrange(0, st.header.len() as int));
                }
                let st2 = with_body(st1, c1.cur.text + " = "@);
                lemma_grows_body(st1, c1.cur.text + " = "@);
                lemma_grows_trans(st, st1, st2);
                assert forall|x: Seq<char>|
                    st1.symbols.contains(x) implies st.symbols.contains(x) || x
                    == c1.cur.text by {
                    if !st.symbols.contains(x) {
                        let i = choose|i: int|
                            0 <= i < st1.symbols.len() && st1.symbols[i] == x;
                        if i < st.symbols.len() {
                            assert(st.symbols[i] == x);
                        }
                    }
                }
                if cursor_reachable(s, cu) && c1.cur.kind == TokenType::Ident {
                    let p = choose|pp: int|
                        0 <= pp <= s.len() && cursor_at(s, pp) == Ok::<Cursor, ErrView>(cu);
                    assert(declares_at(s, p, c1.cur.text));
                    assert(is_declaration_target(s, c1.cur.text));
                }
                lemma_match_m(s, c1, TokenType::Ident);
                match sp_match(s, c1, TokenType::Ident) {
                    Err(_) => {},
                    Ok(c2) => {
                        lemma_match_m(s, c2, TokenType::Assign);
                        match sp_match(s, c2, TokenType::Assign) {
                            Err(_) => {},
                            Ok(c3) => {
                                lemma_expression_m(s, c3, st2);
                                match sp_expression(s, c3, st2) {
                                    Err(_) => {},
                                    Ok(r) => {
                                        lemma_extends_grows(st2, r.1);
                                        lemma_grows_trans(st, st2, r.1);
                                        lemma_grows_body(r.1, ";"@ + "\n"@);
                                        lemma_grows_trans(
                                            st,
                                            r.1,
                                            with_body(r.1, ";"@ + "\n"@),
                                        );
                                        lemma_nl_m(s, r.0);
                                    },
                                }
                            },
                        }
                    },
                }
            },
        }
    } else if k == TokenType::Input {
        match cursor_advance(s, cu) {
            Err(_) => {},
            Ok(c1) => {
                let st1 = if st.symbols.contains(c1.cur.text) {
                    st
                } else {
                    PState {
                        symbols: st.symbols.push(c1.cur.text),
                        header: st.header + "float "@ + c1.cur.text + ";"@ + "\n"@,
                        ..st
                    }
                };
                assert(state_grows(st, st1)) by {
                    lemma_prefix_refl(st.body);
                    lemma_prefix_refl(st.header);
                    assert(st.header =~= st1.header.subrange(0, st.header.len() as int));
                }
                let t2 = "if (0 == scanf(\"%f\", &"@ + c1.cur.text + ")) {"@ + "\n"@
                    + c1.cur.text + " = 0;"@ + "\n"@ + "scanf(\"%*s\");"@ + "\n"@ + "}"@
                    + "\n"@;
                lemma_grows_body(st1, t2);
                lemma_grows_trans(st, st1, with_body(st1, t2));
                assert forall|x: Seq<char>|
                    st1.symbols.contains(x) implies st.symbols.contains(x) || x
                    == c1.cur.text by {
                    if !st.symbols.contains(x) {
                        let i = choose|i: int|
                            0 <= i < st1.symbols.len() && st1.symbols[i] == x;
                        if i < st.symbols.len() {
                            assert(st.symbols[i] == x);
                        }
                    }
                }
                if cursor_reachable(s, cu) && c1.cur.kind == TokenType::Ident {
                    let p = choose|pp: int|
                        0 <= pp <= s.len() && cursor_at(s, pp) == Ok::<Cursor, ErrView>(cu);
                    assert(declares_at(s, p, c1.cur.text));
                    assert(is_declaration_target(s, c1.cur.text));
                }
                lemma_match_m(s, c1, TokenType::Ident);
                match sp_match(s, c1, TokenType::Ident) {
                    Err(_) => {},
                    Ok(c2) => {
                        lemma_nl_m(s, c2);
                    },
                }
            },
        }
    }
}

/// A statement list only appends emitted text, and none of its faults is
/// the undeclared-label error.
pub proof fn lemma_block_effects(s: Seq<char>, cu: Cursor, st: PState, end: TokenType)
    requires
        cursor_wf(s, cu),
    ensures
        sp_block(s, cu, st, end) matches Ok(r) ==> cursor_wf(s, r.0) && state_grows(st, r.1),
        sp_block(s, cu, st, end) matches Ok(r) ==> (cursor_reachable(s, cu) ==> {
            &&& cursor_reachable(s, r.0)
            &&& forall|x: Seq<char>|
                r.1.symbols.contains(x) ==> st.symbols.contains(x) || is_declaration_target(
                    s,
                    x,
                )
        }),
        sp_block(s, cu, st, end) matches Err(e) ==> !(e is UndeclaredLabel),
    decreases cursor_measure(s, cu), 1int,
{
    if cu.cur.kind == end {
        lemma_prefix_refl(st.body);
        lemma_prefix_refl(st.header);
    } else {
        lemma_statement_effects(s, cu, st);
        match sp_statement(s, cu, st) {
            Err(_) => {},
            Ok(r) => {
                lemma_prefix_refl(r.1.body);
                lemma_prefix_refl(r.1.header);
                if cursor_wf(s, r.0) && cursor_measure(s, r.0) < cursor_measure(s, cu) {
                    lemma_block_effects(s, r.0, r.1, end);
                    match sp_block(s, r.0, r.1, end) {
                        Err(_) => {},
                        Ok(rr) => {
                            lemma_grows_trans(st, r.1, rr.1);
                        },
                    }
                }
            },
        }
    }
}

pub proof fn lemma_first_undeclared_hit(g: Seq<Seq<char>>, d: Seq<Seq<char>>, k: int)
    requires
        0 <= k < g.len(),
        forall|j: int| 0 <= j < k ==> d.contains(#[trigger] g[j]),
        !d.contains(g[k]),
    ensures
        first_undeclared(g, d) == Some(g[k]),
    decreases k,
{
    if k > 0 {
        lemma_first_undeclared_hit(g.drop_first(), d, k - 1);
    }
}

pub proof fn lemma_first_undeclared_none(g: Seq<Seq<char>>, d: Seq<Seq<char>>)
    requires
        forall|j: int| 0 <= j < g.len() ==> d.contains(#[trigger] g[j]),
    ensures
        first_undeclared(g, d) == None::<Seq<char>>,
    decreases g.len(),
{
    if g.len() > 0 {
        lemma_first_undeclared_none(g.drop_first(), d);
    }
}

pub open spec fn init_pstate() -> PState {
    PState {
        header: Seq::<char>::empty(),
        body: Seq::<char>::empty(),
        symbols: Seq::<Seq<char>>::empty(),
        labels_declared: Seq::<Seq<char>>::empty(),
        labels_gotoed: Seq::<Seq<char>>::empty(),
    }
}

/// What translating a source text yields: the emitted header followed by
/// the emitted body, or the first fault. The result is a function of the
/// source text alone.
pub open spec fn translate_spec(input: Seq<char>) -> Result<Seq<char>, ErrView> {
    let s = input + "\n"@;
    match cursor_at(s, 0) {
        Err(e) => Err(e),
        Ok(cu) => match sp_program(s, cu, init_pstate()) {
            Err(e) => Err(e),
            Ok(st) => Ok(st.header + st.body),
        },
    }
}

/// Concatenation of emitted text is associative; used throughout to align
/// piecewise emission with the emitted text the model states.
pub broadcast proof fn lemma_text_add_assoc(a: Seq<char>, b: Seq<char>, c: Seq<char>)
    ensures
        #[trigger] ((a + b) + c) == a + (b + c),
{
    assert((a + b) + c =~= a + (b + c));
}

/// Appending text leaves the existing text as a prefix.
pub proof fn lemma_prefix_add(a: Seq<char>, b: Seq<char>)
    ensures
        a.is_prefix_of(a + b),
{
    assert(a =~= (a + b).subrange(0, a.len() as int));
}

pub proof fn lemma_prefix_trans(a: Seq<char>, b: Seq<char>, c: Seq<char>)
    requires
        a.is_prefix_of(b),
        b.is_prefix_of(c),
    ensures
        a.is_prefix_of(c),
{
    assert forall|i: int| 0 <= i < a.len() implies a[i] == c[i] by {
        assert(a[i] == b.subrange(0, a.len() as int)[i]);
        assert(b[i] == c.subrange(0, b.len() as int)[i]);
    }
    assert(a =~= c.subrange(0, a.len() as int));
}

/// The lexeme views of a list of names.
pub open spec fn names(v: Seq<String>) -> Seq<Seq<char>> {
    v.map_values(|x: String| x@)
}

proof fn lemma_names_push(v: Seq<String>, x: String)
    ensures
        names(v.push(x)) =~= names(v).push(x@),
{
}

/// The recursive-descent parser: it pulls tokens from its lexer on demand,
/// keeps exactly two tokens of lookahead, owns the three validation sets,
/// and emits into its emitter as a side effect of recognizing productions.
pub struct Parser {
    lexer: Lexer,
    emitter: Emitter,
    cur_token: Token,
    peek_token: Token,
    symbols: Vec<String>,
    labels_declared: Vec<String>,
    labels_gotoed: Vec<String>,
}

impl Parser {
    /// The source text being translated.
    pub closed spec fn src(&self) -> Seq<char> {
        self.lexer.src()
    }

    /// The parser's window onto the token stream.
    pub closed spec fn cursor(&self) -> Cursor {
        Cursor { cur: self.cur_token@, peek: self.peek_token@, pos: self.lexer.pos() }
    }

    /// The grammar-action state: emission regions and validation sets.
    pub closed spec fn pstate(&self) -> PState {
        PState {
            header: self.emitter.header(),
            body: self.emitter.code(),
            symbols: names(self.symbols@),
            labels_declared: names(self.labels_declared@),
            labels_gotoed: names(self.labels_gotoed@),
        }
    }

    pub closed spec fn wf(&self) -> bool {
        self.lexer.wf()
    }

    /// A well-formed parser's cursor stays inside its source.
    pub proof fn lemma_wf_cursor(&self)
        requires
            self.wf(),
        ensures
            cursor_wf(self.src(), self.cursor()),
    {
        self.lexer.lemma_wf_bounds();
    }

    /// Whether any of the stored names has exactly this text.
    #[verifier::loop_isolation(false)]
    fn contains_name(v: &Vec<String>, x: &String) -> (r: bool)
        ensures
            r == names(v@).contains(x@),
    {
        let mut j: usize = 0;
        while j < v.len()
            invariant
                j <= v.len(),
                forall|k: int| 0 <= k < j ==> v@[k]@ != x@,
            decreases v.len() - j,
        {
            if crate::token::str_eq(v[j].as_str(), x.as_str()) {
                proof {
                    assert(names(v@)[j as int] == x@);
                }
                return true;
            }
            j += 1;
        }
        proof {
            assert forall|k: int| 0 <= k < names(v@).len() implies names(v@)[k] != x@ by {
                assert(names(v@)[k] == v@[k]@);
            }
        }
        false
    }

    /// Build a parser over the given lexer and emitter, pulling the first
    /// two tokens to fill the lookahead window.
    pub fn new(lexer: Lexer, emitter: Emitter) -> (r: Result<Parser, CompileError>)
        requires
            lexer.wf(),
        ensures
            match cursor_at(lexer.src(), lexer.pos()) {
                Ok(cu) => r matches Ok(p) && p.wf() && p.src() == lexer.src() && p.cursor() == cu
                    && p.pstate() == (PState {
                    header: emitter.header(),
                    body: emitter.code(),
                    symbols: Seq::<Seq<char>>::empty(),
                    labels_declared: Seq::<Seq<char>>::empty(),
                    labels_gotoed: Seq::<Seq<char>>::empty(),
                }),
                Err(e) => r matches Err(err) && err@ == e,
            },
    {
        let mut lx = lexer;
        let t1 = match lx.get_token() {
            Ok(t) => t,
            Err(e) => {
                return Err(e);
            },
        };
        let t2 = match lx.get_token() {
            Ok(t) => t,
            Err(e) => {
                return Err(e);
            },
        };
        let p = Parser {
            lexer: lx,
            emitter,
            cur_token: t1,
            peek_token: t2,
            symbols: Vec::new(),
            labels_declared: Vec::new(),
            labels_gotoed: Vec::new(),
        };
        proof {
            assert(names(Seq::<String>::empty()) =~= Seq::<Seq<char>>::empty());
            assert(p.symbols@ =~= Seq::<String>::empty());
            assert(p.labels_declared@ =~= Seq::<String>::empty());
            assert(p.labels_gotoed@ =~= Seq::<String>::empty());
        }
        Ok(p)
    }

    /// Whether the current token has the given kind.
    fn check_token(&self, kind: TokenType) -> (r: bool)
        ensures
            r == (self.cursor().cur.kind == kind),
    {
        kind == self.cur_token.kind
    }

    /// Advance to the next token: the lookahead becomes current and the
    /// lexer supplies a fresh lookahead.
    fn next_token(&mut self) -> (r: Result<(), CompileError>)
        requires
            old(self).wf(),
        ensures
            final(self).wf(),
            final(self).src() == old(self).src(),
            final(self).pstate() == old(self).pstate(),
            match cursor_advance(old(self).src(), old(self).cursor()) {
                Ok(c2) => r is Ok && final(self).cursor() == c2,
                Err(e) => r matches Err(err) && err@ == e,
            },
    {
        let t = match self.lexer.get_token() {
            Ok(t) => t,
            Err(e) => {
                return Err(e);
            },
        };
        let mut prev = t;
        core::mem::swap(&mut self.peek_token, &mut prev);
        self.cur_token = prev;
        Ok(())
    }

    /// Demand a token of the given kind and consume it.
    fn match_token(&mut self, kind: TokenType) -> (r: Result<(), CompileError>)
        requires
            old(self).wf(),
        ensures
            final(self).wf(),
            final(self).src() == old(self).src(),
            final(self).pstate() == old(self).pstate(),
            match sp_match(old(self).src(), old(self).cursor(), kind) {
                Ok(c2) => r is Ok && final(self).cursor() == c2,
                Err(e) => r matches Err(err) && err@ == e,
            },
    {
        if !self.check_token(kind) {
            return Err(CompileError::Expected { expected: kind, got: self.cur_token.kind });
        }
        self.next_token()
    }

    /// Whether the current token is one of the six comparison operators.
    fn is_comparison_operator(&self) -> (r: bool)
        ensures
            r == is_comparison_kind(self.cursor().cur.kind),
    {
        match self.cur_token.kind {
            TokenType::Gt => true,
            TokenType::GtEq => true,
            TokenType::Lt => true,
            TokenType::LtEq => true,
            TokenType::EqEq => true,
            TokenType::NotEq => true,
            _ => false,
        }
    }

    /// primary := NUMBER | IDENT: re-emit the lexeme verbatim; an
    /// identifier not yet declared by `LET` or `INPUT` is a semantic
    /// error naming it.
    fn primary(&mut self) -> (r: Result<(), CompileError>)
        requires
            old(self).wf(),
        ensures
            final(self).wf(),
            final(self).src() == old(self).src(),
            match sp_primary(old(self).src(), old(self).cursor(), old(self).pstate()) {
                Ok(res) => r is Ok && final(self).cursor() == res.0 && final(self).pstate()
                    == res.1,
                Err(e) => r matches Err(err) && err@ == e,
            },
    {
        if self.check_token(TokenType::Number) {
            let text = self.cur_token.text.clone();
            self.emitter.emit(text.as_str());
            self.next_token()
        } else if self.check_token(TokenType::Ident) {
            if !Self::contains_name(&self.symbols, &self.cur_token.text) {
                return Err(CompileError::UndeclaredVariable(self.cur_token.text.clone()));
            }
            let text = self.cur_token.text.clone();
            self.emitter.emit(text.as_str());
            self.next_token()
        } else {
            Err(CompileError::UnexpectedPrimary(self.cur_token.text.clone()))
        }
    }

    /// unary := [ "+" | "-" ] primary: an optional sign, re-emitted
    /// verbatim.
    fn unary(&mut self) -> (r: Result<(), CompileError>)
        requires
            old(self).wf(),
        ensures
            final(self).wf(),
            final(self).src() == old(self).src(),
            match sp_unary(old(self).src(), old(self).cursor(), old(self).pstate()) {
                Ok(res) => r is Ok && final(self).cursor() == res.0 && final(self).pstate()
                    == res.1,
                Err(e) => r matches Err(err) && err@ == e,
            },
    {
        if self.check_token(TokenType::Plus) || self.check_token(TokenType::Minus) {
            let text = self.cur_token.text.clone();
            self.emitter.emit(text.as_str());
            match self.next_token() {
                Err(e) => {
                    return Err(e);
                },
                Ok(_) => {},
            }
        }
        self.primary()
    }

    /// term := unary { ("*" | "/") unary }.
    #[verifier::loop_isolation(false)]
    fn term(&mut self) -> (r: Result<(), CompileError>)
        requires
            old(self).wf(),
        ensures
            final(self).wf(),
            final(self).src() == old(self).src(),
            match sp_term(old(self).src(), old(self).cursor(), old(self).pstate()) {
                Ok(res) => r is Ok && final(self).cursor() == res.0 && final(self).pstate()
                    == res.1,
                Err(e) => r matches Err(err) && err@ == e,
            },
    {
        match self.unary() {
            Err(e) => {
                return Err(e);
            },
            Ok(_) => {},
        }
        while self.check_token(TokenType::Asterisk) || self.check_token(TokenType::Slash)
            invariant
                self.wf(),
                self.src() == old(self).src(),
                sp_term_more(self.src(), self.cursor(), self.pstate()) == sp_term(
                    old(self).src(),
                    old(self).cursor(),
                    old(self).pstate(),
                ),
            decreases cursor_measure(self.src(), self.cursor()),
        {
            proof {
                self.lemma_wf_cursor();
                lemma_advance(self.src(), self.cursor());
            }
            let text = self.cur_token.text.clone();
            self.emitter.emit(text.as_str());
            match self.next_token() {
                Err(e) => {
                    return Err(e);
                },
                Ok(_) => {},
            }
            proof {
                self.lemma_wf_cursor();
                lemma_unary_m(self.src(), self.cursor(), self.pstate());
            }
            match self.unary() {
                Err(e) => {
                    return Err(e);
                },
                Ok(_) => {},
            }
        }
        proof {
            self.lemma_wf_cursor();
        }
        Ok(())
    }

    /// expression := term { ("+" | "-") term }.
    #[verifier::loop_isolation(false)]
    fn expression(&mut self) -> (r: Result<(), CompileError>)
        requires
            old(self).wf(),
        ensures
            final(self).wf(),
            final(self).src() == old(self).src(),
            match sp_expression(old(self).src(), old(self).cursor(), old(self).pstate()) {
                Ok(res) => r is Ok && final(self).cursor() == res.0 && final(self).pstate()
                    == res.1,
                Err(e) => r matches Err(err) && err@ == e,
            },
    {
        match self.term() {
            Err(e) => {
                return Err(e);
            },
            Ok(_) => {},
        }
        while self.check_token(TokenType::Plus) || self.check_token(TokenType::Minus)
            invariant
                self.wf(),
                self.src() == old(self).src(),
                sp_expression_more(self.src(), self.cursor(), self.pstate()) == sp_expression(
                    old(self).src(),
                    old(self).cursor(),
                    old(self).pstate(),
                ),
            decreases cursor_measure(self.src(), self.cursor()),
        {
            proof {
                self.lemma_wf_cursor();
                lemma_advance(self.src(), self.cursor());
            }
            let text = self.cur_token.text.clone();
            self.emitter.emit(text.as_str());
            match self.next_token() {
                Err(e) => {
                    return Err(e);
                },
                Ok(_) => {},
            }
            proof {
                self.lemma_wf_cursor();
                lemma_term_m(self.src(), self.cursor(), self.pstate());
            }
            match self.term() {
                Err(e) => {
                    return Err(e);
                },
                Ok(_) => {},
            }
        }
        proof {
            self.lemma_wf_cursor();
        }
        Ok(())
    }

    /// comparison := expression comparisonOp expression { comparisonOp
    /// expression }: at least one comparison operator is mandatory.
    #[verifier::loop_isolation(false)]
    fn comparison(&mut self) -> (r: Result<(), CompileError>)
        requires
            old(self).wf(),
        ensures
            final(self).wf(),
            final(self).src() == old(self).src(),
            match sp_comparison(old(self).src(), old(self).cursor(), old(self).pstate()) {
                Ok(res) => r is Ok && final(self).cursor() == res.0 && final(self).pstate()
                    == res.1,
                Err(e) => r matches Err(err) && err@ == e,
            },
    {
        match self.expression() {
            Err(e) => {
                return Err(e);
            },
            Ok(_) => {},
        }
        if self.is_comparison_operator() {
            proof {
                self.lemma_wf_cursor();
                lemma_advance(self.src(), self.cursor());
            }
            let text = self.cur_token.text.clone();
            self.emitter.emit(text.as_str());
            match self.next_token() {
                Err(e) => {
                    return Err(e);
                },
                Ok(_) => {},
            }
            match self.expression() {
                Err(e) => {
                    return Err(e);
                },
                Ok(_) => {},
            }
        } else {
            return Err(CompileError::ExpectedComparisonOperator(self.cur_token.text.clone()));
        }
        while self.is_comparison_operator()
            invariant
                self.wf(),
                self.src() == old(self).src(),
                sp_comparison_more(self.src(), self.cursor(), self.pstate()) == sp_comparison(
                    old(self).src(),
                    old(self).cursor(),
                    old(self).pstate(),
                ),
            decreases cursor_measure(self.src(), self.cursor()),
        {
            proof {
                self.lemma_wf_cursor();
                lemma_advance(self.src(), self.cursor());
            }
            let text = self.cur_token.text.clone();
            self.emitter.emit(text.as_str());
            match self.next_token() {
                Err(e) => {
                    return Err(e);
                },
                Ok(_) => {},
            }
            proof {
                self.lemma_wf_cursor();
                lemma_expression_m(self.src(), self.cursor(), self.pstate());
            }
            match self.expression() {
                Err(e) => {
                    return Err(e);
                },
                Ok(_) => {},
            }
        }
        proof {
            self.lemma_wf_cursor();
        }
        Ok(())
    }

    /// nl := NEWLINE { NEWLINE }: one mandatory newline terminator, then
    /// any run of further newlines.
    #[verifier::loop_isolation(false)]
    fn nl(&mut self) -> (r: Result<(), CompileError>)
        requires
            old(self).wf(),
        ensures
            final(self).wf(),
            final(self).src() == old(self).src(),
            final(self).pstate() == old(self).pstate(),
            match sp_nl(old(self).src(), old(self).cursor()) {
                Ok(c2) => r is Ok && final(self).cursor() == c2,
                Err(e) => r matches Err(err) && err@ == e,
            },
    {
        match self.match_token(TokenType::Newline) {
            Err(e) => {
                return Err(e);
            },
            Ok(_) => {},
        }
        while self.check_token(TokenType::Newline)
            invariant
                self.wf(),
                self.src() == old(self).src(),
                self.pstate() == old(self).pstate(),
                sp_newline_run(self.src(), self.cursor()) == sp_nl(
                    old(self).src(),
                    old(self).cursor(),
                ),
            decreases cursor_measure(self.src(), self.cursor()),
        {
            proof {
                self.lemma_wf_cursor();
                lemma_advance(self.src(), self.cursor());
            }
            match self.next_token() {
                Err(e) => {
                    return Err(e);
                },
                Ok(_) => {},
            }
        }
        proof {
            self.lemma_wf_cursor();
        }
        Ok(())
    }

    /// PRINT / PRINTLN: a string literal becomes a literal formatted
    /// print; anything else is emitted as a formatted numeric print. The
    /// LN variant appends a line break inside the format string.
    #[verifier::loop_isolation(false)]
    #[verifier::rlimit(60)]
    #[verifier::spinoff_prover]
    fn statement_print(&mut self) -> (r: Result<(), CompileError>)
        requires
            old(self).wf(),
            old(self).cursor().cur.kind == TokenType::Print || old(self).cursor().cur.kind
                == TokenType::PrintLn,
        ensures
            final(self).wf(),
            final(self).src() == old(self).src(),
            match sp_statement(old(self).src(), old(self).cursor(), old(self).pstate()) {
                Ok(res) => r is Ok && final(self).cursor() == res.0 && final(self).pstate()
                    == res.1,
                Err(e) => r matches Err(err) && err@ == e,
            },
            r is Ok ==> cursor_measure(old(self).src(), final(self).cursor()) < cursor_measure(
                old(self).src(),
                old(self).cursor(),
            ),
        decreases cursor_measure(old(self).src(), old(self).cursor()), 0int,
    {
        broadcast use lemma_text_add_assoc;

        proof {
            self.lemma_wf_cursor();
            lemma_advance(self.src(), self.cursor());
        }
        let ghost s = self.src();
        let k = self.cur_token.kind;
        let is_ln = k == TokenType::PrintLn;
        match self.next_token() {
            Err(e) => {
                return Err(e);
            },
            Ok(_) => {},
        }
        if self.check_token(TokenType::StringLit) {
            let mut out = String::from_str("printf(\"");
            out.append(self.cur_token.text.as_str());
            if is_ln {
                out.append("\\n\");");
            } else {
                out.append("\");");
            }
            self.emitter.emit_line(out.as_str());
            proof {
                self.lemma_wf_cursor();
                lemma_advance(s, self.cursor());
            }
            match self.next_token() {
                Err(e) => {
                    return Err(e);
                },
                Ok(_) => {},
            }
        } else {
            if is_ln {
                self.emitter.emit("printf(\"%.2f\\n\", (float)(");
            } else {
                self.emitter.emit("printf(\"%.2f\", (float)(");
            }
            proof {
                self.lemma_wf_cursor();
                lemma_expression_m(s, self.cursor(), self.pstate());
            }
            match self.expression() {
                Err(e) => {
                    return Err(e);
                },
                Ok(_) => {},
            }
            self.emitter.emit_line("));");
        }
        proof {
            self.lemma_wf_cursor();
            lemma_nl_m(s, self.cursor());
        }
        match self.nl() {
            Err(e) => {
                return Err(e);
            },
            Ok(_) => {},
        }
        Ok(())
    }

    /// IF comparison THEN nl { statement } ENDIF, emitted as a C `if`
    /// block; nesting is handled by recursion.
    #[verifier::loop_isolation(false)]
    #[verifier::rlimit(100)]
    #[verifier::spinoff_prover]
    fn statement_if(&mut self) -> (r: Result<(), CompileError>)
        requires
            old(self).wf(),
            old(self).cursor().cur.kind == TokenType::If,
        ensures
            final(self).wf(),
            final(self).src() == old(self).src(),
            match sp_statement(old(self).src(), old(self).cursor(), old(self).pstate()) {
                Ok(res) => r is Ok && final(self).cursor() == res.0 && final(self).pstate()
                    == res.1,
                Err(e) => r matches Err(err) && err@ == e,
            },
            r is Ok ==> cursor_measure(old(self).src(), final(self).cursor()) < cursor_measure(
                old(self).src(),
                old(self).cursor(),
            ),
        decreases cursor_measure(old(self).src(), old(self).cursor()), 0int,
    {
        broadcast use lemma_text_add_assoc;

        proof {
            self.lemma_wf_cursor();
            lemma_advance(self.src(), self.cursor());
        }
        let ghost s = self.src();
        let ghost cu0 = self.cursor();
        match self.next_token() {
            Err(e) => {
                return Err(e);
            },
            Ok(_) => {},
        }
        self.emitter.emit("if (");
        proof {
            self.lemma_wf_cursor();
            lemma_comparison_m(s, self.cursor(), self.pstate());
        }
        match self.comparison() {
            Err(e) => {
                return Err(e);
            },
            Ok(_) => {},
        }
        proof {
            self.lemma_wf_cursor();
            lemma_match_m(s, self.cursor(), TokenType::Then);
        }
        match self.match_token(TokenType::Then) {
            Err(e) => {
                return Err(e);
            },
            Ok(_) => {},
        }
        proof {
            self.lemma_wf_cursor();
            lemma_nl_m(s, self.cursor());
        }
        match self.nl() {
            Err(e) => {
                return Err(e);
            },
            Ok(_) => {},
        }
        self.emitter.emit_line(") {");
        let ghost cb = self.cursor();
        let ghost stb = self.pstate();
        while !self.check_token(TokenType::EndIf)
            invariant
                self.wf(),
                self.src() == s,
                cursor_measure(s, self.cursor()) < cursor_measure(s, cu0),
                sp_block(s, self.cursor(), self.pstate(), TokenType::EndIf) == sp_block(
                    s,
                    cb,
                    stb,
                    TokenType::EndIf,
                ),
            decreases cursor_measure(s, self.cursor()),
        {
            proof {
                self.lemma_wf_cursor();
            }
            match self.statement() {
                Err(e) => {
                    return Err(e);
                },
                Ok(_) => {},
            }
            proof {
                self.lemma_wf_cursor();
            }
        }
        proof {
            self.lemma_wf_cursor();
            lemma_match_m(s, self.cursor(), TokenType::EndIf);
        }
        match self.match_token(TokenType::EndIf) {
            Err(e) => {
                return Err(e);
            },
            Ok(_) => {},
        }
        self.emitter.emit_line("}");
        proof {
            self.lemma_wf_cursor();
            lemma_nl_m(s, self.cursor());
        }
        match self.nl() {
            Err(e) => {
                return Err(e);
            },
            Ok(_) => {},
        }
        Ok(())
    }

    /// WHILE comparison REPEAT nl { statement } ENDWHILE, emitted as a C
    /// `while` block.
    #[verifier::loop_isolation(false)]
    #[verifier::rlimit(100)]
    #[verifier::spinoff_prover]
    fn statement_while(&mut self) -> (r: Result<(), CompileError>)
        requires
            old(self).wf(),
            old(self).cursor().cur.kind == TokenType::While,
        ensures
            final(self).wf(),
            final(self).src() == old(self).src(),
            match sp_statement(old(self).src(), old(self).cursor(), old(self).pstate()) {
                Ok(res) => r is Ok && final(self).cursor() == res.0 && final(self).pstate()
                    == res.1,
                Err(e) => r matches Err(err) && err@ == e,
            },
            r is Ok ==> cursor_measure(old(self).src(), final(self).cursor()) < cursor_measure(
                old(self).src(),
                old(self).cursor(),
            ),
        decreases cursor_measure(old(self).src(), old(self).cursor()), 0int,
    {
        broadcast use lemma_text_add_assoc;

        proof {
            self.lemma_wf_cursor();
            lemma_advance(self.src(), self.cursor());
        }
        let ghost s = self.src();
        let ghost cu0 = self.cursor();
        match self.next_token() {
            Err(e) => {
                return Err(e);
            },
            Ok(_) => {},
        }
        self.emitter.emit("while (");
        proof {
            self.lemma_wf_cursor();
            lemma_comparison_m(s, self.cursor(), self.pstate());
        }
        match self.comparison() {
            Err(e) => {
                return Err(e);
            },
            Ok(_) => {},
        }
        proof {
            self.lemma_wf_cursor();
            lemma_match_m(s, self.cursor(), TokenType::Repeat);
        }
        match self.match_token(TokenType::Repeat) {
            Err(e) => {
                return Err(e);
            },
            Ok(_) => {},
        }
        proof {
            self.lemma_wf_cursor();
            lemma_nl_m(s, self.cursor());
        }
        match self.nl() {
            Err(e) => {
                return Err(e);
            },
            Ok(_) => {},
        }
        self.emitter.emit_line(") {");
        let ghost cb = self.cursor();
        let ghost stb = self.pstate();
        while !self.check_token(TokenType::EndWhile)
            invariant
                self.wf(),
                self.src() == s,
                cursor_measure(s, self.cursor()) < cursor_measure(s, cu0),
                sp_block(s, self.cursor(), self.pstate(), TokenType::EndWhile)
                    == sp_block(s, cb, stb, TokenType::EndWhile),
            decreases cursor_measure(s, self.cursor()),
        {
            proof {
                self.lemma_wf_cursor();
            }
            match self.statement() {
                Err(e) => {
                    return Err(e);
                },
                Ok(_) => {},
            }
            proof {
                self.lemma_wf_cursor();
            }
        }
        proof {
            self.lemma_wf_cursor();
            lemma_match_m(s, self.cursor(), TokenType::EndWhile);
        }
        match self.match_token(TokenType::EndWhile) {
            Err(e) => {
                return Err(e);
            },
            Ok(_) => {},
        }
        self.emitter.emit_line("}");
        proof {
            self.lemma_wf_cursor();
            lemma_nl_m(s, self.cursor());
        }
        match self.nl() {
            Err(e) => {
                return Err(e);
            },
            Ok(_) => {},
        }
        Ok(())
    }

    /// LABEL ident: declaring the same label twice is a semantic error;
    /// the label marker is emitted in place.
    #[verifier::loop_isolation(false)]
    #[verifier::rlimit(60)]
    #[verifier::spinoff_prover]
    fn statement_label(&mut self) -> (r: Result<(), CompileError>)
        requires
            old(self).wf(),
            old(self).cursor().cur.kind == TokenType::Label,
        ensures
            final(self).wf(),
            final(self).src() == old(self).src(),
            match sp_statement(old(self).src(), old(self).cursor(), old(self).pstate()) {
                Ok(res) => r is Ok && final(self).cursor() == res.0 && final(self).pstate()
                    == res.1,
                Err(e) => r matches Err(err) && err@ == e,
            },
            r is Ok ==> cursor_measure(old(self).src(), final(self).cursor()) < cursor_measure(
                old(self).src(),
                old(self).cursor(),
            ),
        decreases cursor_measure(old(self).src(), old(self).cursor()), 0int,
    {
        broadcast use lemma_text_add_assoc;

        proof {
            self.lemma_wf_cursor();
            lemma_advance(self.src(), self.cursor());
        }
        let ghost s = self.src();
        match self.next_token() {
            Err(e) => {
                return Err(e);
            },
            Ok(_) => {},
        }
        if Self::contains_name(&self.labels_declared, &self.cur_token.text) {
            return Err(CompileError::DuplicateLabel(self.cur_token.text.clone()));
        }
        let name = self.cur_token.text.clone();
        proof {
            lemma_names_push(self.labels_declared@, name);
        }
        self.labels_declared.push(name);
        let mut out = self.cur_token.text.clone();
        out.append(":");
        self.emitter.emit_line(out.as_str());
        proof {
            self.lemma_wf_cursor();
            lemma_match_m(s, self.cursor(), TokenType::Ident);
        }
        match self.match_token(TokenType::Ident) {
            Err(e) => {
                return Err(e);
            },
            Ok(_) => {},
        }
        proof {
            self.lemma_wf_cursor();
            lemma_nl_m(s, self.cursor());
        }
        match self.nl() {
            Err(e) => {
                return Err(e);
            },
            Ok(_) => {},
        }
        Ok(())
    }

    /// GOTO ident: the target is recorded unconditionally and validated
    /// only at the end of the program, so forward jumps are legal.
    #[verifier::loop_isolation(false)]
    #[verifier::rlimit(60)]
    #[verifier::spinoff_prover]
    fn statement_goto(&mut self) -> (r: Result<(), CompileError>)
        requires
            old(self).wf(),
            old(self).cursor().cur.kind == TokenType::Goto,
        ensures
            final(self).wf(),
            final(self).src() == old(self).src(),
            match sp_statement(old(self).src(), old(self).cursor(), old(self).pstate()) {
                Ok(res) => r is Ok && final(self).cursor() == res.0 && final(self).pstate()
                    == res.1,
                Err(e) => r matches Err(err) && err@ == e,
            },
            r is Ok ==> cursor_measure(old(self).src(), final(self).cursor()) < cursor_measure(
                old(self).src(),
                old(self).cursor(),
            ),
        decreases cursor_measure(old(self).src(), old(self).cursor()), 0int,
    {
        broadcast use lemma_text_add_assoc;

        proof {
            self.lemma_wf_cursor();
            lemma_advance(self.src(), self.cursor());
        }
        let ghost s = self.src();
        match self.next_token() {
            Err(e) => {
                return Err(e);
            },
            Ok(_) => {},
        }
        let name = self.cur_token.text.clone();
        proof {
            lemma_names_push(self.labels_gotoed@, name);
        }
        self.labels_gotoed.push(name);
        let mut out = String::from_str("goto ");
        out.append(self.cur_token.text.as_str());
        out.append(";");
        self.emitter.emit_line(out.as_str());
        proof {
            self.lemma_wf_cursor();
            lemma_match_m(s, self.cursor(), TokenType::Ident);
        }
        match self.match_token(TokenType::Ident) {
            Err(e) => {
                return Err(e);
            },
            Ok(_) => {},
        }
        proof {
            self.lemma_wf_cursor();
            lemma_nl_m(s, self.cursor());
        }
        match self.nl() {
            Err(e) => {
                return Err(e);
            },
            Ok(_) => {},
        }
        Ok(())
    }

    /// LET ident = expression: first sight of the identifier registers
    /// it and emits its declaration in the header exactly once.
    #[verifier::loop_isolation(false)]
    #[verifier::rlimit(60)]
    #[verifier::spinoff_prover]
    fn statement_let(&mut self) -> (r: Result<(), CompileError>)
        requires
            old(self).wf(),
            old(self).cursor().cur.kind == TokenType::Let,
        ensures
            final(self).wf(),
            final(self).src() == old(self).src(),
            match sp_statement(old(self).src(), old(self).cursor(), old(self).pstate()) {
                Ok(res) => r is Ok && final(self).cursor() == res.0 && final(self).pstate()
                    == res.1,
                Err(e) => r matches Err(err) && err@ == e,
            },
            r is Ok ==> cursor_measure(old(self).src(), final(self).cursor()) < cursor_measure(
                old(self).src(),
                old(self).cursor(),
            ),
        decreases cursor_measure(old(self).src(), old(self).cursor()), 0int,
    {
        broadcast use lemma_text_add_assoc;

        proof {
            self.lemma_wf_cursor();
            lemma_advance(self.src(), self.cursor());
        }
        let ghost s = self.src();
        match self.next_token() {
            Err(e) => {
                return Err(e);
            },
            Ok(_) => {},
        }
        if !Self::contains_name(&self.symbols, &self.cur_token.text) {
            let name = self.cur_token.text.clone();
            proof {
                lemma_names_push(self.symbols@, name);
            }
            self.symbols.push(name);
            let mut decl = String::from_str("float ");
            decl.append(self.cur_token.text.as_str());
            decl.append(";");
            self.emitter.header_line(decl.as_str());
        }
        let text = self.cur_token.text.clone();
        self.emitter.emit(text.as_str());
        self.emitter.emit(" = ");
        proof {
            self.lemma_wf_cursor();
            lemma_match_m(s, self.cursor(), TokenType::Ident);
        }
        match self.match_token(TokenType::Ident) {
            Err(e) => {
                return Err(e);
            },
            Ok(_) => {},
        }
        proof {
            self.lemma_wf_cursor();
            lemma_match_m(s, self.cursor(), TokenType::Assign);
        }
        match self.match_token(TokenType::Assign) {
            Err(e) => {
                return Err(e);
            },
            Ok(_) => {},
        }
        proof {
            self.lemma_wf_cursor();
            lemma_expression_m(s, self.cursor(), self.pstate());
        }
        match self.expression() {
            Err(e) => {
                return Err(e);
            },
            Ok(_) => {},
        }
        self.emitter.emit_line(";");
        proof {
            self.lemma_wf_cursor();
            lemma_nl_m(s, self.cursor());
        }
        match self.nl() {
            Err(e) => {
                return Err(e);
            },
            Ok(_) => {},
        }
        Ok(())
    }

    /// INPUT ident: registers the identifier like LET and emits a
    /// guarded scanf read.
    #[verifier::loop_isolation(false)]
    #[verifier::rlimit(60)]
    #[verifier::spinoff_prover]
    fn statement_input(&mut self) -> (r: Result<(), CompileError>)
        requires
            old(self).wf(),
            old(self).cursor().cur.kind == TokenType::Input,
        ensures
            final(self).wf(),
            final(self).src() == old(self).src(),
            match sp_statement(old(self).src(), old(self).cursor(), old(self).pstate()) {
                Ok(res) => r is Ok && final(self).cursor() == res.0 && final(self).pstate()
                    == res.1,
                Err(e) => r matches Err(err) && err@ == e,
            },
            r is Ok ==> cursor_measure(old(self).src(), final(self).cursor()) < cursor_measure(
                old(self).src(),
                old(self).cursor(),
            ),
        decreases cursor_measure(old(self).src(), old(self).cursor()), 0int,
    {
        broadcast use lemma_text_add_assoc;

        proof {
            self.lemma_wf_cursor();
            lemma_advance(self.src(), self.cursor());
        }
        let ghost s = self.src();
        match self.next_token() {
            Err(e) => {
                return Err(e);
            },
            Ok(_) => {},
        }
        if !Self::contains_name(&self.symbols, &self.cur_token.text) {
            let name = self.cur_token.text.clone();
            proof {
                lemma_names_push(self.symbols@, name);
            }
            self.symbols.push(name);
            let mut decl = String::from_str("float ");
            decl.append(self.cur_token.text.as_str());
            decl.append(";");
            self.emitter.header_line(decl.as_str());
        }
        let text = self.cur_token.text.clone();
        self.emitter.emit("if (0 == scanf(\"%f\", &");
        self.emitter.emit(text.as_str());
        self.emitter.emit_line(")) {");
        self.emitter.emit(text.as_str());
        self.emitter.emit_line(" = 0;");
        self.emitter.emit_line("scanf(\"%*s\");");
        self.emitter.emit_line("}");
        proof {
            self.lemma_wf_cursor();
            lemma_match_m(s, self.cursor(), TokenType::Ident);
        }
        match self.match_token(TokenType::Ident) {
            Err(e) => {
                return Err(e);
            },
            Ok(_) => {},
        }
        proof {
            self.lemma_wf_cursor();
            lemma_nl_m(s, self.cursor());
        }
        match self.nl() {
            Err(e) => {
                return Err(e);
            },
            Ok(_) => {},
        }
        Ok(())
    }

    /// One statement, with its semantic actions, ending with its
    /// mandatory newline terminator. On success the cursor has moved past
    /// at least one token.
    fn statement(&mut self) -> (r: Result<(), CompileError>)
        requires
            old(self).wf(),
        ensures
            final(self).wf(),
            final(self).src() == old(self).src(),
            match sp_statement(old(self).src(), old(self).cursor(), old(self).pstate()) {
                Ok(res) => r is Ok && final(self).cursor() == res.0 && final(self).pstate()
                    == res.1,
                Err(e) => r matches Err(err) && err@ == e,
            },
            r is Ok ==> cursor_measure(old(self).src(), final(self).cursor()) < cursor_measure(
                old(self).src(),
                old(self).cursor(),
            ),
        decreases cursor_measure(old(self).src(), old(self).cursor()), 1int,
    {
        proof {
            self.lemma_wf_cursor();
        }
        match self.cur_token.kind {
            TokenType::Print => self.statement_print(),
            TokenType::PrintLn => self.statement_print(),
            TokenType::If => self.statement_if(),
            TokenType::While => self.statement_while(),
            TokenType::Label => self.statement_label(),
            TokenType::Goto => self.statement_goto(),
            TokenType::Let => self.statement_let(),
            TokenType::Input => self.statement_input(),
            _ => Err(CompileError::InvalidStatement(self.cur_token.kind)),
        }
    }

    /// program := { statement }: emit the target preamble into the header
    /// region, translate every statement until end-of-input, emit the
    /// epilogue, then validate that every jump target was declared —
    /// deferred to here precisely so that forward jumps are legal.
    #[verifier::loop_isolation(false)]
    #[verifier::rlimit(60)]
    #[verifier::spinoff_prover]
    pub fn program(&mut self) -> (r: Result<(), CompileError>)
        requires
            old(self).wf(),
        ensures
            final(self).wf(),
            final(self).src() == old(self).src(),
            match sp_program(old(self).src(), old(self).cursor(), old(self).pstate()) {
                Ok(stf) => r is Ok && final(self).pstate() == stf,
                Err(e) => r matches Err(err) && err@ == e,
            },
    {
        broadcast use lemma_text_add_assoc;

        proof {
            self.lemma_wf_cursor();
        }
        let ghost s = self.src();
        let ghost cu0 = self.cursor();
        let ghost st0 = self.pstate();
        self.emitter.header_line("#include <stdio.h>");
        self.emitter.header_line("int main(void) {");
        while self.check_token(TokenType::Newline)
        invariant
            self.wf(),
            self.src() == s,
            self.pstate() == (PState {
                header: st0.header + "#include <stdio.h>"@ + "\n"@ + "int main(void) {"@
                    + "\n"@,
                ..st0
            }),
            sp_newline_run(s, self.cursor()) == sp_newline_run(s, cu0),
        decreases cursor_measure(s, self.cursor()),
        {
        proof {
            self.lemma_wf_cursor();
            lemma_advance(s, self.cursor());
        }
        match self.next_token() {
            Err(e) => {
                return Err(e);
            },
            Ok(_) => {},
        }
        }
        proof {
        self.lemma_wf_cursor();
        }
        let ghost cb = self.cursor();
        let ghost stb = self.pstate();
        while !self.check_token(TokenType::Eof)
        invariant
            self.wf(),
            self.src() == s,
            sp_block(s, self.cursor(), self.pstate(), TokenType::Eof) == sp_block(
                s,
                cb,
                stb,
                TokenType::Eof,
            ),
        decreases cursor_measure(s, self.cursor()),
        {
        proof {
            self.lemma_wf_cursor();
        }
        match self.statement() {
            Err(e) => {
                return Err(e);
            },
            Ok(_) => {},
        }
        proof {
            self.lemma_wf_cursor();
        }
        }
        proof {
        self.lemma_wf_cursor();
        }
        self.emitter.emit_line("return 0;\n}");
        let ghost gf = self.pstate().labels_gotoed;
        let ghost df = self.pstate().labels_declared;
        let mut k: usize = 0;
        while k < self.labels_gotoed.len()
        invariant
            self.wf(),
            self.src() == s,
            k <= self.labels_gotoed.len(),
            self.pstate().labels_gotoed == gf,
            self.pstate().labels_declared == df,
            forall|j: int| 0 <= j < k ==> df.contains(#[trigger] gf[j]),
        decreases self.labels_gotoed.len() - k,
        {
        if !Self::contains_name(&self.labels_declared, &self.labels_gotoed[k]) {
            proof {
                assert(gf[k as int] == self.labels_gotoed@[k as int]@);
                lemma_first_undeclared_hit(gf, df, k as int);
            }
            return Err(CompileError::UndeclaredLabel(self.labels_gotoed[k].clone()));
        }
        proof {
            assert(gf[k as int] == self.labels_gotoed@[k as int]@);
        }
        k += 1;
        }
        proof {
        lemma_first_undeclared_none(gf, df);
        }
        Ok(())
    }

    /// The finalized output: emitted header followed by emitted body.
    pub fn output(&self) -> (r: String)
        ensures
        r@ == self.pstate().header + self.pstate().body,
    {
        self.emitter.output()
    }
}

/// The single entry point: translate the whole source buffer in one pass
/// and hand back the finalized target text, or the first fault — as data,
/// for the caller to decide what to do with. No output is ever produced
/// for a program with any fault.
pub fn translate(input: &String) -> (r: Result<String, CompileError>)
    ensures
        match translate_spec(input@) {
        Ok(out) => r matches Ok(o) && o@ == out,
        Err(e) => r matches Err(err) && err@ == e,
        },
{
    let lexer = Lexer::new(input);
    let emitter = Emitter::new();
    let mut parser = match Parser::new(lexer, emitter) {
        Ok(p) => p,
        Err(e) => {
        return Err(e);
        },
    };
    match parser.program() {
        Err(e) => {
        return Err(e);
        },
        Ok(_) => {},
    }
    Ok(parser.output())
}

} // verus!
