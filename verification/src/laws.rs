//! Properties of the translation as a whole, stated over the model that
//! the executable pipeline is proved to implement.

use vstd::prelude::*;
use crate::token::TokenType;
use crate::error::ErrView;
use crate::parse::{
    Cursor, PState, cursor_wf, cursor_advance, sp_primary, sp_statement, sp_program,
    sp_newline_run, sp_block, first_undeclared, translate_spec, with_body, state_grows,
    cursor_reachable, is_declaration_target, lemma_newline_run_m, lemma_block_effects,
    lemma_first_undeclared_none,
};

verus! {

/// Translating twice with identical input yields byte-identical output:
/// the result of a translation — the emitted text or the fault — is a
/// function of the source text alone, with no hidden state across runs.
pub proof fn lemma_translate_deterministic(
    input: Seq<char>,
    r1: Result<Seq<char>, ErrView>,
    r2: Result<Seq<char>, ErrView>,
)
    requires
        r1 == translate_spec(input),
        r2 == translate_spec(input),
    ensures
        r1 == r2,
{
}

/// An identifier used in an expression that no earlier `LET` or `INPUT`
/// registered stops the translation with a semantic error naming exactly
/// that identifier.
pub proof fn lemma_undeclared_variable_fails(s: Seq<char>, cu: Cursor, st: PState)
    requires
        cu.cur.kind == TokenType::Ident,
        !st.symbols.contains(cu.cur.text),
    ensures
        sp_primary(s, cu, st) == Err::<(Cursor, PState), ErrView>(
            ErrView::UndeclaredVariable(cu.cur.text),
        ),
{
}

/// Identifiers enter the declared-variable set only as the target of a
/// `LET` or `INPUT` statement of the source. With
/// `lemma_undeclared_variable_fails`, an identifier the source never
/// declares can never be accepted in an expression: its use stops the
/// translation with the semantic error naming it.
pub proof fn lemma_symbols_come_from_declarations(
    s: Seq<char>,
    cu: Cursor,
    st: PState,
    end: TokenType,
    r: (Cursor, PState),
)
    requires
        cursor_wf(s, cu),
        cursor_reachable(s, cu),
        sp_block(s, cu, st, end) == Ok::<(Cursor, PState), ErrView>(r),
    ensures
        forall|x: Seq<char>|
            r.1.symbols.contains(x) ==> st.symbols.contains(x) || is_declaration_target(s, x),
{
    lemma_block_effects(s, cu, st, end);
}

/// Declaring the same `LABEL` name twice is a semantic error naming it.
pub proof fn lemma_duplicate_label_fails(s: Seq<char>, cu: Cursor, st: PState, c1: Cursor)
    requires
        cursor_wf(s, cu),
        cu.cur.kind == TokenType::Label,
        cursor_advance(s, cu) == Ok::<Cursor, ErrView>(c1),
        st.labels_declared.contains(c1.cur.text),
    ensures
        sp_statement(s, cu, st) == Err::<(Cursor, PState), ErrView>(
            ErrView::DuplicateLabel(c1.cur.text),
        ),
{
}

/// A label declared once may be jumped to any number of times, forward or
/// backward: when every recorded jump target is among the declared
/// labels, the deferred label check passes.
pub proof fn lemma_all_targets_declared(g: Seq<Seq<char>>, d: Seq<Seq<char>>)
    requires
        forall|j: int| 0 <= j < g.len() ==> d.contains(#[trigger] g[j]),
    ensures
        first_undeclared(g, d) is None,
{
    lemma_first_undeclared_none(g, d);
}

/// The undeclared-label fault arises only after the whole program has
/// been scanned: when a program fails with it, every statement was
/// recognized to end-of-input, and the fault names the first recorded
/// jump target — in first-`GOTO` order — that no `LABEL` declares.
pub proof fn lemma_label_error_only_after_full_parse(
    s: Seq<char>,
    cu: Cursor,
    st: PState,
    l: Seq<char>,
)
    requires
        cursor_wf(s, cu),
        sp_program(s, cu, st) == Err::<PState, ErrView>(ErrView::UndeclaredLabel(l)),
    ensures
        sp_newline_run(s, cu) matches Ok(c1) && {
            let st1 = PState {
                header: st.header + "#include <stdio.h>"@ + "\n"@ + "int main(void) {"@
                    + "\n"@,
                ..st
            };
            &&& sp_block(s, c1, st1, TokenType::Eof) matches Ok(r)
            &&& first_undeclared(r.1.labels_gotoed, r.1.labels_declared) == Some(l)
        },
{
    lemma_newline_run_m(s, cu);
    let st1 = PState {
        header: st.header + "#include <stdio.h>"@ + "\n"@ + "int main(void) {"@ + "\n"@,
        ..st
    };
    match sp_newline_run(s, cu) {
        Err(_) => {},
        Ok(c1) => {
            lemma_block_effects(s, c1, st1, TokenType::Eof);
        },
    }
}

/// Conversely: once the whole program parses, a recorded jump target that
/// no `LABEL` declares makes the translation fail with exactly that
/// target — the full-program scan happens first, then the check.
pub proof fn lemma_missing_target_fails(
    s: Seq<char>,
    cu: Cursor,
    st: PState,
    c1: Cursor,
    r: (Cursor, PState),
    l: Seq<char>,
)
    requires
        sp_newline_run(s, cu) == Ok::<Cursor, ErrView>(c1),
        ({
            let st1 = PState {
                header: st.header + "#include <stdio.h>"@ + "\n"@ + "int main(void) {"@
                    + "\n"@,
                ..st
            };
            sp_block(s, c1, st1, TokenType::Eof) == Ok::<(Cursor, PState), ErrView>(r)
        }),
        first_undeclared(r.1.labels_gotoed, r.1.labels_declared) == Some(l),
    ensures
        sp_program(s, cu, st) == Err::<PState, ErrView>(ErrView::UndeclaredLabel(l)),
{
}

/// Every numeric lexeme reaches the emitted body with its original
/// characters intact: recognizing a number appends exactly the captured
/// lexeme, nothing reformatted.
pub proof fn lemma_number_lexeme_verbatim(s: Seq<char>, cu: Cursor, st: PState, r: (Cursor, PState))
    requires
        cu.cur.kind == TokenType::Number,
        sp_primary(s, cu, st) == Ok::<(Cursor, PState), ErrView>(r),
    ensures
        r.1.body == st.body + cu.cur.text,
        r.1.header == st.header,
{
}

/// Every printed string lexeme reaches the emitted body with its original
/// characters intact, wrapped in the formatted-print text — and the `LN`
/// variant differs only by the appended line break in the format string.
pub proof fn lemma_string_lexeme_verbatim(
    s: Seq<char>,
    cu: Cursor,
    st: PState,
    c1: Cursor,
    r: (Cursor, PState),
)
    requires
        cursor_wf(s, cu),
        cu.cur.kind == TokenType::Print || cu.cur.kind == TokenType::PrintLn,
        cursor_advance(s, cu) == Ok::<Cursor, ErrView>(c1),
        c1.cur.kind == TokenType::StringLit,
        sp_statement(s, cu, st) == Ok::<(Cursor, PState), ErrView>(r),
    ensures
        cu.cur.kind == TokenType::Print ==> r.1.body == st.body + ("printf(\""@ + c1.cur.text
            + "\");"@ + "\n"@),
        cu.cur.kind == TokenType::PrintLn ==> r.1.body == st.body + ("printf(\""@
            + c1.cur.text + "\\n\");"@ + "\n"@),
        r.1.header == st.header,
{
}

/// Emitted text is never rewritten: whatever a statement list has emitted
/// stays in place, character for character, under every later emission.
/// Together with the verbatim-lexeme facts above, a literal that entered
/// the body is still there, unchanged, in the finalized output.
pub proof fn lemma_emission_append_only(
    s: Seq<char>,
    cu: Cursor,
    st: PState,
    end: TokenType,
    r: (Cursor, PState),
)
    requires
        cursor_wf(s, cu),
        sp_block(s, cu, st, end) == Ok::<(Cursor, PState), ErrView>(r),
    ensures
        state_grows(st, r.1),
        st.body.is_prefix_of(r.1.body),
        st.header.is_prefix_of(r.1.header),
{
    lemma_block_effects(s, cu, st, end);
}

} // verus!
