//! A C-targeting emitter backend: the same header/body sink shape as
//! `Emitter`, together with the fixed operator-kind-to-spelling table and
//! the program prologue and epilogue of the target language.

use vstd::prelude::*;
use vstd::string::*;
use crate::token::TokenType;

verus! {

/// The target-language spelling of an operator kind; empty for kinds that
/// are not operators. The default pass-through backend never consults this
/// table — it re-emits the source lexeme — but a backend that must respell
/// an operator starts here.
pub open spec fn op_text(kind: TokenType) -> Seq<char> {
    match kind {
        TokenType::Assign => "="@,
        TokenType::EqEq => "=="@,
        TokenType::NotEq => "!="@,
        TokenType::Gt => ">"@,
        TokenType::GtEq => ">="@,
        TokenType::Lt => "<"@,
        TokenType::LtEq => "<="@,
        TokenType::Plus => "+"@,
        TokenType::Minus => "-"@,
        TokenType::Asterisk => "*"@,
        TokenType::Slash => "/"@,
        _ => ""@,
    }
}

/// An emitter that produces C source text.
pub struct CEmitter {
    header: String,
    code: String,
}

impl CEmitter {
    /// The header region.
    pub closed spec fn header(&self) -> Seq<char> {
        self.header@
    }

    /// The body region.
    pub closed spec fn code(&self) -> Seq<char> {
        self.code@
    }

    /// A fresh C emitter with both regions empty.
    pub fn new() -> (e: CEmitter)
        ensures
            e.header() == Seq::<char>::empty(),
            e.code() == Seq::<char>::empty(),
    {
        CEmitter { header: String::new(), code: String::new() }
    }

    /// Append text to the body region.
    pub fn emit(&mut self, code: &str)
        ensures
            final(self).header() == old(self).header(),
            final(self).code() == old(self).code() + code@,
    {
        self.code.append(code);
    }

    /// Append text plus a line break to the body region.
    pub fn emit_line(&mut self, code: &str)
        ensures
            final(self).header() == old(self).header(),
            final(self).code() == old(self).code() + code@ + "\n"@,
    {
        self.code.append(code);
        self.code.append("\n");
    }

    /// Append text plus a line break to the header region.
    pub fn header_line(&mut self, code: &str)
        ensures
            final(self).header() == old(self).header() + code@ + "\n"@,
            final(self).code() == old(self).code(),
    {
        self.header.append(code);
        self.header.append("\n");
    }

    /// Open the target program: include line and entry-point opening.
    pub fn begin(&mut self)
        ensures
            final(self).header() == old(self).header(),
            final(self).code() == old(self).code() + "#include <stdio.h>\n\nint main(void) {"@
                + "\n"@,
    {
        self.emit_line("#include <stdio.h>\n\nint main(void) {");
    }

    /// Close the target program: entry-point epilogue.
    pub fn end(&mut self)
        ensures
            final(self).header() == old(self).header(),
            final(self).code() == old(self).code() + "return 0;\n}"@ + "\n"@,
    {
        self.emit_line("return 0;\n}");
    }

    /// Append the target spelling of an operator kind to the body region.
    pub fn emit_op(&mut self, op: TokenType)
        ensures
            final(self).header() == old(self).header(),
            final(self).code() == old(self).code() + op_text(op),
    {
        match op {
            TokenType::Assign => self.emit("="),
            TokenType::EqEq => self.emit("=="),
            TokenType::NotEq => self.emit("!="),
            TokenType::Gt => self.emit(">"),
            TokenType::GtEq => self.emit(">="),
            TokenType::Lt => self.emit("<"),
            TokenType::LtEq => self.emit("<="),
            TokenType::Plus => self.emit("+"),
            TokenType::Minus => self.emit("-"),
            TokenType::Asterisk => self.emit("*"),
            TokenType::Slash => self.emit("/"),
            _ => self.emit(""),
        }
    }

    /// Append a value's lexeme to the body region unchanged.
    pub fn emit_val(&mut self, val: &str)
        ensures
            final(self).header() == old(self).header(),
            final(self).code() == old(self).code() + val@,
    {
        self.emit(val);
    }

    /// Finalize: the header region followed by the body region.
    pub fn output(&self) -> (r: String)
        ensures
            r@ == self.header() + self.code(),
    {
        let mut r = self.header.clone();
        r.append(self.code.as_str());
        r
    }
}

} // verus!
