//! The emitter: two append-only text sinks, a header region and a body
//! region. Appending never reorders prior content; the finalize operation
//! concatenates header then body. Nothing here touches the file system —
//! persistence belongs to the caller, and only after a fully successful
//! parse.

use vstd::prelude::*;
use vstd::string::*;

verus! {

/// Accumulates generated target-language text in two growable regions.
pub struct Emitter {
    header: String,
    code: String,
}

impl Emitter {
    /// The header region: include lines and variable declarations.
    pub closed spec fn header(&self) -> Seq<char> {
        self.header@
    }

    /// The body region: one target statement or block per source statement.
    pub closed spec fn code(&self) -> Seq<char> {
        self.code@
    }

    /// A fresh emitter with both regions empty.
    pub fn new() -> (e: Emitter)
        ensures
            e.header() == Seq::<char>::empty(),
            e.code() == Seq::<char>::empty(),
    {
        Emitter { header: String::new(), code: String::new() }
    }

    /// Append text to the body region.
    pub fn emit(&mut self, code: &str)
        ensures
            final(self).header() == old(self).header(),
            final(self).code() == old(self).code() + code@,
    {
        self.code.append(code);
    }

    /// Append text plus a line break to the body region.
    pub fn emit_line(&mut self, code: &str)
        ensures
            final(self).header() == old(self).header(),
            final(self).code() == old(self).code() + code@ + "\n"@,
    {
        self.code.append(code);
        self.code.append("\n");
    }

    /// Append text plus a line break to the header region.
    pub fn header_line(&mut self, code: &str)
        ensures
            final(self).header() == old(self).header() + code@ + "\n"@,
            final(self).code() == old(self).code(),
    {
        self.header.append(code);
        self.header.append("\n");
    }

    /// Finalize: the header region followed by the body region, as one
    /// text. The regions themselves are left untouched.
    pub fn output(&self) -> (r: String)
        ensures
            r@ == self.header() + self.code(),
    {
        let mut r = self.header.clone();
        r.append(self.code.as_str());
        r
    }
}

} // verus!
