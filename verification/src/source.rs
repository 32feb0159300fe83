//! Source texts and the byte spans that diagnostics point at.

use vstd::prelude::*;

verus! {

/// A byte range `offset .. offset + len` in a source text.
#[derive(Clone, Copy, Debug, PartialEq, Eq, Structural)]
pub struct Span {
    pub offset: usize,
    pub len: usize,
}

/// A file's display name and its contents.
#[derive(Debug)]
pub struct SourceText {
    pub name: String,
    pub text: String,
}

impl SourceText {
    /// A copy of this source text.
    pub fn duplicate(&self) -> (r: SourceText)
        ensures
            r.name@ == self.name@,
            r.text@ == self.text@,
    {
        SourceText { name: self.name.clone(), text: self.text.clone() }
    }
}

/// What reading a file gave: it does not exist, it could not be read, or its text.
#[derive(Debug)]
pub enum FileRead {
    Missing,
    Unreadable,
    Read(SourceText),
}

/// The characters of an optional string.
pub open spec fn opt_string(o: Option<String>) -> Option<Seq<char>> {
    match o {
        Some(s) => Some(s@),
        None => None,
    }
}

/// A copy of a string slice as an owned string.
pub fn owned(s: &str) -> (r: String)
    ensures
        r@ == s@,
{
    s.to_owned()
}

} // verus!
