//! Interned names.

use vstd::prelude::*;

verus! {

#[verifier::external_type_specification]
#[verifier::external_body]
pub struct ExSmolStr(smol_str::SmolStr);

/// The text that a `SmolStr` holds.
pub uninterp spec fn smol_text(s: smol_str::SmolStr) -> Seq<char>;

/// `SmolStr::new`: builds the small string that holds exactly the text of
/// `source`.
#[verifier::external_body]
fn smol_new(source: &str) -> (out: smol_str::SmolStr)
    ensures
        smol_text(out) == source@,
{
    smol_str::SmolStr::new(source)
}

/// `SmolStr::clone`: the copy holds the same text.
#[verifier::external_body]
fn smol_clone(s: &smol_str::SmolStr) -> (out: smol_str::SmolStr)
    ensures
        smol_text(out) == smol_text(*s),
{
    s.clone()
}

/// `SmolStr::to_string`: an owned `String` with the text that the small
/// string holds.
#[verifier::external_body]
fn smol_to_string(s: &smol_str::SmolStr) -> (out: String)
    ensures
        out@ == smol_text(*s),
{
    s.to_string()
}

/// A name, such as a card's name or a subtype.
#[derive(Debug)]
pub struct Ident(smol_str::SmolStr);

impl View for Ident {
    type V = Seq<char>;

    closed spec fn view(&self) -> Seq<char> {
        smol_text(self.0)
    }
}

impl Clone for Ident {
    fn clone(&self) -> (out: Self)
        ensures
            out@ == self@,
    {
        Ident(smol_clone(&self.0))
    }
}

impl Ident {
    /// The name with the text of `source`.
    pub fn new(source: &str) -> (out: Self)
        ensures
            out@ == source@,
    {
        Ident(smol_new(source))
    }

    /// Whether this name reads `text`.
    pub fn is(&self, text: &str) -> (same: bool)
        ensures
            same == (self@ == text@),
    {
        smol_to_string(&self.0) == text.to_owned()
    }

    /// The name as an owned string.
    pub fn to_string(&self) -> (out: String)
        ensures
            out@ == self@,
    {
        smol_to_string(&self.0)
    }
}

} // verus!
