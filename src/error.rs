//! Errors of the grammars: which element failed, where, and in what input.
use vstd::prelude::*;

verus! {

/// The grammar element that failed to match.
#[derive(Clone, Copy, PartialEq, Eq, Structural, Debug)]
pub enum Context {
    /// the atom-count line of a frame
    AtomCount,
    /// the comment line of a frame
    CommentLine,
    /// the element symbol or atomic number of an atom line
    ElementSymbol,
    /// the three coordinates of an atom line
    Coordinates,
    /// the rest of an atom line
    AtomExtra,
    /// text after a complete atom line
    TrailingText,
    /// the `key=value` tokens of a comment line
    KeyValuePairs,
    /// the column specification of `Properties`
    PropertySpec,
    /// the extra columns of an atom line
    ExtraColumns,
}

impl Context {
    /// A human-readable name of the grammar element.
    pub fn label(&self) -> (r: &'static str)
        ensures
            *self == Context::AtomCount ==> r@ == "num of atoms"@,
            *self == Context::CommentLine ==> r@ == "comment line"@,
            *self == Context::ElementSymbol ==> r@ == "element symbol or number"@,
            *self == Context::Coordinates ==> r@ == "xyz coords"@,
            *self == Context::AtomExtra ==> r@ == "xyz extra"@,
            *self == Context::TrailingText ==> r@ == "end of input"@,
            *self == Context::KeyValuePairs ==> r@ == "key=value pairs"@,
            *self == Context::PropertySpec ==> r@ == "properties"@,
            *self == Context::ExtraColumns ==> r@ == "extra columns"@,
    {
        match self {
            Context::AtomCount => "num of atoms",
            Context::CommentLine => "comment line",
            Context::ElementSymbol => "element symbol or number",
            Context::Coordinates => "xyz coords",
            Context::AtomExtra => "xyz extra",
            Context::TrailingText => "end of input",
            Context::KeyValuePairs => "key=value pairs",
            Context::PropertySpec => "properties",
            Context::ExtraColumns => "extra columns",
        }
    }
}

/// A grammar failure: the element that failed, the text from where it
/// failed on, and the whole input.
#[derive(Clone, Debug)]
pub struct ParseError {
    pub context: Context,
    pub remainder: String,
    pub input: String,
}

} // verus!
