//! Fatal errors of the definition-language parser and the composition
//! subsystem. Every error identifies the offending token or field count.
//! No partial result ever accompanies an error.

use vstd::prelude::*;

verus! {

/// Spec-level model of a parse error; token payloads are byte sequences.
pub enum ParseErrorV {
    /// A state identifier was referenced but never declared.
    UndeclaredState(Seq<u8>),
    /// A symbol token was referenced but never declared.
    UndeclaredSymbol(Seq<u8>),
    /// A range selector or numeric symbol range whose ends are out of order
    /// or out of bounds.
    MalformedRange(Seq<u8>),
    /// A table row with a number of fields other than five.
    WrongFieldCount(int),
    /// A declaration keyword on a line after the `table` marker.
    DeclarationAfterTable,
    /// No `initstate` declaration, or one without an identifier.
    MissingInitState,
    /// No `table` marker line in the text.
    MissingTable,
}

/// A fatal parse error. Parsing aborts with no partial result.
#[derive(Debug)]
pub enum ParseError {
    UndeclaredState(Vec<u8>),
    UndeclaredSymbol(Vec<u8>),
    MalformedRange(Vec<u8>),
    WrongFieldCount(usize),
    DeclarationAfterTable,
    MissingInitState,
    MissingTable,
}

impl View for ParseError {
    type V = ParseErrorV;

    open spec fn view(&self) -> ParseErrorV {
        match self {
            ParseError::UndeclaredState(t) => ParseErrorV::UndeclaredState(t@),
            ParseError::UndeclaredSymbol(t) => ParseErrorV::UndeclaredSymbol(t@),
            ParseError::MalformedRange(t) => ParseErrorV::MalformedRange(t@),
            ParseError::WrongFieldCount(n) => ParseErrorV::WrongFieldCount(*n as int),
            ParseError::DeclarationAfterTable => ParseErrorV::DeclarationAfterTable,
            ParseError::MissingInitState => ParseErrorV::MissingInitState,
            ParseError::MissingTable => ParseErrorV::MissingTable,
        }
    }
}

/// The spec-level reading of a fallible result, through the views.
pub open spec fn res_view<T: View>(r: Result<T, ParseError>) -> Result<T::V, ParseErrorV> {
    match r {
        Ok(t) => Ok(t@),
        Err(e) => Err(e@),
    }
}

} // verus!
