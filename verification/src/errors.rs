//! Parse failures.
//!
//! Every failure is fatal to the enclosing parse: there is no recovery, no
//! skipping and no partial document.  A failure carries the position (in
//! characters) at which the expected construct was missing.

use vstd::prelude::*;

verus! {

/// What kind of construct was missing.
#[derive(Clone, Copy, Debug, PartialEq, Eq, Structural)]
pub enum ParseErrorKind {
    /// No value alternative matched at the position.
    LexicalMismatch,
    /// A bracketed tag named a type outside the fixed set.
    UnknownTagType,
    /// An expected construct (a particular tag type, a separator, the
    /// `config_version` line) was absent or misplaced.
    StructuralMismatch,
    /// The input ended where a construct was still required.
    IncompleteInput,
}

/// A parse failure: the kind of construct expected and the character
/// position at which the parse stopped.
#[derive(Clone, Copy, Debug, PartialEq, Eq, Structural)]
pub struct ParseError {
    pub kind: ParseErrorKind,
    pub pos: usize,
}

/// The model of a parse failure, with an unbounded position.
pub struct ErrM {
    pub kind: ParseErrorKind,
    pub pos: int,
}

impl View for ParseError {
    type V = ErrM;

    open spec fn view(&self) -> ErrM {
        ErrM { kind: self.kind, pos: self.pos as int }
    }
}

} // verus!
