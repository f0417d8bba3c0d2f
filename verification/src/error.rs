//! Why a capture file could not be read or analysed.

use vstd::prelude::*;

verus! {

/// How parsing stopped.
#[derive(Clone, Copy, Debug, PartialEq, Eq)]
pub enum ParseErrorKind {
    /// A tag, a delimiter or a number was not what the grammar asks for.
    Mismatch,
    /// The input ended before the newline that closes a line of text.
    Unterminated,
}

/// A failed parse: what went wrong, and how many bytes of the input were
/// still unread where it did. The unread remainder is the suffix of the
/// input of that length.
#[derive(Clone, Copy, Debug, PartialEq, Eq)]
pub struct ParseError {
    pub kind: ParseErrorKind,
    pub remaining: usize,
}

/// A [`ParseError`] with an unbounded length.
pub struct ParseFailure {
    pub kind: ParseErrorKind,
    pub remaining: nat,
}

impl ParseFailure {
    /// A mismatch with `remaining` bytes unread.
    pub open spec fn mismatch(remaining: nat) -> ParseFailure {
        ParseFailure { kind: ParseErrorKind::Mismatch, remaining }
    }

    /// A missing newline with `remaining` bytes unread.
    pub open spec fn unterminated(remaining: nat) -> ParseFailure {
        ParseFailure { kind: ParseErrorKind::Unterminated, remaining }
    }
}

impl View for ParseError {
    type V = ParseFailure;

    open spec fn view(&self) -> ParseFailure {
        ParseFailure { kind: self.kind, remaining: self.remaining as nat }
    }
}

/// Why no report could be made of a capture file.
#[derive(Clone, Copy, Debug, PartialEq, Eq)]
pub enum AnalyzeError {
    /// The text does not follow the grammar of capture files.
    Format(ParseError),
    /// There is no button at all.
    EmptyFile,
    /// No raw button holds a pulse pair.
    NoRawData,
    /// The sampled marks or the sampled spaces cannot be told apart into
    /// short and long ones: there are none, or they are all equal.
    DegenerateBucket,
}

/// An [`AnalyzeError`] with an unbounded length.
pub enum AnalyzeFailure {
    Format(ParseFailure),
    EmptyFile,
    NoRawData,
    DegenerateBucket,
}

impl View for AnalyzeError {
    type V = AnalyzeFailure;

    open spec fn view(&self) -> AnalyzeFailure {
        match *self {
            AnalyzeError::Format(e) => AnalyzeFailure::Format(e@),
            AnalyzeError::EmptyFile => AnalyzeFailure::EmptyFile,
            AnalyzeError::NoRawData => AnalyzeFailure::NoRawData,
            AnalyzeError::DegenerateBucket => AnalyzeFailure::DegenerateBucket,
        }
    }
}

} // verus!
