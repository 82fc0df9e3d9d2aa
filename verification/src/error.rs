//! What the parser reports when the source text is not a program.

use vstd::prelude::*;

verus! {

/// What was wrong with the source text.
#[derive(Debug, PartialEq)]
pub enum ErrorKind {
    /// The text ended inside a string literal.
    UnexpectedEOF,
    ExpectedClassName,
    ExpectedFunctionName,
    ExpectedVariableName,
    ExpectedOperation,
    ExpectedColon,
    ExpectedSemiColon,
    ExpectedParenthesisEnd,
    ExpectedConditionalBlock,
    ExpectedConditionalBlockEnd,
    ExpectedConditionalOtherwiseBlock,
    ExpectedConditionalOtherwiseBlockEnd,
    ExpectedNumber,
    ExpectedCall,
    /// `\x` is not followed by two hexadecimal digits.
    InvalidAsciiEscape,
    /// `\u` is not followed by one to six hexadecimal digits in braces that
    /// give the code of a character.
    InvalidUnicodeEscape,
    /// Digits stand where a number is read, and they are not one; with the
    /// reason.
    NumberParseError(String),
    /// A class defines a function of this name twice.
    FunctionExists(String),
    /// The text defines a class of this number twice.
    ClassExists(u32),
}

/// The mathematical content of an [`ErrorKind`].
pub ghost enum ErrorKindView {
    UnexpectedEOF,
    ExpectedClassName,
    ExpectedFunctionName,
    ExpectedVariableName,
    ExpectedOperation,
    ExpectedColon,
    ExpectedSemiColon,
    ExpectedParenthesisEnd,
    ExpectedConditionalBlock,
    ExpectedConditionalBlockEnd,
    ExpectedConditionalOtherwiseBlock,
    ExpectedConditionalOtherwiseBlockEnd,
    ExpectedNumber,
    ExpectedCall,
    InvalidAsciiEscape,
    InvalidUnicodeEscape,
    NumberParseError(Seq<char>),
    FunctionExists(Seq<char>),
    ClassExists(u32),
}

impl View for ErrorKind {
    type V = ErrorKindView;

    open spec fn view(&self) -> ErrorKindView {
        match self {
            ErrorKind::UnexpectedEOF => ErrorKindView::UnexpectedEOF,
            ErrorKind::ExpectedClassName => ErrorKindView::ExpectedClassName,
            ErrorKind::ExpectedFunctionName => ErrorKindView::ExpectedFunctionName,
            ErrorKind::ExpectedVariableName => ErrorKindView::ExpectedVariableName,
            ErrorKind::ExpectedOperation => ErrorKindView::ExpectedOperation,
            ErrorKind::ExpectedColon => ErrorKindView::ExpectedColon,
            ErrorKind::ExpectedSemiColon => ErrorKindView::ExpectedSemiColon,
            ErrorKind::ExpectedParenthesisEnd => ErrorKindView::ExpectedParenthesisEnd,
            ErrorKind::ExpectedConditionalBlock => ErrorKindView::ExpectedConditionalBlock,
            ErrorKind::ExpectedConditionalBlockEnd => ErrorKindView::ExpectedConditionalBlockEnd,
            ErrorKind::ExpectedConditionalOtherwiseBlock => {
                ErrorKindView::ExpectedConditionalOtherwiseBlock
            },
            ErrorKind::ExpectedConditionalOtherwiseBlockEnd => {
                ErrorKindView::ExpectedConditionalOtherwiseBlockEnd
            },
            ErrorKind::ExpectedNumber => ErrorKindView::ExpectedNumber,
            ErrorKind::ExpectedCall => ErrorKindView::ExpectedCall,
            ErrorKind::InvalidAsciiEscape => ErrorKindView::InvalidAsciiEscape,
            ErrorKind::InvalidUnicodeEscape => ErrorKindView::InvalidUnicodeEscape,
            ErrorKind::NumberParseError(reason) => ErrorKindView::NumberParseError(reason@),
            ErrorKind::FunctionExists(name) => ErrorKindView::FunctionExists(name@),
            ErrorKind::ClassExists(number) => ErrorKindView::ClassExists(*number),
        }
    }
}

/// A failure to parse.
#[derive(Debug, PartialEq)]
pub struct ParseError {
    /// What was wrong.
    pub kind: ErrorKind,
    /// Whether the failure is final. After one that is not, the caller may go
    /// back to where it started and try another reading of the text.
    pub important: bool,
    /// How many characters of the text had been read when the failure was
    /// found.
    pub position: usize,
}

/// The mathematical content of a [`ParseError`].
pub ghost struct ParseErrorView {
    pub kind: ErrorKindView,
    pub important: bool,
    pub position: int,
}

impl View for ParseError {
    type V = ParseErrorView;

    open spec fn view(&self) -> ParseErrorView {
        ParseErrorView {
            kind: self.kind@,
            important: self.important,
            position: self.position as int,
        }
    }
}

/// Why digits that must fit into 32 bits are no number: their value is too
/// large.
pub open spec fn too_large() -> Seq<char> {
    "number too large to fit in target type"@
}

/// Why the digits of a `\u` escape are no number: there are none.
pub open spec fn no_digits() -> Seq<char> {
    "cannot parse integer from empty string"@
}

/// Why a number literal is no number: it is a point without digits.
pub open spec fn no_float() -> Seq<char> {
    "invalid float literal"@
}

} // verus!
