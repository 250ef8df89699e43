//! Errors of the expression language and of the layout engine.

use vstd::prelude::*;

verus! {

/// Why an address expression could not be read.
#[derive(Debug, PartialEq, Eq, Structural)]
pub enum ParseErrorKind {
    /// A character that starts no token, with its offset.
    UnknownCharacter(char, usize),
    /// A `.` inside a `0x` number; the offset is where the number starts.
    DotInNumber(usize),
    /// Digits that do not form a number of the machine's integer width.
    MalformedNumber(usize),
    /// A token that cannot start an operand.
    UnrecognizedAtom(char),
    /// A bracket or `=` was required and another token was found.
    Expected(char, char),
    /// Two identifiers in a row, other than the `let` form.
    TwoConsecutiveSymbols,
    /// A token used as a binary operator that is none.
    NotAnOperation(char),
    /// Reading went on after the lexer had failed.
    AfterLexError,
}

/// A parse error; function names are kept apart as they carry a string.
#[derive(Debug)]
pub enum ParseError {
    Syntax(ParseErrorKind),
    UnsupportedFunction(String),
}

/// Why an expression tree could not be evaluated.
#[derive(Debug)]
pub enum EvalError {
    /// The resolver knows no such module symbol.
    UnresolvedSymbol(String),
    /// A dereference of an address that is zero or negative.
    NonPositiveAddress(isize),
    /// The resolver could not read at the address.
    UnreadableAddress(isize),
    /// A variable that was never assigned.
    UndefinedVariable(String),
    /// An exponent that is negative or too large.
    InvalidExponent(isize),
}

/// Why a layout operation was refused; the class is left as it was.
#[derive(Debug, PartialEq, Eq, Structural)]
pub enum LayoutError {
    FieldNotFound,
    NotEnoughSpace,
    ClassNotFound,
    /// An action that needs a selected field or class found none.
    NoSelection,
    /// The class would outgrow the address space, or the field ids run out.
    TooLarge,
    /// A replacement field whose id is already in use.
    FieldIdInUse,
}

} // verus!
