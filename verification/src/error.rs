//! Syntax errors.
use vstd::prelude::*;

verus! {

/// Why the front end gave up on its input. No error is recovered from.
#[derive(Debug, Clone, Copy, PartialEq, Eq)]
pub enum SyntaxError {
    /// A run of number characters that is not a number literal.
    InvalidNumber,
    /// The current token cannot start an expression.
    ExpectedExpression,
    /// A number was asked for and the current token is none.
    ExpectedNumber,
    /// A name was asked for and the current token is none.
    ExpectedIdentifier,
    /// A parenthesised expression is not followed by `)`.
    ExpectedCloseParen,
    /// An argument of a call is followed by neither `,` nor `)`.
    ExpectedArgumentEnd,
    /// The operator slot of a binary expression holds no character token.
    UnknownOperation,
    /// A prototype does not start with a name.
    ExpectedFunctionName,
    /// The name of a prototype is not followed by `(`.
    ExpectedPrototypeOpen,
    /// The parameters of a prototype are not followed by `)`.
    ExpectedPrototypeClose,
}

impl SyntaxError {
    /// The diagnostic for the error.
    pub fn message(&self) -> (text: &'static str)
        ensures
            text@ == self.spec_message(),
    {
        match self {
            SyntaxError::InvalidNumber => "Could not get token",
            SyntaxError::ExpectedExpression => "unknown token when expecting an expression",
            SyntaxError::ExpectedNumber => "Expected a number",
            SyntaxError::ExpectedIdentifier => "expected identifier",
            SyntaxError::ExpectedCloseParen => "expected ')'",
            SyntaxError::ExpectedArgumentEnd => "Expected ')' or ',' in argument list",
            SyntaxError::UnknownOperation => "Unknown operation",
            SyntaxError::ExpectedFunctionName => "Expected ",
            SyntaxError::ExpectedPrototypeOpen => "Expected a '(' in prototype",
            SyntaxError::ExpectedPrototypeClose => "Expected '(' in prototpye",
        }
    }

    /// The text of the diagnostic for each error.
    pub open spec fn spec_message(&self) -> Seq<char> {
        match self {
            SyntaxError::InvalidNumber => "Could not get token"@,
            SyntaxError::ExpectedExpression => "unknown token when expecting an expression"@,
            SyntaxError::ExpectedNumber => "Expected a number"@,
            SyntaxError::ExpectedIdentifier => "expected identifier"@,
            SyntaxError::ExpectedCloseParen => "expected ')'"@,
            SyntaxError::ExpectedArgumentEnd => "Expected ')' or ',' in argument list"@,
            SyntaxError::UnknownOperation => "Unknown operation"@,
            SyntaxError::ExpectedFunctionName => "Expected "@,
            SyntaxError::ExpectedPrototypeOpen => "Expected a '(' in prototype"@,
            SyntaxError::ExpectedPrototypeClose => "Expected '(' in prototpye"@,
        }
    }
}

} // verus!
