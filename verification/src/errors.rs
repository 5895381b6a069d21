use vstd::prelude::*;

verus! {

/// The closed set of failure kinds.  Every stage of the pipeline reports its
/// first failure as one of these and aborts the rest of the run; no failure
/// is retried or recovered internally.
#[derive(Clone, Copy, Debug, PartialEq, Eq, Structural)]
pub enum ForthError {
    /// `push` on a stack whose length equals its capacity.
    StackOverflow,
    /// `pop` on an empty stack.
    StackUnderflow,
    /// Division where the divisor (the top-of-stack operand) is zero.
    DivisionByZero,
    /// A numeric-looking token whose value does not fit a signed 16-bit
    /// integer.
    InvalidNumber,
    /// End of input reached inside a string literal.
    UnterminatedString,
    /// A definition start while a definition is already open.
    NestedWordDefinition,
    /// A definition end with no definition open.
    UnexpectedDefinitionEnd,
    /// A token other than a bare word in the name position of a definition.
    InvalidWord,
    /// End of input reached while a definition is still open.
    UnterminatedWordDefinition,
    /// `ELSE` with no pending `IF`.
    UnexpectedElse,
    /// A second `ELSE` for the same pending `IF`.
    DuplicateElse,
    /// `THEN` with no pending `IF`.
    UnexpectedThen,
    /// A pending `IF` left at the end of the conditionals pass.
    UnterminatedIf,
    /// A token shape the executor does not execute (definition delimiters,
    /// string literals, unresolved words).
    UnexpectedToken,
    /// A conditional marker reached the operation dispatcher; markers are
    /// structural only and reaching one there is a defect.
    ConditionalReachedExecution,
}

impl ForthError {
    /// The string identifier of this failure kind, as a sequence of
    /// characters.
    pub open spec fn message_view(self) -> Seq<char> {
        match self {
            ForthError::StackOverflow => "stack-overflow"@,
            ForthError::StackUnderflow => "stack-underflow"@,
            ForthError::DivisionByZero => "division-by-zero"@,
            ForthError::InvalidNumber => "invalid-number"@,
            ForthError::UnterminatedString => "unterminated-string"@,
            ForthError::NestedWordDefinition => "nested-word-definition"@,
            ForthError::UnexpectedDefinitionEnd => "unexpected-definition-end"@,
            ForthError::InvalidWord => "invalid-word"@,
            ForthError::UnterminatedWordDefinition => "unterminated-word-definition"@,
            ForthError::UnexpectedElse => "unexpected-else"@,
            ForthError::DuplicateElse => "duplicate-else"@,
            ForthError::UnexpectedThen => "unexpected-then"@,
            ForthError::UnterminatedIf => "unterminated-if"@,
            ForthError::UnexpectedToken => "unexpected-token"@,
            ForthError::ConditionalReachedExecution => "conditional-reached-execution"@,
        }
    }

    /// The string identifier of this failure kind.
    pub fn message(&self) -> (r: &'static str)
        ensures
            r@ == self.message_view(),
    {
        match self {
            ForthError::StackOverflow => "stack-overflow",
            ForthError::StackUnderflow => "stack-underflow",
            ForthError::DivisionByZero => "division-by-zero",
            ForthError::InvalidNumber => "invalid-number",
            ForthError::UnterminatedString => "unterminated-string",
            ForthError::NestedWordDefinition => "nested-word-definition",
            ForthError::UnexpectedDefinitionEnd => "unexpected-definition-end",
            ForthError::InvalidWord => "invalid-word",
            ForthError::UnterminatedWordDefinition => "unterminated-word-definition",
            ForthError::UnexpectedElse => "unexpected-else",
            ForthError::DuplicateElse => "duplicate-else",
            ForthError::UnexpectedThen => "unexpected-then",
            ForthError::UnterminatedIf => "unterminated-if",
            ForthError::UnexpectedToken => "unexpected-token",
            ForthError::ConditionalReachedExecution => "conditional-reached-execution",
        }
    }
}

} // verus!
