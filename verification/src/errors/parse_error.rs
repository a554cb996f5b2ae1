use vstd::prelude::*;
use vstd::string::StringExecFns;

verus! {

/// Why a statement could not be parsed.
#[derive(Debug, Clone, Copy, PartialEq, Eq, Structural)]
pub enum ParseError {
    /// The statement begins with no known command.
    UnrecognizedCommand,
    /// A string literal has no closing quote.
    UnterminatedString,
    /// An integer literal does not fit in 64 bits.
    InvalidNumber,
    /// A character that no token of a predicate begins with.
    UnexpectedCharacter,
    /// Parentheses of a predicate do not match.
    MismatchedParentheses,
    /// An operator of a predicate lacks an operand.
    MissingOperand,
    /// A comparison has a predicate where a column or a literal belongs.
    ExpectedOperand,
    /// AND, OR or NOT has a column or a literal where a predicate belongs.
    ExpectedCondition,
    /// More than one expression is left when the predicate ends.
    LeftoverOperand,
    /// The predicate is empty.
    EmptyCondition,
    /// An opening or closing parenthesis of a list is missing or misplaced.
    MissingParenthesis,
    /// PRIMARY KEY is not followed by a column.
    InvalidPrimaryKey,
    /// FOREIGN KEY or REFERENCES is not followed by what it needs.
    InvalidForeignKey,
    /// A column definition has no type.
    MissingColumnType,
    /// A column type other than INT, TEXT and BOOL.
    UnknownColumnType,
    /// A default value that is no literal.
    UnsupportedDefault,
    /// INSERT without VALUES.
    MissingValues,
    /// A value that is no literal.
    UnrecognizedValue,
    /// SELECT or DELETE without FROM.
    MissingFrom,
    /// UPDATE without SET.
    MissingSet,
    /// An assignment of UPDATE without `=`.
    InvalidAssignment,
    /// CREATE INDEX without ON.
    MissingOn,
    /// CREATE INDEX without columns.
    NoIndexColumns,
    /// A table name or an alias is missing in a FROM clause.
    MissingTableName,
    /// JOIN without a table on its left, or without ON.
    InvalidJoin,
    /// BEGIN followed by something other than an isolation level.
    InvalidBegin,
    /// SET SESSION CHARACTERISTICS not spelled out in full.
    InvalidSetSession,
    /// An isolation level that does not exist.
    UnknownIsolationLevel,
    /// SERIALIZABLE, which is not offered.
    SerializableNotSupported,
    /// The statement is cut short where a clause must follow.
    InvalidSyntax,
}

impl ParseError {
    /// The text that describes the error.
    pub open spec fn spec_message(self) -> Seq<char> {
        match self {
            ParseError::UnrecognizedCommand => "Unrecognized command"@,
            ParseError::UnterminatedString => "Unterminated string literal"@,
            ParseError::InvalidNumber => "Invalid number"@,
            ParseError::UnexpectedCharacter => "Unexpected character"@,
            ParseError::MismatchedParentheses => "Mismatched parentheses"@,
            ParseError::MissingOperand => "Operator lacks an operand"@,
            ParseError::ExpectedOperand => "Expected a column or a value"@,
            ParseError::ExpectedCondition => "Expected a condition"@,
            ParseError::LeftoverOperand => "Leftover operand"@,
            ParseError::EmptyCondition => "Empty condition"@,
            ParseError::MissingParenthesis => "Missing parenthesis"@,
            ParseError::InvalidPrimaryKey => "Invalid PRIMARY KEY syntax"@,
            ParseError::InvalidForeignKey => "Invalid FOREIGN KEY syntax"@,
            ParseError::MissingColumnType => "Missing column type"@,
            ParseError::UnknownColumnType => "Unknown column type"@,
            ParseError::UnsupportedDefault => "Unsupported default value"@,
            ParseError::MissingValues => "Missing 'values'"@,
            ParseError::UnrecognizedValue => "Unrecognized value"@,
            ParseError::MissingFrom => "Missing 'from'"@,
            ParseError::MissingSet => "Missing 'set'"@,
            ParseError::InvalidAssignment => "Invalid assignment"@,
            ParseError::MissingOn => "Missing 'ON' in CREATE INDEX"@,
            ParseError::NoIndexColumns => "No columns in index"@,
            ParseError::MissingTableName => "Expected table name"@,
            ParseError::InvalidJoin => "Invalid JOIN"@,
            ParseError::InvalidBegin => "Unexpected syntax in BEGIN"@,
            ParseError::InvalidSetSession => "Invalid SET SESSION syntax"@,
            ParseError::UnknownIsolationLevel => "Unknown isolation level"@,
            ParseError::SerializableNotSupported => "Serializable isolation level not implemented"@,
            ParseError::InvalidSyntax => "Invalid syntax"@,
        }
    }

    /// A short description for the user.
    pub fn message(&self) -> (s: String)
        ensures
            s@ == self.spec_message(),
    {
        let text = match self {
            ParseError::UnrecognizedCommand => "Unrecognized command",
            ParseError::UnterminatedString => "Unterminated string literal",
            ParseError::InvalidNumber => "Invalid number",
            ParseError::UnexpectedCharacter => "Unexpected character",
            ParseError::MismatchedParentheses => "Mismatched parentheses",
            ParseError::MissingOperand => "Operator lacks an operand",
            ParseError::ExpectedOperand => "Expected a column or a value",
            ParseError::ExpectedCondition => "Expected a condition",
            ParseError::LeftoverOperand => "Leftover operand",
            ParseError::EmptyCondition => "Empty condition",
            ParseError::MissingParenthesis => "Missing parenthesis",
            ParseError::InvalidPrimaryKey => "Invalid PRIMARY KEY syntax",
            ParseError::InvalidForeignKey => "Invalid FOREIGN KEY syntax",
            ParseError::MissingColumnType => "Missing column type",
            ParseError::UnknownColumnType => "Unknown column type",
            ParseError::UnsupportedDefault => "Unsupported default value",
            ParseError::MissingValues => "Missing 'values'",
            ParseError::UnrecognizedValue => "Unrecognized value",
            ParseError::MissingFrom => "Missing 'from'",
            ParseError::MissingSet => "Missing 'set'",
            ParseError::InvalidAssignment => "Invalid assignment",
            ParseError::MissingOn => "Missing 'ON' in CREATE INDEX",
            ParseError::NoIndexColumns => "No columns in index",
            ParseError::MissingTableName => "Expected table name",
            ParseError::InvalidJoin => "Invalid JOIN",
            ParseError::InvalidBegin => "Unexpected syntax in BEGIN",
            ParseError::InvalidSetSession => "Invalid SET SESSION syntax",
            ParseError::UnknownIsolationLevel => "Unknown isolation level",
            ParseError::SerializableNotSupported => "Serializable isolation level not implemented",
            ParseError::InvalidSyntax => "Invalid syntax",
        };
        String::from_str(text)
    }
}

} // verus!
