//! What can go wrong with a line.

use vstd::prelude::*;
use vstd::string::StringExecFns;
use crate::tokenizer::Operator;

verus! {

/// The failures of the engine, each raised by one stage.
#[derive(Debug, PartialEq)]
pub enum CoreError {
    /// The lexer met a character that starts no token.
    IncorrectChar(char),
    /// The lexer met a numeral with a second decimal point.
    TwoPoints,
    /// A parenthesis has no partner.
    Parenthesis,
    /// A conditional or a loop holds no comparison.
    NoComparator,
    /// A conditional or a loop holds no colon after its comparison.
    NoConsequence,
    /// A name that the store does not hold.
    UnknownVariable(String),
    /// A division whose divisor is zero.
    DivisionByZero,
    /// An operator that cannot be applied: the factorial, or the mark of a
    /// missing operator.
    Unsupported(Operator),
    /// Tokens that do not form an expression.
    Malformed,
}

/// The stage that a failure belongs to.
#[derive(Clone, Copy, Debug, PartialEq, Eq, Structural)]
pub enum ErrorKind {
    Lex,
    Paren,
    Classify,
    UnknownVariable,
    DivisionByZero,
    UnsupportedOperator,
    Malformed,
}

/// The mathematical value of a failure.
pub enum Fault {
    IncorrectChar(char),
    TwoPoints,
    Parenthesis,
    NoComparator,
    NoConsequence,
    UnknownVariable(Seq<char>),
    DivisionByZero,
    Unsupported(Operator),
    Malformed,
}

impl View for CoreError {
    type V = Fault;

    open spec fn view(&self) -> Fault {
        match self {
            CoreError::IncorrectChar(c) => Fault::IncorrectChar(*c),
            CoreError::TwoPoints => Fault::TwoPoints,
            CoreError::Parenthesis => Fault::Parenthesis,
            CoreError::NoComparator => Fault::NoComparator,
            CoreError::NoConsequence => Fault::NoConsequence,
            CoreError::UnknownVariable(name) => Fault::UnknownVariable(name@),
            CoreError::DivisionByZero => Fault::DivisionByZero,
            CoreError::Unsupported(o) => Fault::Unsupported(*o),
            CoreError::Malformed => Fault::Malformed,
        }
    }
}

/// Calls `String::push`, which appends one character to the end of a
/// text.
#[verifier::external_body]
fn push_char(text: &mut String, c: char)
    ensures
        final(text)@ == old(text)@.push(c),
{
    text.push(c)
}

impl Fault {
    /// The message of a failure, for a reader.
    pub open spec fn text(self) -> Seq<char> {
        match self {
            Fault::IncorrectChar(c) => "Incorrect char: "@.push(c),
            Fault::TwoPoints => "Number with two points is not possible"@,
            Fault::Parenthesis => "Mismatched parenthesis"@,
            Fault::NoComparator => "No comparator in statement"@,
            Fault::NoConsequence => "No consequence to statement"@,
            Fault::UnknownVariable(name) => "Var ["@ + name + "] not found in memory"@,
            Fault::DivisionByZero => "Division by zero"@,
            Fault::Unsupported(Operator::Factorial) => "Factorials not supported for now"@,
            Fault::Unsupported(_) => "Operator not supported"@,
            Fault::Malformed => "Invalid token in calculation"@,
        }
    }

    /// The stage of a failure.
    pub open spec fn kind(self) -> ErrorKind {
        match self {
            Fault::IncorrectChar(_) | Fault::TwoPoints => ErrorKind::Lex,
            Fault::Parenthesis => ErrorKind::Paren,
            Fault::NoComparator | Fault::NoConsequence => ErrorKind::Classify,
            Fault::UnknownVariable(_) => ErrorKind::UnknownVariable,
            Fault::DivisionByZero => ErrorKind::DivisionByZero,
            Fault::Unsupported(_) => ErrorKind::UnsupportedOperator,
            Fault::Malformed => ErrorKind::Malformed,
        }
    }
}

impl CoreError {
    /// The stage that raised the failure.
    pub fn kind(&self) -> (r: ErrorKind)
        ensures
            r == self@.kind(),
    {
        match self {
            CoreError::IncorrectChar(_) | CoreError::TwoPoints => ErrorKind::Lex,
            CoreError::Parenthesis => ErrorKind::Paren,
            CoreError::NoComparator | CoreError::NoConsequence => ErrorKind::Classify,
            CoreError::UnknownVariable(_) => ErrorKind::UnknownVariable,
            CoreError::DivisionByZero => ErrorKind::DivisionByZero,
            CoreError::Unsupported(_) => ErrorKind::UnsupportedOperator,
            CoreError::Malformed => ErrorKind::Malformed,
        }
    }

    /// The message of the failure, for a reader.
    pub fn message(&self) -> (r: String)
        ensures
            r@ == self@.text(),
    {
        match self {
            CoreError::IncorrectChar(c) => {
                let mut text = String::from_str("Incorrect char: ");
                push_char(&mut text, *c);
                text
            },
            CoreError::TwoPoints => String::from_str("Number with two points is not possible"),
            CoreError::Parenthesis => String::from_str("Mismatched parenthesis"),
            CoreError::NoComparator => String::from_str("No comparator in statement"),
            CoreError::NoConsequence => String::from_str("No consequence to statement"),
            CoreError::UnknownVariable(name) => {
                let mut text = String::from_str("Var [");
                text.append(name.as_str());
                text.append("] not found in memory");
                text
            },
            CoreError::DivisionByZero => String::from_str("Division by zero"),
            CoreError::Unsupported(Operator::Factorial) => String::from_str(
                "Factorials not supported for now",
            ),
            CoreError::Unsupported(_) => String::from_str("Operator not supported"),
            CoreError::Malformed => String::from_str("Invalid token in calculation"),
        }
    }

    /// Copies a failure.
    pub fn duplicate(&self) -> (r: CoreError)
        ensures
            r@ == self@,
    {
        match self {
            CoreError::IncorrectChar(c) => CoreError::IncorrectChar(*c),
            CoreError::TwoPoints => CoreError::TwoPoints,
            CoreError::Parenthesis => CoreError::Parenthesis,
            CoreError::NoComparator => CoreError::NoComparator,
            CoreError::NoConsequence => CoreError::NoConsequence,
            CoreError::UnknownVariable(name) => CoreError::UnknownVariable(name.clone()),
            CoreError::DivisionByZero => CoreError::DivisionByZero,
            CoreError::Unsupported(o) => CoreError::Unsupported(*o),
            CoreError::Malformed => CoreError::Malformed,
        }
    }
}

} // verus!
