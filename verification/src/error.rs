//! The errors of the language, by kind.

use vstd::prelude::*;
use crate::value::{Value, ValueView};

verus! {

/// Everything that can go wrong between the source text and the end of a program.
#[derive(Clone, Debug, PartialEq)]
#[allow(inconsistent_fields)]
pub enum ErrorType {
    // Found while the text is split into tokens.
    UnexpectedCharacter { character: char, line: usize },
    UnterminatedString,
    // Found while the tokens are parsed.
    ExpectedCharacter { expected: char, line: usize },
    ExpectedExpression { line: usize },
    ExpectedFunctionName { line: usize },
    ExpectedParameterName { line: usize },
    ExpectedVariableName { line: usize },
    ExpectedSemicolonAfterInit { line: usize },
    ExpectedSemicolonAfterCondition { line: usize },
    ExpectedParenAfterIncrement { line: usize },
    ExpectedColonAfterKey { line: usize },
    // Names and indexing.
    NameError { name: String, line: usize },
    NotIndexable { line: usize },
    OutOfBoundsIndex { index: usize, line: usize },
    InsertNonStringIntoString { line: usize },
    // Types.
    InvalidAssignmentTarget { line: usize },
    ExpectedType { expected: String, got: String, line: usize },
    NonNaturalIndex { got: Value, line: usize },
    NonNumberIndex { got: String, line: usize },
    BinaryTypeError { expected: String, got_left: String, got_right: String, line: usize },
    DivideByZero { line: usize },
    IfConditionNotBoolean { line: usize },
    LoopConditionNotBoolean { line: usize },
    CannotCallName { line: usize },
    ArgParamNumberMismatch { arg_number: usize, param_number: usize, line: usize },
    CannotConvertToNumber { line: usize },
    // Dictionary keys.
    CannotHashFunction { line: usize },
    CannotHashDictionary { line: usize },
    KeyError { key: Value, line: usize },
    // A `break` outside a loop, a `return` outside a function.
    ThrownBreak { line: usize },
    ThrownReturn { value: Value, line: usize },
}

/// What an [`ErrorType`] is in contracts.
#[allow(inconsistent_fields)]
pub enum ErrorView {
    UnexpectedCharacter { character: char, line: usize },
    UnterminatedString,
    ExpectedCharacter { expected: char, line: usize },
    ExpectedExpression { line: usize },
    ExpectedFunctionName { line: usize },
    ExpectedParameterName { line: usize },
    ExpectedVariableName { line: usize },
    ExpectedSemicolonAfterInit { line: usize },
    ExpectedSemicolonAfterCondition { line: usize },
    ExpectedParenAfterIncrement { line: usize },
    ExpectedColonAfterKey { line: usize },
    NameError { name: Seq<char>, line: usize },
    NotIndexable { line: usize },
    OutOfBoundsIndex { index: usize, line: usize },
    InsertNonStringIntoString { line: usize },
    InvalidAssignmentTarget { line: usize },
    ExpectedType { expected: Seq<char>, got: Seq<char>, line: usize },
    NonNaturalIndex { got: ValueView, line: usize },
    NonNumberIndex { got: Seq<char>, line: usize },
    BinaryTypeError { expected: Seq<char>, got_left: Seq<char>, got_right: Seq<char>, line: usize },
    DivideByZero { line: usize },
    IfConditionNotBoolean { line: usize },
    LoopConditionNotBoolean { line: usize },
    CannotCallName { line: usize },
    ArgParamNumberMismatch { arg_number: usize, param_number: usize, line: usize },
    CannotConvertToNumber { line: usize },
    CannotHashFunction { line: usize },
    CannotHashDictionary { line: usize },
    KeyError { key: ValueView, line: usize },
    ThrownBreak { line: usize },
    ThrownReturn { value: ValueView, line: usize },
}

impl View for ErrorType {
    type V = ErrorView;

    open spec fn view(&self) -> ErrorView {
        match *self {
            ErrorType::UnexpectedCharacter { character, line } => ErrorView::UnexpectedCharacter {
                character: character,
                line: line,
            },
            ErrorType::UnterminatedString => ErrorView::UnterminatedString,
            ErrorType::ExpectedCharacter { expected, line } => ErrorView::ExpectedCharacter {
                expected: expected,
                line: line,
            },
            ErrorType::ExpectedExpression { line } => ErrorView::ExpectedExpression { line: line },
            ErrorType::ExpectedFunctionName { line } => ErrorView::ExpectedFunctionName {
                line: line,
            },
            ErrorType::ExpectedParameterName { line } => ErrorView::ExpectedParameterName {
                line: line,
            },
            ErrorType::ExpectedVariableName { line } => ErrorView::ExpectedVariableName {
                line: line,
            },
            ErrorType::ExpectedSemicolonAfterInit {
                line,
            } => ErrorView::ExpectedSemicolonAfterInit {
                line: line,
            },
            ErrorType::ExpectedSemicolonAfterCondition {
                line,
            } => ErrorView::ExpectedSemicolonAfterCondition {
                line: line,
            },
            ErrorType::ExpectedParenAfterIncrement {
                line,
            } => ErrorView::ExpectedParenAfterIncrement {
                line: line,
            },
            ErrorType::ExpectedColonAfterKey { line } => ErrorView::ExpectedColonAfterKey {
                line: line,
            },
            ErrorType::NameError { name, line } => ErrorView::NameError { name: name@, line: line },
            ErrorType::NotIndexable { line } => ErrorView::NotIndexable { line: line },
            ErrorType::OutOfBoundsIndex { index, line } => ErrorView::OutOfBoundsIndex {
                index: index,
                line: line,
            },
            ErrorType::InsertNonStringIntoString { line } => ErrorView::InsertNonStringIntoString {
                line: line,
            },
            ErrorType::InvalidAssignmentTarget { line } => ErrorView::InvalidAssignmentTarget {
                line: line,
            },
            ErrorType::ExpectedType { expected, got, line } => ErrorView::ExpectedType {
                expected: expected@,
                got: got@,
                line: line,
            },
            ErrorType::NonNaturalIndex { got, line } => ErrorView::NonNaturalIndex {
                got: got@,
                line: line,
            },
            ErrorType::NonNumberIndex { got, line } => ErrorView::NonNumberIndex {
                got: got@,
                line: line,
            },
            ErrorType::BinaryTypeError {
                expected,
                got_left,
                got_right,
                line,
            } => ErrorView::BinaryTypeError {
                expected: expected@,
                got_left: got_left@,
                got_right: got_right@,
                line: line,
            },
            ErrorType::DivideByZero { line } => ErrorView::DivideByZero { line: line },
            ErrorType::IfConditionNotBoolean { line } => ErrorView::IfConditionNotBoolean {
                line: line,
            },
            ErrorType::LoopConditionNotBoolean { line } => ErrorView::LoopConditionNotBoolean {
                line: line,
            },
            ErrorType::CannotCallName { line } => ErrorView::CannotCallName { line: line },
            ErrorType::ArgParamNumberMismatch {
                arg_number,
                param_number,
                line,
            } => ErrorView::ArgParamNumberMismatch {
                arg_number: arg_number,
                param_number: param_number,
                line: line,
            },
            ErrorType::CannotConvertToNumber { line } => ErrorView::CannotConvertToNumber {
                line: line,
            },
            ErrorType::CannotHashFunction { line } => ErrorView::CannotHashFunction { line: line },
            ErrorType::CannotHashDictionary { line } => ErrorView::CannotHashDictionary {
                line: line,
            },
            ErrorType::KeyError { key, line } => ErrorView::KeyError { key: key@, line: line },
            ErrorType::ThrownBreak { line } => ErrorView::ThrownBreak { line: line },
            ErrorType::ThrownReturn { value, line } => ErrorView::ThrownReturn {
                value: value@,
                line: line,
            },
        }
    }
}

/// The view of an outcome that is a value or an error.
pub open spec fn result_view<T: View>(result: Result<T, ErrorType>) -> Result<T::V, ErrorView> {
    match result {
        Ok(value) => Ok(value@),
        Err(error) => Err(error@),
    }
}

/// The view of an outcome that is a plain value or an error.
pub open spec fn error_view<T>(result: Result<T, ErrorType>) -> Result<T, ErrorView> {
    match result {
        Ok(value) => Ok(value),
        Err(error) => Err(error@),
    }
}

} // verus!
