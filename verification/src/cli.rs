//! The command line around the decoder: one argument in, a report or a
//! failure out.

use crate::error::{parse_error_text, ParseError};
use crate::header::V6Header;
use crate::layout::parse;
use crate::report::report_text;
use vstd::prelude::*;

verus! {

/// A wrong number of arguments.
#[derive(Clone, Copy, Debug, PartialEq, Eq)]
pub enum UsageError {
    /// No argument was given.
    NoArgument,
    /// More than one argument was given.
    TooManyArguments,
}

/// Why a run gives no report.
#[derive(Clone, Copy, Debug, PartialEq, Eq)]
pub enum Failure {
    /// The count of arguments was wrong.
    Usage(UsageError),
    /// The argument is no header.
    Input(ParseError),
}

/// What a wrong number of arguments is answered with.
pub open spec fn usage_error_text(reason: UsageError) -> Seq<char> {
    match reason {
        UsageError::NoArgument => "No argument!"@,
        UsageError::TooManyArguments => "too many arguments!"@,
    }
}

/// What a failure is answered with.
pub open spec fn failure_text(failure: Failure) -> Seq<char> {
    match failure {
        Failure::Usage(reason) => usage_error_text(reason),
        Failure::Input(reason) => parse_error_text(reason),
    }
}

/// The status with which a run that failed ends: 1 for a wrong number of
/// arguments, 2 for an argument that is no header.
pub open spec fn failure_status(failure: Failure) -> nat {
    match failure {
        Failure::Usage(_) => 1,
        Failure::Input(_) => 2,
    }
}

/// What a run makes of the words of a command line, the name of the program
/// being the first of them: the report on the header that the one argument
/// encodes, or the reason why there is none.
pub open spec fn run_result(words: Seq<Seq<char>>) -> Result<Seq<char>, Failure> {
    if words.len() < 2 {
        Err(Failure::Usage(UsageError::NoArgument))
    } else if words.len() > 2 {
        Err(Failure::Usage(UsageError::TooManyArguments))
    } else {
        match parse(words[1]) {
            Ok(fields) => Ok(report_text(fields)),
            Err(reason) => Err(Failure::Input(reason)),
        }
    }
}

/// The texts of `words`.
pub open spec fn texts(words: Seq<String>) -> Seq<Seq<char>> {
    Seq::new(words.len(), |i: int| words[i]@)
}

impl UsageError {
    /// The answer to a wrong number of arguments.
    pub fn message(&self) -> (text: &'static str)
        ensures
            text@ == usage_error_text(*self),
    {
        match self {
            UsageError::NoArgument => "No argument!",
            UsageError::TooManyArguments => "too many arguments!",
        }
    }
}

impl Failure {
    /// The line to write for the failure.
    pub fn message(&self) -> (text: String)
        ensures
            text@ == failure_text(*self),
    {
        match self {
            Failure::Usage(reason) => {
                let mut text = String::new();
                text.append(reason.message());
                text
            },
            Failure::Input(reason) => reason.message(),
        }
    }

    /// The status to end the process with.
    pub fn exit_code(&self) -> (code: u8)
        ensures
            code == failure_status(*self),
    {
        match self {
            Failure::Usage(_) => 1,
            Failure::Input(_) => 2,
        }
    }
}

/// Picks the one argument out of the words of a command line, the name of
/// the program being the first of them.
pub fn select_argument(words: &Vec<String>) -> (r: Result<&String, UsageError>)
    ensures
        match r {
            Ok(argument) => words@.len() == 2 && *argument == words@[1],
            Err(UsageError::NoArgument) => words@.len() < 2,
            Err(UsageError::TooManyArguments) => words@.len() > 2,
        },
{
    if words.len() > 2 {
        Err(UsageError::TooManyArguments)
    } else if words.len() < 2 {
        Err(UsageError::NoArgument)
    } else {
        Ok(&words[1])
    }
}

/// Runs the decoder on the words of a command line, the name of the program
/// being the first of them: gives the report to print, or the failure to
/// answer with.
pub fn run(words: &Vec<String>) -> (r: Result<String, Failure>)
    ensures
        match r {
            Ok(report) => run_result(texts(words@)) == Ok::<Seq<char>, Failure>(report@),
            Err(failure) => run_result(texts(words@)) == Err::<Seq<char>, Failure>(failure),
        },
{
    match select_argument(words) {
        Err(reason) => Err(Failure::Usage(reason)),
        Ok(argument) => match V6Header::new(argument.as_str()) {
            Ok(header) => Ok(header.report()),
            Err(reason) => Err(Failure::Input(reason)),
        },
    }
}

} // verus!
