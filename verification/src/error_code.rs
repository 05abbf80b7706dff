//! The closed set of error kinds the make engine reports, each with its
//! small-integer exit code and its user-visible message.

use vstd::prelude::*;

use crate::special_target;
use crate::text::{dec_of_int, i32_to_string};

verus! {

/// Every error the make engine can report.
#[derive(Debug, Clone, PartialEq, Eq)]
pub enum ErrorCode {
    /// A recipe failed: its exit code, or none when it was signal-killed.
    ExecutionError { exit_code: Option<i32> },
    /// A filesystem or process-spawn failure, with its description.
    IoError(String),
    /// The makefile text could not be parsed.
    ParseError(String),
    /// No makefile was found.
    NoMakefile,
    /// A named target (or, with none given, any target at all) is missing.
    NoTarget { target: Option<String> },
    /// No rule exists for this name.
    NoRule { rule: String },
    /// A target depends, directly or transitively, on itself.
    RecursivePrerequisite { origin: String },
    /// A reserved target's structural constraint is broken.
    SpecialTargetConstraintNotFulfilled { target: String, constraint: special_target::Error },
}

/// The exit code of each error kind: a closed small-integer enumeration.
pub open spec fn code_spec(e: &ErrorCode) -> int {
    match e {
        ErrorCode::ExecutionError { .. } => 1,
        ErrorCode::IoError(_) => 2,
        ErrorCode::ParseError(_) => 3,
        ErrorCode::NoMakefile => 4,
        ErrorCode::NoTarget { .. } => 5,
        ErrorCode::NoRule { .. } => 6,
        ErrorCode::RecursivePrerequisite { .. } => 7,
        ErrorCode::SpecialTargetConstraintNotFulfilled { .. } => 8,
    }
}

/// The user-visible message of each error kind, printed by the program as
/// `make: <message>`.
pub open spec fn message_spec(e: &ErrorCode) -> Seq<char> {
    match e {
        ErrorCode::ExecutionError { exit_code } => match exit_code {
            Some(c) => "execution error: "@ + dec_of_int(*c as int),
            None => "execution error: terminated by signal"@,
        },
        ErrorCode::IoError(m) => "io error: "@ + m@,
        ErrorCode::ParseError(m) => "parse error: "@ + m@,
        ErrorCode::NoMakefile => "no makefile"@,
        ErrorCode::NoTarget { target } => match target {
            Some(t) => "no target '"@ + t@ + "'"@,
            None => "no targets to execute"@,
        },
        ErrorCode::NoRule { rule } => "no rule '"@ + rule@ + "'"@,
        ErrorCode::RecursivePrerequisite { origin } => {
            "recursive prerequisite found trying to build '"@ + origin@ + "'"@
        },
        ErrorCode::SpecialTargetConstraintNotFulfilled { target, constraint } => {
            "'"@ + target@ + "' special target constraint is not fulfilled: "@
                + special_target::error_message_spec(*constraint)
        },
    }
}

impl ErrorCode {
    /// The exit code this error maps to; 0 is success and never an error's.
    pub fn code(&self) -> (r: i32)
        ensures
            r == code_spec(self),
            1 <= r <= 8,
    {
        match self {
            ErrorCode::ExecutionError { .. } => 1,
            ErrorCode::IoError(_) => 2,
            ErrorCode::ParseError(_) => 3,
            ErrorCode::NoMakefile => 4,
            ErrorCode::NoTarget { .. } => 5,
            ErrorCode::NoRule { .. } => 6,
            ErrorCode::RecursivePrerequisite { .. } => 7,
            ErrorCode::SpecialTargetConstraintNotFulfilled { .. } => 8,
        }
    }

    /// The user-visible message.
    pub fn message(&self) -> (r: String)
        ensures
            r@ == message_spec(self),
    {
        match self {
            ErrorCode::ExecutionError { exit_code } => match exit_code {
                Some(c) => {
                    let mut m = String::from_str("execution error: ");
                    let digits = i32_to_string(*c);
                    m.append(digits.as_str());
                    m
                },
                None => String::from_str("execution error: terminated by signal"),
            },
            ErrorCode::IoError(desc) => {
                let mut m = String::from_str("io error: ");
                m.append(desc.as_str());
                m
            },
            ErrorCode::ParseError(desc) => {
                let mut m = String::from_str("parse error: ");
                m.append(desc.as_str());
                m
            },
            ErrorCode::NoMakefile => String::from_str("no makefile"),
            ErrorCode::NoTarget { target } => match target {
                Some(t) => {
                    let mut m = String::from_str("no target '");
                    m.append(t.as_str());
                    m.append("'");
                    m
                },
                None => String::from_str("no targets to execute"),
            },
            ErrorCode::NoRule { rule } => {
                let mut m = String::from_str("no rule '");
                m.append(rule.as_str());
                m.append("'");
                m
            },
            ErrorCode::RecursivePrerequisite { origin } => {
                let mut m = String::from_str("recursive prerequisite found trying to build '");
                m.append(origin.as_str());
                m.append("'");
                m
            },
            ErrorCode::SpecialTargetConstraintNotFulfilled { target, constraint } => {
                let mut m = String::from_str("'");
                m.append(target.as_str());
                m.append("' special target constraint is not fulfilled: ");
                let cm = constraint.message();
                m.append(cm.as_str());
                m
            },
        }
    }
}

} // verus!
