use vstd::prelude::*;

use crate::grammar::Diagnostic;
use crate::text::{chars_of, decimal, push_decimal, string_of};

verus! {

pub const UNEXPECTED_CHARACTER: &'static str = "Unexpected character";

pub const UNTERMINATED_STRING: &'static str = "Unterminated string";

#[derive(Debug)]
pub enum FeroxError {
    SyntaxError { error_description: String, line_number: usize },
    InvalidFilePathError { file_path: String },
}

impl FeroxError {
    /// Whether this is the syntax error that the grammar describes by `d`.
    pub open spec fn is_diagnostic(&self, d: Diagnostic) -> bool {
        match self {
            FeroxError::SyntaxError { error_description, line_number } => {
                &&& error_description@ == d.description
                &&& *line_number == d.line
            },
            FeroxError::InvalidFilePathError { .. } => false,
        }
    }

    /// Equality of errors by the contents of their strings.
    pub open spec fn same_as(&self, other: &FeroxError) -> bool {
        match (self, other) {
            (
                FeroxError::SyntaxError { error_description: a, line_number: m },
                FeroxError::SyntaxError { error_description: b, line_number: n },
            ) => a@ == b@ && m == n,
            (
                FeroxError::InvalidFilePathError { file_path: a },
                FeroxError::InvalidFilePathError { file_path: b },
            ) => a@ == b@,
            _ => false,
        }
    }

    /// The text shown to a user for this error.
    pub fn message(&self) -> (r: String)
        ensures
            r@ == match self {
                FeroxError::SyntaxError { error_description, line_number } => "At line "@
                    + decimal(*line_number as nat) + ": "@ + error_description@,
                FeroxError::InvalidFilePathError { file_path } => "The path '"@ + file_path@
                    + "' does not point to a valid script file."@,
            },
    {
        let mut text = Vec::new();
        match self {
            FeroxError::SyntaxError { error_description, line_number } => {
                text.append(&mut chars_of("At line "));
                push_decimal(*line_number, &mut text);
                text.append(&mut chars_of(": "));
                text.append(&mut chars_of(error_description.as_str()));
            },
            FeroxError::InvalidFilePathError { file_path } => {
                text.append(&mut chars_of("The path '"));
                text.append(&mut chars_of(file_path.as_str()));
                text.append(&mut chars_of("' does not point to a valid script file."));
            },
        }
        proof {
            assert(text@ =~= match self {
                FeroxError::SyntaxError { error_description, line_number } => "At line "@
                    + decimal(*line_number as nat) + ": "@ + error_description@,
                FeroxError::InvalidFilePathError { file_path } => "The path '"@ + file_path@
                    + "' does not point to a valid script file."@,
            });
        }
        string_of(&text, 0, text.len())
    }
}

} // verus!
