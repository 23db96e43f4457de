//! Errors with a label, a hint and a place.

use vstd::prelude::*;
use vstd::string::StringExecFns;
use crate::text::{decimal_text, push_decimal};

verus! {

/// Where an error arose.
#[derive(Debug)]
#[allow(inconsistent_fields)]
pub enum DiagnosticMetadata {
    /// At an address on the network.
    Net { url: String },
    /// At a path in the file system.
    Fs { path: String },
    /// At a row and a column of a text, which may have been read from a
    /// file.
    Parse { input: String, row: usize, col: usize, path: Option<String> },
}

/// What an error knows about the place where it arose.
pub trait GetMetadata {
    /// The place, if the error knows it. Unless an error says otherwise,
    /// it knows none.
    fn meta(&self) -> (place: Option<DiagnosticMetadata>)
        default_ensures
            place is None,
    {
        None
    }
}

/// An error that has a label and may have a hint.
pub trait Diagnostic: GetMetadata {
    fn label(&self) -> String;

    fn help(&self) -> Option<String>;
}

/// An error with its message, its label, its hint and its place.
#[derive(Debug)]
pub struct DiagnosticError {
    pub message: String,
    pub label: String,
    pub help: Option<String>,
    pub meta: Option<DiagnosticMetadata>,
}

/// A result whose error can be given a label.
pub trait IntoDiagnostic<T> {
    fn into_diagnostic(self, label: &str) -> Result<T, DiagnosticError>;
}

impl<T> IntoDiagnostic<T> for Result<T, String> {
    /// Keeps a success, and turns the message of a failure into an error
    /// with the given label, without hint or place.
    fn into_diagnostic(self, label: &str) -> (labelled: Result<T, DiagnosticError>)
        ensures
            match (self, labelled) {
                (Ok(value), Ok(kept)) => value == kept,
                (Err(message), Err(error)) => {
                    &&& error.message@ == message@
                    &&& error.label@ == label@
                    &&& error.help is None
                    &&& error.meta is None
                },
                _ => false,
            },
    {
        match self {
            Ok(value) => Ok(value),
            Err(message) => Err(
                DiagnosticError { message, label: String::from_str(label), help: None, meta: None },
            ),
        }
    }
}

/// The text that tells the place of an error, after its label.
pub open spec fn place_text(meta: Option<DiagnosticMetadata>) -> Seq<char> {
    match meta {
        Some(DiagnosticMetadata::Net { url }) => " @ "@ + url@,
        Some(DiagnosticMetadata::Fs { path }) => " @ "@ + path@,
        Some(DiagnosticMetadata::Parse { input, row, col, path }) => " - line: "@ + (decimal_text(
            row as nat,
        ) + (", col: "@ + (decimal_text(col as nat) + match path {
            Some(p) => " @ "@ + p@,
            None => Seq::empty(),
        }))),
        None => Seq::empty(),
    }
}

/// The text that gives the hint of an error, after its message.
pub open spec fn help_text(help: Option<String>) -> Seq<char> {
    match help {
        Some(hint) => "\n\nhelp: "@ + hint@,
        None => Seq::empty(),
    }
}

/// The report of an error: its label and its place, a blank line, its
/// message, and after another blank line its hint, if it has one.
pub open spec fn report_text(error: DiagnosticError) -> Seq<char> {
    error.label@ + (place_text(error.meta) + ("\n\n"@ + (error.message@ + help_text(error.help))))
}

impl DiagnosticError {
    /// The error that `error` describes, with the given message.
    pub fn from_diagnostic<E: Diagnostic>(error: &E, message: String) -> (described:
        DiagnosticError)
        ensures
            described.message == message,
    {
        DiagnosticError { meta: error.meta(), label: error.label(), help: error.help(), message }
    }

    /// The report of the error.
    pub fn report(&self) -> (text: String)
        ensures
            text@ == report_text(*self),
    {
        let mut text = String::new();
        text.append(self.label.as_str());
        let ghost labelled = text@;
        match &self.meta {
            Some(DiagnosticMetadata::Net { url }) => {
                text.append(" @ ");
                text.append(url.as_str());
            },
            Some(DiagnosticMetadata::Fs { path }) => {
                text.append(" @ ");
                text.append(path.as_str());
            },
            Some(DiagnosticMetadata::Parse { input: _, row, col, path }) => {
                text.append(" - line: ");
                push_decimal(&mut text, *row as u64);
                text.append(", col: ");
                push_decimal(&mut text, *col as u64);
                match path {
                    Some(p) => {
                        text.append(" @ ");
                        text.append(p.as_str());
                    },
                    None => {},
                }
            },
            None => {},
        }
        assert(text@ =~= self.label@ + place_text(self.meta));
        text.append("\n\n");
        text.append(self.message.as_str());
        match &self.help {
            Some(hint) => {
                text.append("\n\nhelp: ");
                text.append(hint.as_str());
            },
            None => {},
        }
        assert(text@ =~= report_text(*self));
        text
    }
}

} // verus!
