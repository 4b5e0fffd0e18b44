//! The diagnostic that lexing and parsing fail with.

use crate::text::{decimal, push_decimal};
use vstd::prelude::*;
use vstd::string::*;

verus! {

/// A message and the 1-based source line that it is about.
#[derive(Debug, Clone, PartialEq, Eq)]
pub struct JPLError {
    message: String,
    line: usize,
}

/// What a diagnostic says: its message and its line.
pub struct Diagnostic {
    pub message: Seq<char>,
    pub line: nat,
}

impl View for JPLError {
    type V = Diagnostic;

    closed spec fn view(&self) -> Diagnostic {
        Diagnostic { message: self.message@, line: self.line as nat }
    }
}

/// The text of the report for a diagnostic: its line, then its message.
pub open spec fn report_text(d: Diagnostic) -> Seq<char> {
    "Error on line "@ + decimal(d.line) + ": "@ + d.message
}

impl JPLError {
    /// A diagnostic with the given message for the given line.
    pub fn new(message: String, line: usize) -> (e: Self)
        ensures
            e@ == (Diagnostic { message: message@, line: line as nat }),
    {
        JPLError { message, line }
    }

    /// The message, without the line.
    pub fn message(&self) -> (m: &String)
        ensures
            m@ == self@.message,
    {
        &self.message
    }

    /// The 1-based source line.
    pub fn line(&self) -> (l: usize)
        ensures
            l == self@.line,
    {
        self.line
    }

    /// The report that a driver prints for this diagnostic.
    pub fn report(&self) -> (s: String)
        ensures
            s@ == report_text(self@),
    {
        let mut s = String::from_str("Error on line ");
        push_decimal(&mut s, self.line as u128);
        s.append(": ");
        s.append(self.message.as_str());
        s
    }
}

} // verus!
