//! The error that the configuration code reports: a message, and the text
//! of the error that caused it where there is one.

use vstd::prelude::*;
use vstd::string::StringExecFns;

verus! {

/// What a `DiagnosticError` holds.
pub struct DiagnosticView {
    pub message: Seq<char>,
    pub source: Option<Seq<char>>,
}

/// An error with a message for the user.
#[derive(Debug)]
pub struct DiagnosticError {
    message: String,
    source: Option<String>,
}

/// How the formatter of `std` writes `text` for debugging: in double
/// quotes, with what cannot be printed escaped.
pub uninterp spec fn debug_text(text: Seq<char>) -> Seq<char>;

/// Writes `text` as `std` formats a string for debugging.
///
/// Stands for the `Debug` formatting of `str`; the result is taken as a
/// function of the text alone.
#[verifier::external_body]
pub(crate) fn debug_quoted(text: &String) -> (quoted: String)
    ensures
        quoted@ == debug_text(text@),
{
    format!("{:?}", text)
}

/// The line that an error shows to the user: its message, followed by a
/// colon and the quoted text of its cause where it has one.
pub open spec fn rendered(error: DiagnosticView) -> Seq<char> {
    match error.source {
        None => error.message,
        Some(source) => error.message + ": "@ + debug_text(source),
    }
}

impl View for DiagnosticError {
    type V = DiagnosticView;

    closed spec fn view(&self) -> DiagnosticView {
        DiagnosticView {
            message: self.message@,
            source: match self.source {
                None => None,
                Some(source) => Some(source@),
            },
        }
    }
}

impl DiagnosticError {
    /// An error without a cause.
    pub fn new(message: String) -> (error: Self)
        ensures
            error@ == (DiagnosticView { message: message@, source: None }),
    {
        DiagnosticError { message, source: None }
    }

    /// An error caused by another, of which `source` is the text.
    pub fn new_source(message: String, source: String) -> (error: Self)
        ensures
            error@ == (DiagnosticView { message: message@, source: Some(source@) }),
    {
        DiagnosticError { message, source: Some(source) }
    }

    /// The message.
    pub fn message(&self) -> (message: &String)
        ensures
            message@ == self@.message,
    {
        &self.message
    }

    /// The text of the cause, if there is one.
    pub fn source(&self) -> (source: Option<&String>)
        ensures
            match source {
                None => self@.source is None,
                Some(text) => self@.source == Some(text@),
            },
    {
        match &self.source {
            None => None,
            Some(text) => Some(text),
        }
    }

    /// The line that the error shows to the user.
    pub fn to_string(&self) -> (line: String)
        ensures
            line@ == rendered(self@),
    {
        match &self.source {
            None => self.message.clone(),
            Some(source) => {
                let quoted = debug_quoted(source);
                self.message.clone().concat(": ").concat(quoted.as_str())
            },
        }
    }
}

impl PartialEq for DiagnosticError {
    fn eq(&self, other: &Self) -> (equal: bool) {
        let same_source = match (&self.source, &other.source) {
            (None, None) => true,
            (Some(mine), Some(theirs)) => *mine == *theirs,
            _ => false,
        };
        self.message == other.message && same_source
    }
}

impl vstd::std_specs::cmp::PartialEqSpecImpl for DiagnosticError {
    open spec fn obeys_eq_spec() -> bool {
        true
    }

    open spec fn eq_spec(&self, other: &Self) -> bool {
        self@ == other@
    }
}

} // verus!
