//! The error type of the library.

use vstd::prelude::*;
use crate::text::{append_chars, append_str, chars_to_string, decimal, decimal_chars, str_chars};

verus! {

/// Everything that can go wrong between a diagram source and its SVG.
#[derive(Debug, Clone)]
pub enum ArchflowError {
    /// The JSON text of a diagram could not be read.
    InvalidJson(String),
    /// The diagram breaks a rule of the schema.
    InvalidSchema(String),
    /// The layout could not be computed.
    LayoutError(String),
    /// The SVG could not be written.
    RenderError(String),
    /// A line of the DSL could not be parsed (lines count from 1).
    ParseError { line: usize, message: String },
}

/// An error as plain values.
pub enum ErrorView {
    InvalidJson(Seq<char>),
    InvalidSchema(Seq<char>),
    LayoutError(Seq<char>),
    RenderError(Seq<char>),
    ParseError { line: nat, message: Seq<char> },
}

impl View for ArchflowError {
    type V = ErrorView;

    open spec fn view(&self) -> ErrorView {
        match self {
            ArchflowError::InvalidJson(m) => ErrorView::InvalidJson(m@),
            ArchflowError::InvalidSchema(m) => ErrorView::InvalidSchema(m@),
            ArchflowError::LayoutError(m) => ErrorView::LayoutError(m@),
            ArchflowError::RenderError(m) => ErrorView::RenderError(m@),
            ArchflowError::ParseError { line, message } => ErrorView::ParseError {
                line: *line as nat,
                message: message@,
            },
        }
    }
}

/// The text that describes an error.
pub open spec fn error_text(e: ErrorView) -> Seq<char> {
    match e {
        ErrorView::InvalidJson(m) => "Invalid JSON: "@ + m,
        ErrorView::InvalidSchema(m) => "Invalid schema: "@ + m,
        ErrorView::LayoutError(m) => "Layout error: "@ + m,
        ErrorView::RenderError(m) => "Render error: "@ + m,
        ErrorView::ParseError { line, message } => "Parse error at line "@ + decimal(line) + ": "@
            + message,
    }
}

impl ArchflowError {
    /// The text that describes this error.
    pub fn to_string(&self) -> (s: String)
        ensures
            s@ == error_text(self@),
    {
        let mut out: Vec<char>;
        match self {
            ArchflowError::InvalidJson(m) => {
                out = str_chars("Invalid JSON: ");
                append_str(&mut out, m.as_str());
            },
            ArchflowError::InvalidSchema(m) => {
                out = str_chars("Invalid schema: ");
                append_str(&mut out, m.as_str());
            },
            ArchflowError::LayoutError(m) => {
                out = str_chars("Layout error: ");
                append_str(&mut out, m.as_str());
            },
            ArchflowError::RenderError(m) => {
                out = str_chars("Render error: ");
                append_str(&mut out, m.as_str());
            },
            ArchflowError::ParseError { line, message } => {
                out = str_chars("Parse error at line ");
                let digits = decimal_chars(*line as u128);
                append_chars(&mut out, &digits);
                append_str(&mut out, ": ");
                append_str(&mut out, message.as_str());
            },
        }
        chars_to_string(&out)
    }
}

} // verus!
