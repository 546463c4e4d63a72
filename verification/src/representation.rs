//! The forms in which lists are sent.

use vstd::prelude::*;

verus! {

/// The form of a list.
#[derive(Clone, Copy, Debug, PartialEq, Eq, Structural)]
pub enum OutputFormat {
    /// One document.
    Json,
    /// One document on each line.
    Jsonl,
}

impl Default for OutputFormat {
    fn default() -> (r: OutputFormat)
        ensures
            r == OutputFormat::Json,
    {
        OutputFormat::Json
    }
}

impl OutputFormat {
    /// The media type of a form.
    pub fn content_type(self) -> (r: &'static str)
        ensures
            r@ == (match self {
                OutputFormat::Json => "application/json"@,
                OutputFormat::Jsonl => "application/x-ndjson"@,
            }),
    {
        match self {
            OutputFormat::Json => "application/json",
            OutputFormat::Jsonl => "application/x-ndjson",
        }
    }
}

} // verus!
