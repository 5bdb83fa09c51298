//! The failures that end a run, and what each of them says.
use crate::validate::{failure_views, validation_message, validation_text, Inaccessible};
use vstd::prelude::*;
use vstd::string::*;

verus! {

/// Why a template was not expanded.
#[derive(Clone, Debug, PartialEq, Eq)]
pub enum TemplateError {
    /// The template file at `path` could not be read.
    TemplateRead { path: String },
    /// The pattern engine did not accept a pattern; the text is the
    /// engine's own.
    Pattern(String),
    /// One or more of the files that the template names are not accessible.
    Validation(Vec<Inaccessible>),
}

/// What is said of a template file that could not be read.
pub open spec fn template_read_text(path: Seq<char>) -> Seq<char> {
    "Failed to read template file: "@ + path
}

impl TemplateError {
    /// What the failure says.
    pub open spec fn message_text(&self) -> Seq<char> {
        match self {
            TemplateError::TemplateRead { path } => template_read_text(path@),
            TemplateError::Pattern(text) => text@,
            TemplateError::Validation(list) => validation_text(failure_views(list@)),
        }
    }

    /// Writes what the failure says.
    pub fn message(&self) -> (text: String)
        ensures
            text@ == self.message_text(),
    {
        match self {
            TemplateError::TemplateRead { path } => {
                let mut text = String::from_str("Failed to read template file: ");
                text.append(path.as_str());
                text
            },
            TemplateError::Pattern(text) => text.clone(),
            TemplateError::Validation(list) => validation_message(list.as_slice()),
        }
    }
}

} // verus!
