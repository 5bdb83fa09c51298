//! Expansion of prompt templates: every `{path}` placeholder of a template is
//! replaced by the fenced content of the file that it names.
//!
//! The library computes on text only. Its caller asks the file system and
//! hands over what each probe and each read gave.
//!
//! - [`placeholder`]: the placeholder grammar and what it means to find the
//!   placeholders of a text from left to right.
//! - [`search`]: finding them with the `regex` crate.
//! - [`validate`]: the check that every named file is accessible, and the
//!   message of a failed check.
//! - [`occurrence`]: where a literal text stands in another.
//! - [`expand`]: rendering a read and expanding a template in one pass.
//! - [`substitution`]: what the expansion of a template is, and what holds
//!   of it.
//! - [`error`]: the failures that end a run.
pub mod error;
pub mod expand;
pub mod occurrence;
pub mod placeholder;
pub mod search;
pub mod substitution;
pub mod validate;

pub use crate::error::TemplateError;
pub use crate::expand::{expand_found, expand_template, render, FileRead};
pub use crate::placeholder::Placeholder;
pub use crate::search::{collect_paths, extract_filenames, find_placeholders};
pub use crate::validate::{check_files_readable, validation_message, Inaccessible, Probe};
