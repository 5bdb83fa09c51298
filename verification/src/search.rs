//! Finding the placeholders of a template with the `regex` crate.
use crate::error::TemplateError;
use crate::placeholder::{
    lemma_listed_are_the_placeholders, lists_placeholders, paths_of, placeholder_paths,
    placeholders, texts, views, Placeholder,
};
use vstd::prelude::*;

verus! {

/// The error of `regex::Regex::new`, carried as it comes.
#[verifier::external_type_specification]
#[verifier::external_body]
pub struct ExPatternError(regex::Error);

/// The placeholder grammar as a regular expression: an opening brace, one or
/// more characters other than a closing brace (the first group), a closing
/// brace.
pub const PLACEHOLDER_PATTERN: &'static str = "\\{([^}]+)\\}";

/// The text of the placeholder pattern.
pub open spec fn placeholder_pattern() -> Seq<char> {
    PLACEHOLDER_PATTERN@
}

/// Compiles the placeholder pattern with `regex::Regex::new` and collects
/// what `Regex::captures_iter` yields on `text`, taking from each item the
/// whole match (`Captures::get(0)`) and the first group (`Captures::get(1)`)
/// as text (`Match::as_str`).
///
/// Verus takes on trust: the pattern compiles, since it is made of two
/// escaped braces and a group around a repeated negated class, all of them
/// of the crate's syntax, and is far below the size limit; the iterator
/// yields the successive non-overlapping matches of the pattern from left
/// to right, so each item is a brace, one or more characters other than `}`
/// and a brace, the first group is what stands between the braces, and no
/// match begins between two items or behind the last.
#[verifier::external_body]
fn capture_placeholders(pattern: &str, text: &str) -> (found: Result<
    Vec<Placeholder>,
    regex::Error,
>)
    requires
        pattern@ == placeholder_pattern(),
    ensures
        found is Ok,
        found matches Ok(list) ==> lists_placeholders(text@, 0, views(list@)),
{
    let compiled = regex::Regex::new(pattern)?;
    let mut found = Vec::new();
    for item in compiled.captures_iter(text) {
        found.push(
            Placeholder {
                raw: item.get(0).unwrap().as_str().to_string(),
                path: item.get(1).unwrap().as_str().to_string(),
            },
        );
    }
    Ok(found)
}

/// Finds the placeholders of a template, in the order in which they appear.
/// The search does not fail: the placeholder pattern compiles.
pub fn find_placeholders(template: &str) -> (found: Result<Vec<Placeholder>, TemplateError>)
    ensures
        found matches Ok(list) && views(list@) == placeholders(template@),
{
    match capture_placeholders(PLACEHOLDER_PATTERN, template) {
        Ok(list) => {
            proof {
                lemma_listed_are_the_placeholders(template@, 0, views(list@));
            }
            Ok(list)
        },
        Err(e) => Err(TemplateError::Pattern(e.to_string())),
    }
}

/// The paths of the placeholders in `found`, in the same order.
pub fn collect_paths(found: &[Placeholder]) -> (names: Vec<String>)
    ensures
        texts(names@) == paths_of(views(found@)),
{
    let mut names: Vec<String> = Vec::new();
    let mut k: usize = 0;
    while k < found.len()
        invariant
            k <= found.len(),
            names.len() == k,
            forall|i: int| 0 <= i < k ==> names@[i]@ == found@[i].path@,
        decreases found.len() - k,
    {
        names.push(found[k].path.clone());
        k = k + 1;
    }
    names
}

/// Extracts the paths that a template names: one for each placeholder, in
/// the order in which the placeholders appear, duplicates included. The
/// extraction does not fail.
pub fn extract_filenames(template: &str) -> (names: Result<Vec<String>, TemplateError>)
    ensures
        names matches Ok(list) && texts(list@) == placeholder_paths(template@),
{
    match find_placeholders(template) {
        Ok(found) => Ok(collect_paths(found.as_slice())),
        Err(e) => Err(e),
    }
}

} // verus!
