//! Expansion of a template: each placeholder gives way to the rendered
//! content of the file that it names. The template is gone through once;
//! what is put in is never searched.
use crate::error::TemplateError;
use crate::occurrence::{find_from, first_at, lemma_first_at_is_first, to_chars};
use crate::placeholder::{views, Placeholder, PlaceholderView};
use crate::search::find_placeholders;
use crate::substitution::{lemma_splice_is_substitution, substitution};
use vstd::prelude::*;
use vstd::string::*;

verus! {

/// What reading one file gave.
#[derive(Clone, Debug, PartialEq, Eq)]
pub enum FileRead {
    /// The whole content of the file.
    Content(String),
    /// The read failed; the text is the reason the system gave.
    Failed(String),
}

/// A file's content in a fenced block: three backticks, a line break, the
/// content as it is, a line break, three backticks.
pub open spec fn fenced(content: Seq<char>) -> Seq<char> {
    "```\n"@ + content + "\n```"@
}

/// The note that stands in the output for a file that could not be read.
pub open spec fn failure_note(path: Seq<char>, reason: Seq<char>) -> Seq<char> {
    "[Error reading file '"@ + path + "': "@ + reason + "]"@
}

/// What takes the place of a placeholder that names `path`, given what
/// reading that file gave.
pub open spec fn rendering(path: Seq<char>, read: FileRead) -> Seq<char> {
    match read {
        FileRead::Content(content) => fenced(content@),
        FileRead::Failed(reason) => failure_note(path, reason@),
    }
}

/// The number of placeholders that have a read of their own: read `k`
/// belongs to placeholder `k`.
pub open spec fn paired(placeholders: nat, reads: nat) -> nat {
    if placeholders <= reads {
        placeholders
    } else {
        reads
    }
}

/// The first of the placeholders `from`, `from + 1`, .. below `steps` that
/// names `path`, or `steps` where none of them does.
pub open spec fn first_naming(
    found: Seq<PlaceholderView>,
    path: Seq<char>,
    from: int,
    steps: int,
) -> int
    decreases steps - from,
{
    if from < 0 || from >= steps {
        steps
    } else if found[from].path == path {
        from
    } else {
        first_naming(found, path, from + 1, steps)
    }
}

/// What takes the place of the placeholder `entry`: the rendering of the
/// read of the first placeholder that names the same path, so that
/// placeholders with one path are rendered alike. Where no placeholder
/// with a read names the path, the placeholder stands as it is.
pub open spec fn filling(
    found: Seq<PlaceholderView>,
    reads: Seq<FileRead>,
    entry: PlaceholderView,
) -> Seq<char> {
    let steps = paired(found.len(), reads.len()) as int;
    let first = first_naming(found, entry.path, 0, steps);
    if first < steps {
        rendering(entry.path, reads[first])
    } else {
        entry.raw
    }
}

/// The text from position `from` on with the entries `k`, `k + 1`, .. of
/// `found` replaced where they stand, in one pass: each entry is sought
/// behind the end of the entry before it; its filling takes its place; the
/// text between the entries is kept. An entry that does not stand there is
/// passed over.
pub open spec fn spliced_from(
    text: Seq<char>,
    found: Seq<PlaceholderView>,
    reads: Seq<FileRead>,
    k: int,
    from: int,
) -> Seq<char>
    decreases found.len() - k,
{
    if k < 0 || k >= found.len() {
        text.subrange(from, text.len() as int)
    } else {
        match first_at(text, found[k].raw, from) {
            Some(at) => text.subrange(from, at) + filling(found, reads, found[k]) + spliced_from(
                text,
                found,
                reads,
                k + 1,
                at + found[k].raw.len(),
            ),
            None => spliced_from(text, found, reads, k + 1, from),
        }
    }
}

/// The text with the entries of `found` replaced where they stand, in one
/// pass from left to right.
pub open spec fn spliced(
    text: Seq<char>,
    found: Seq<PlaceholderView>,
    reads: Seq<FileRead>,
) -> Seq<char> {
    spliced_from(text, found, reads, 0, 0)
}

/// Renders what reading the file at `path` gave.
pub fn render(path: &str, read: &FileRead) -> (out: String)
    ensures
        out@ == rendering(path@, *read),
{
    match read {
        FileRead::Content(content) => {
            let mut out = String::from_str("```\n");
            out.append(content.as_str());
            out.append("\n```");
            out
        },
        FileRead::Failed(reason) => {
            let mut out = String::from_str("[Error reading file '");
            out.append(path);
            out.append("': ");
            out.append(reason.as_str());
            out.append("]");
            out
        },
    }
}

/// The first of the first `steps` placeholders that names `path`, or
/// `steps` where none of them does.
fn first_reader(found: &[Placeholder], path: &String, steps: usize) -> (first: usize)
    requires
        steps <= found@.len(),
    ensures
        first == first_naming(views(found@), path@, 0, steps as int),
{
    let mut j: usize = 0;
    while j < steps
        invariant
            j <= steps <= found@.len(),
            first_naming(views(found@), path@, j as int, steps as int) == first_naming(
                views(found@),
                path@,
                0,
                steps as int,
            ),
        decreases steps - j,
    {
        if found[j].path == *path {
            return j;
        }
        j = j + 1;
    }
    steps
}

/// Expands `template` with the placeholders in `found`, in one pass: each
/// placeholder is sought in the template behind the one before it, and
/// what is put in its place is not searched.
pub fn expand_found(template: &str, found: &[Placeholder], reads: &[FileRead]) -> (out: String)
    ensures
        out@ == spliced(template@, views(found@), reads@),
{
    let steps: usize = if found.len() <= reads.len() {
        found.len()
    } else {
        reads.len()
    };
    let chars = to_chars(template);
    let n: usize = chars.len();
    let mut out = String::new();
    let mut cursor: usize = 0;
    let mut k: usize = 0;
    while k < found.len()
        invariant
            chars@ == template@,
            n == chars.len(),
            steps == paired(found@.len(), reads@.len()),
            k <= found.len(),
            cursor <= n,
            out@ + spliced_from(template@, views(found@), reads@, k as int, cursor as int)
                == spliced(template@, views(found@), reads@),
        decreases found.len() - k,
    {
        let raw = to_chars(found[k].raw.as_str());
        match find_from(&chars, &raw, cursor) {
            Some(at) => {
                proof {
                    lemma_first_at_is_first(template@, raw@, cursor as int);
                }
                out.append(template.substring_char(cursor, at));
                let first = first_reader(found, &found[k].path, steps);
                if first < steps {
                    let rendered = render(found[k].path.as_str(), &reads[first]);
                    out.append(rendered.as_str());
                } else {
                    out.append(found[k].raw.as_str());
                }
                cursor = at + raw.len();
            },
            None => {},
        }
        k = k + 1;
    }
    out.append(template.substring_char(cursor, n));
    out
}

/// Expands a template: finds its placeholders and puts in the place of
/// each the rendering of its read. `reads` holds, for each placeholder in
/// the order of appearance, what reading the file that it names gave. A
/// read that failed is noted in its place; the expansion itself does not
/// fail.
pub fn expand_template(template: &str, reads: &[FileRead]) -> (out: Result<String, TemplateError>)
    ensures
        out matches Ok(text) && text@ == substitution(template@, reads@),
{
    match find_placeholders(template) {
        Ok(found) => {
            let text = expand_found(template, found.as_slice(), reads);
            proof {
                lemma_splice_is_substitution(template@, reads@);
            }
            Ok(text)
        },
        Err(e) => Err(e),
    }
}

} // verus!
