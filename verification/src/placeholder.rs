//! The placeholder grammar: where placeholders stand in a template, and in
//! which order they are found.
use crate::occurrence::occurs_at;
use vstd::prelude::*;

verus! {

/// A placeholder as it was found in a template.
#[derive(Clone, Debug, PartialEq, Eq)]
pub struct Placeholder {
    /// The whole span, braces included.
    pub raw: String,
    /// The text between the braces: the path of the file to inline.
    pub path: String,
}

/// The model of a [`Placeholder`].
pub struct PlaceholderView {
    pub raw: Seq<char>,
    pub path: Seq<char>,
}

impl View for Placeholder {
    type V = PlaceholderView;

    open spec fn view(&self) -> PlaceholderView {
        PlaceholderView { raw: self.raw@, path: self.path@ }
    }
}

/// The models of a list of placeholders.
pub open spec fn views(list: Seq<Placeholder>) -> Seq<PlaceholderView> {
    Seq::new(list.len(), |k: int| list[k]@)
}

/// The contents of a list of strings.
pub open spec fn texts(list: Seq<String>) -> Seq<Seq<char>> {
    Seq::new(list.len(), |k: int| list[k]@)
}

/// The paths of a list of placeholders, in the same order.
pub open spec fn paths_of(found: Seq<PlaceholderView>) -> Seq<Seq<char>> {
    Seq::new(found.len(), |k: int| found[k].path)
}

/// What may stand between the braces of a placeholder: one character or
/// more, none of them a closing brace.
pub open spec fn is_path(path: Seq<char>) -> bool {
    &&& path.len() > 0
    &&& forall|k: int| 0 <= k < path.len() ==> path[k] != '}'
}

/// The span of the placeholder that names `path`.
pub open spec fn braced(path: Seq<char>) -> Seq<char> {
    seq!['{'] + path + seq!['}']
}

/// The placeholder that names `path` stands in `text` at position `at`.
pub open spec fn placeholder_at(text: Seq<char>, at: int, path: Seq<char>) -> bool {
    &&& is_path(path)
    &&& occurs_at(text, braced(path), at)
}

/// Some placeholder begins at position `at` of `text`.
pub open spec fn opens_placeholder(text: Seq<char>, at: int) -> bool {
    exists|path: Seq<char>| #[trigger] placeholder_at(text, at, path)
}

/// `found` is what a search from left to right finds in `text` at or behind
/// position `from`: each entry is a placeholder of the text, it begins where
/// the first placeholder opens behind the end of the entry before it, and
/// behind the last entry no placeholder opens.
pub open spec fn lists_placeholders(text: Seq<char>, from: int, found: Seq<PlaceholderView>) -> bool
    decreases found.len(),
{
    if found.len() == 0 {
        forall|i: int| from <= i < text.len() ==> !opens_placeholder(text, i)
    } else {
        exists|at: int|
            {
                &&& from <= at
                &&& forall|i: int| from <= i < at ==> !opens_placeholder(text, i)
                &&& #[trigger] placeholder_at(text, at, found[0].path)
                &&& found[0].raw == braced(found[0].path)
                &&& lists_placeholders(text, at + found[0].raw.len(), found.drop_first())
            }
    }
}

/// The first position at or behind `from` that holds a closing brace, or the
/// length of the text where there is none.
pub open spec fn next_close(text: Seq<char>, from: int) -> int
    decreases text.len() - from,
{
    if from < 0 || from >= text.len() {
        text.len() as int
    } else if text[from] == '}' {
        from
    } else {
        next_close(text, from + 1)
    }
}

/// The placeholders of `text` at or behind position `from`, from left to
/// right. A placeholder opens at a `{` that is followed by at least one other
/// character before the next `}`, and it ends with that `}`; the search goes
/// on behind it.
pub open spec fn placeholders_from(text: Seq<char>, from: int) -> Seq<PlaceholderView>
    decreases text.len() - from,
{
    if from < 0 || from >= text.len() {
        Seq::empty()
    } else {
        let close = next_close(text, from + 1);
        if text[from] == '{' && from + 1 < close < text.len() {
            seq![
                PlaceholderView {
                    raw: text.subrange(from, close + 1),
                    path: text.subrange(from + 1, close),
                },
            ] + placeholders_from(text, close + 1)
        } else {
            placeholders_from(text, from + 1)
        }
    }
}

/// The placeholders of a template, in the order in which they appear.
pub open spec fn placeholders(text: Seq<char>) -> Seq<PlaceholderView> {
    placeholders_from(text, 0)
}

/// The paths that a template names, in the order in which they appear and
/// as often as they appear.
pub open spec fn placeholder_paths(text: Seq<char>) -> Seq<Seq<char>> {
    paths_of(placeholders(text))
}

/// `next_close` gives the first closing brace at or behind `from`.
pub proof fn lemma_next_close(text: Seq<char>, from: int)
    requires
        0 <= from <= text.len(),
    ensures
        from <= next_close(text, from) <= text.len(),
        forall|k: int| from <= k < next_close(text, from) ==> text[k] != '}',
        next_close(text, from) < text.len() ==> text[next_close(text, from)] == '}',
    decreases text.len() - from,
{
    if from < text.len() && text[from] != '}' {
        lemma_next_close(text, from + 1);
    }
}

/// A placeholder ends with the first closing brace behind its opening one.
pub proof fn lemma_placeholder_closes(text: Seq<char>, at: int, path: Seq<char>)
    requires
        placeholder_at(text, at, path),
    ensures
        text[at] == '{',
        next_close(text, at + 1) == at + 1 + path.len(),
        text.subrange(at + 1, at + 1 + path.len()) == path,
        text.subrange(at, at + path.len() + 2) == braced(path),
{
    let raw = braced(path);
    let end = at + 1 + path.len();
    assert(raw[0] == '{');
    let last: int = path.len() as int + 1;
    assert(raw[last] == '}');
    assert forall|k: int| at + 1 <= k < end implies text[k] != '}' by {
        assert(text[at + (k - at)] == raw[k - at]);
    }
    lemma_next_close(text, at + 1);
    assert(text.subrange(at + 1, at + 1 + path.len()) =~= path) by {
        assert forall|j: int| 0 <= j < path.len() implies text[at + 1 + j] == path[j] by {
            assert(text[at + (j + 1)] == raw[j + 1]);
        }
    }
}

/// A placeholder opens exactly at a `{` that is followed by at least one
/// other character before the next `}`.
pub proof fn lemma_opening(text: Seq<char>, at: int)
    ensures
        opens_placeholder(text, at) <==> {
            &&& 0 <= at < text.len()
            &&& text[at] == '{'
            &&& at + 1 < next_close(text, at + 1) < text.len()
        },
{
    if opens_placeholder(text, at) {
        let path = choose|path: Seq<char>| #[trigger] placeholder_at(text, at, path);
        lemma_placeholder_closes(text, at, path);
    }
    if 0 <= at < text.len() && text[at] == '{' && at + 1 < next_close(text, at + 1) < text.len() {
        let close = next_close(text, at + 1);
        let path = text.subrange(at + 1, close);
        lemma_next_close(text, at + 1);
        assert(text.subrange(at, at + braced(path).len()) =~= braced(path));
        assert(placeholder_at(text, at, path));
    }
}

/// Each placeholder of a text is a path between braces.
pub proof fn lemma_placeholders_well_formed(text: Seq<char>, from: int, k: int)
    requires
        0 <= from,
        0 <= k < placeholders_from(text, from).len(),
    ensures
        is_path(placeholders_from(text, from)[k].path),
        placeholders_from(text, from)[k].raw == braced(placeholders_from(text, from)[k].path),
    decreases text.len() - from,
{
    let close = next_close(text, from + 1);
    if text[from] == '{' && from + 1 < close < text.len() {
        if k == 0 {
            lemma_next_close(text, from + 1);
        } else {
            lemma_placeholders_well_formed(text, close + 1, k - 1);
        }
    } else {
        lemma_placeholders_well_formed(text, from + 1, k);
    }
}

/// An opening brace behind which no closing brace follows opens no
/// placeholder.
pub proof fn lemma_unclosed_opens_nothing(text: Seq<char>, at: int)
    requires
        forall|j: int| at < j < text.len() ==> text[j] != '}',
    ensures
        !opens_placeholder(text, at),
{
    if opens_placeholder(text, at) {
        let path = choose|path: Seq<char>| #[trigger] placeholder_at(text, at, path);
        lemma_placeholder_closes(text, at, path);
        lemma_next_close(text, at + 1);
    }
}

/// Where no placeholder opens, the search finds nothing.
pub proof fn lemma_search_skips(text: Seq<char>, from: int, to: int)
    requires
        0 <= from <= to <= text.len(),
        forall|i: int| from <= i < to ==> !opens_placeholder(text, i),
    ensures
        placeholders_from(text, from) == placeholders_from(text, to),
    decreases to - from,
{
    if from < to {
        lemma_opening(text, from);
        lemma_search_skips(text, from + 1, to);
    }
}

/// A list is what a search finds where its first entry is the first
/// placeholder that opens, and the rest is what the search finds behind it.
pub proof fn lemma_lists_next(
    text: Seq<char>,
    from: int,
    at: int,
    first: PlaceholderView,
    rest: Seq<PlaceholderView>,
)
    requires
        from <= at,
        forall|i: int| from <= i < at ==> !opens_placeholder(text, i),
        placeholder_at(text, at, first.path),
        first.raw == braced(first.path),
        lists_placeholders(text, at + first.raw.len(), rest),
    ensures
        lists_placeholders(text, from, seq![first] + rest),
{
    let found = seq![first] + rest;
    assert(found[0] == first);
    assert(found.drop_first() =~= rest);
}

/// Only one list is what a search from left to right finds: the placeholders
/// of the text.
pub proof fn lemma_listed_are_the_placeholders(
    text: Seq<char>,
    from: int,
    found: Seq<PlaceholderView>,
)
    requires
        0 <= from,
        lists_placeholders(text, from, found),
    ensures
        found == placeholders_from(text, from),
    decreases found.len(),
{
    if found.len() == 0 {
        if from < text.len() {
            lemma_search_skips(text, from, text.len() as int);
        }
    } else {
        let first = found[0];
        let at = choose|at: int|
            {
                &&& from <= at
                &&& forall|i: int| from <= i < at ==> !opens_placeholder(text, i)
                &&& #[trigger] placeholder_at(text, at, found[0].path)
                &&& found[0].raw == braced(found[0].path)
                &&& lists_placeholders(text, at + found[0].raw.len(), found.drop_first())
            };
        lemma_search_skips(text, from, at);
        lemma_placeholder_closes(text, at, first.path);
        lemma_listed_are_the_placeholders(text, at + first.raw.len(), found.drop_first());
    }
}

/// The placeholders of a text are what a search from left to right finds:
/// they stand in the text in the order of the list, one behind the other,
/// and no placeholder opens between them.
pub proof fn lemma_placeholders_are_listed(text: Seq<char>, from: int)
    requires
        0 <= from,
    ensures
        lists_placeholders(text, from, placeholders_from(text, from)),
    decreases text.len() - from,
{
    let found = placeholders_from(text, from);
    if from < text.len() {
        let close = next_close(text, from + 1);
        lemma_opening(text, from);
        if text[from] == '{' && from + 1 < close < text.len() {
            let path = text.subrange(from + 1, close);
            lemma_next_close(text, from + 1);
            lemma_placeholders_are_listed(text, close + 1);
            assert(found.drop_first() =~= placeholders_from(text, close + 1));
            assert(text.subrange(from, close + 1) =~= braced(path));
            assert(placeholder_at(text, from, found[0].path));
        } else {
            lemma_placeholders_are_listed(text, from + 1);
            if found.len() > 0 {
                let at = choose|at: int|
                    {
                        &&& from + 1 <= at
                        &&& forall|i: int| from + 1 <= i < at ==> !opens_placeholder(text, i)
                        &&& #[trigger] placeholder_at(text, at, found[0].path)
                        &&& found[0].raw == braced(found[0].path)
                        &&& lists_placeholders(
                            text,
                            at + found[0].raw.len(),
                            found.drop_first(),
                        )
                    };
            }
        }
    }
}

} // verus!
