//! What the expansion of a template is: the template with each placeholder
//! replaced by its filling and everything else kept, and what holds of it.
use crate::expand::{
    fenced, filling, first_naming, paired, rendering, spliced, spliced_from, FileRead,
};
use crate::occurrence::{lemma_first_at, occurs_at};
use crate::placeholder::{
    braced, is_path, lemma_listed_are_the_placeholders, lemma_opening,
    lemma_lists_next, lemma_placeholder_closes, lemma_placeholders_are_listed, lemma_placeholders_well_formed,
    lemma_unclosed_opens_nothing, lists_placeholders, next_close, opens_placeholder,
    placeholder_at, placeholders, placeholders_from, PlaceholderView,
};
use vstd::prelude::*;

verus! {

/// The text from position `from` on with each placeholder replaced by its
/// filling. Every other character is kept, and what is put in is not looked
/// at again.
pub open spec fn substituted_from(
    text: Seq<char>,
    found: Seq<PlaceholderView>,
    reads: Seq<FileRead>,
    from: int,
) -> Seq<char>
    decreases text.len() - from,
{
    if from < 0 || from >= text.len() {
        Seq::empty()
    } else {
        let close = next_close(text, from + 1);
        if text[from] == '{' && from + 1 < close < text.len() {
            filling(
                found,
                reads,
                PlaceholderView {
                    raw: text.subrange(from, close + 1),
                    path: text.subrange(from + 1, close),
                },
            ) + substituted_from(text, found, reads, close + 1)
        } else {
            seq![text[from]] + substituted_from(text, found, reads, from + 1)
        }
    }
}

/// The expansion of a template: each of its placeholders gives way to the
/// rendering of the first read of its path, and the rest of the template is
/// kept as it is.
pub open spec fn substitution(template: Seq<char>, reads: Seq<FileRead>) -> Seq<char> {
    substituted_from(template, placeholders(template), reads, 0)
}

/// Where no placeholder opens, the text is kept.
pub proof fn lemma_kept_between(
    text: Seq<char>,
    found: Seq<PlaceholderView>,
    reads: Seq<FileRead>,
    from: int,
    to: int,
)
    requires
        0 <= from <= to <= text.len(),
        forall|i: int| from <= i < to ==> !opens_placeholder(text, i),
    ensures
        substituted_from(text, found, reads, from) == text.subrange(from, to) + substituted_from(
            text,
            found,
            reads,
            to,
        ),
    decreases to - from,
{
    if from < to {
        lemma_opening(text, from);
        lemma_kept_between(text, found, reads, from + 1, to);
    }
}

/// Where a placeholder stands, its filling stands in the expansion, and
/// the expansion goes on behind the placeholder.
pub proof fn lemma_filled_at(
    text: Seq<char>,
    found: Seq<PlaceholderView>,
    reads: Seq<FileRead>,
    at: int,
    path: Seq<char>,
)
    requires
        placeholder_at(text, at, path),
    ensures
        substituted_from(text, found, reads, at) == filling(
            found,
            reads,
            PlaceholderView { raw: braced(path), path: path },
        ) + substituted_from(text, found, reads, at + path.len() + 2),
{
    assert(braced(path).len() == path.len() + 2);
    lemma_placeholder_closes(text, at, path);
}

/// Going through the template from placeholder to placeholder gives its
/// expansion.
proof fn lemma_splice_follows(
    text: Seq<char>,
    all: Seq<PlaceholderView>,
    reads: Seq<FileRead>,
    k: int,
    from: int,
)
    requires
        0 <= k <= all.len(),
        0 <= from <= text.len(),
        placeholders_from(text, from) == all.subrange(k, all.len() as int),
    ensures
        spliced_from(text, all, reads, k, from) == substituted_from(text, all, reads, from),
    decreases all.len() - k,
{
    let rest = placeholders_from(text, from);
    lemma_placeholders_are_listed(text, from);
    if k == all.len() {
        lemma_kept_between(text, all, reads, from, text.len() as int);
        assert(text.subrange(from, text.len() as int) + Seq::<char>::empty()
            =~= text.subrange(from, text.len() as int));
    } else {
        let at = choose|at: int|
            {
                &&& from <= at
                &&& forall|i: int| from <= i < at ==> !opens_placeholder(text, i)
                &&& #[trigger] placeholder_at(text, at, rest[0].path)
                &&& rest[0].raw == braced(rest[0].path)
                &&& lists_placeholders(text, at + rest[0].raw.len(), rest.drop_first())
            };
        let path = all[k].path;
        let raw = all[k].raw;
        let behind = at + raw.len();
        assert(raw.len() == path.len() + 2);
        lemma_listed_are_the_placeholders(text, behind, rest.drop_first());
        assert(rest.drop_first() =~= all.subrange(k + 1, all.len() as int));
        assert forall|i: int| from <= i < at implies !occurs_at(text, raw, i) by {
            if occurs_at(text, raw, i) {
                assert(placeholder_at(text, i, path));
                assert(opens_placeholder(text, i));
            }
        }
        lemma_first_at(text, raw, from, at);
        lemma_kept_between(text, all, reads, from, at);
        lemma_filled_at(text, all, reads, at, path);
        lemma_splice_follows(text, all, reads, k + 1, behind);
    }
}

/// Replacing the placeholders of a template where they stand gives the
/// expansion of the template.
pub proof fn lemma_splice_is_substitution(template: Seq<char>, reads: Seq<FileRead>)
    ensures
        spliced(template, placeholders(template), reads) == substitution(template, reads),
{
    let all = placeholders(template);
    assert(all.subrange(0, all.len() as int) =~= all);
    lemma_splice_follows(template, all, reads, 0, 0);
}

/// A template in which no placeholder opens is its own expansion.
pub proof fn lemma_without_placeholders_unchanged(template: Seq<char>, reads: Seq<FileRead>)
    requires
        forall|i: int| 0 <= i < template.len() ==> !opens_placeholder(template, i),
    ensures
        placeholders(template) == Seq::<PlaceholderView>::empty(),
        substitution(template, reads) == template,
{
    lemma_listed_are_the_placeholders(template, 0, Seq::<PlaceholderView>::empty());
    lemma_kept_between(template, placeholders(template), reads, 0, template.len() as int);
}

/// A template without a closing brace is left as it is, whatever opening
/// braces it holds.
pub proof fn lemma_unterminated_left_verbatim(template: Seq<char>, reads: Seq<FileRead>)
    requires
        forall|j: int| 0 <= j < template.len() ==> template[j] != '}',
    ensures
        substitution(template, reads) == template,
{
    assert forall|i: int| 0 <= i < template.len() implies !opens_placeholder(template, i) by {
        lemma_unclosed_opens_nothing(template, i);
    }
    lemma_without_placeholders_unchanged(template, reads);
}

/// Among the first `steps` placeholders, `first_naming` gives the first
/// that names `path`.
pub proof fn lemma_first_naming(
    found: Seq<PlaceholderView>,
    path: Seq<char>,
    from: int,
    steps: int,
)
    requires
        0 <= from <= steps,
    ensures
        from <= first_naming(found, path, from, steps) <= steps,
        first_naming(found, path, from, steps) < steps ==> found[first_naming(
            found,
            path,
            from,
            steps,
        )].path == path,
        forall|j: int| from <= j < first_naming(found, path, from, steps) ==> found[j].path != path,
    decreases steps - from,
{
    if from < steps && found[from].path != path {
        lemma_first_naming(found, path, from + 1, steps);
    }
}

/// Placeholders that name the same path are filled alike, whatever their
/// reads gave.
pub proof fn lemma_same_path_same_filling(
    template: Seq<char>,
    reads: Seq<FileRead>,
    i: int,
    j: int,
)
    requires
        0 <= i < placeholders(template).len(),
        0 <= j < placeholders(template).len(),
        placeholders(template)[i].path == placeholders(template)[j].path,
    ensures
        filling(placeholders(template), reads, placeholders(template)[i]) == filling(
            placeholders(template),
            reads,
            placeholders(template)[j],
        ),
{
    lemma_placeholders_well_formed(template, 0, i);
    lemma_placeholders_well_formed(template, 0, j);
}

/// A placeholder that has a read is filled with a rendering: with that of
/// its own read where no placeholder before it names the same path.
pub proof fn lemma_read_is_rendered(template: Seq<char>, reads: Seq<FileRead>, k: int)
    requires
        0 <= k < paired(placeholders(template).len(), reads.len()),
    ensures
        ({
            let found = placeholders(template);
            let first = first_naming(found, found[k].path, 0, paired(found.len(), reads.len()) as int);
            &&& 0 <= first <= k
            &&& found[first].path == found[k].path
            &&& filling(found, reads, found[k]) == rendering(found[k].path, reads[first])
            &&& (forall|j: int| 0 <= j < k ==> found[j].path != found[k].path) ==> first == k
        }),
{
    let found = placeholders(template);
    lemma_first_naming(found, found[k].path, 0, paired(found.len(), reads.len()) as int);
}

/// The filling of a placeholder stands in what follows.
proof fn lemma_filling_stands(
    text: Seq<char>,
    found: Seq<PlaceholderView>,
    reads: Seq<FileRead>,
    from: int,
    k: int,
) -> (at: int)
    requires
        0 <= from,
        0 <= k < placeholders_from(text, from).len(),
    ensures
        occurs_at(
            substituted_from(text, found, reads, from),
            filling(found, reads, placeholders_from(text, from)[k]),
            at,
        ),
    decreases text.len() - from,
{
    let close = next_close(text, from + 1);
    let whole = substituted_from(text, found, reads, from);
    let sought = filling(found, reads, placeholders_from(text, from)[k]);
    if text[from] == '{' && from + 1 < close < text.len() {
        let piece = filling(
            found,
            reads,
            PlaceholderView {
                raw: text.subrange(from, close + 1),
                path: text.subrange(from + 1, close),
            },
        );
        let rest = substituted_from(text, found, reads, close + 1);
        if k == 0 {
            assert(whole.subrange(0, sought.len() as int) =~= sought);
            0
        } else {
            let inner = lemma_filling_stands(text, found, reads, close + 1, k - 1);
            let at = piece.len() + inner;
            assert(whole.subrange(at, at + sought.len()) =~= rest.subrange(
                inner,
                inner + sought.len(),
            ));
            at
        }
    } else {
        let rest = substituted_from(text, found, reads, from + 1);
        let inner = lemma_filling_stands(text, found, reads, from + 1, k);
        assert(whole.subrange(inner + 1, inner + 1 + sought.len()) =~= rest.subrange(
            inner,
            inner + sought.len(),
        ));
        inner + 1
    }
}

/// The filling of every placeholder stands in the expansion as it was
/// made. For a placeholder whose file was read, that is the fenced block
/// whose body is exactly the file's content.
pub proof fn lemma_every_placeholder_filled(template: Seq<char>, reads: Seq<FileRead>, k: int)
    requires
        0 <= k < placeholders(template).len(),
    ensures
        exists|at: int|
            occurs_at(
                substitution(template, reads),
                filling(placeholders(template), reads, placeholders(template)[k]),
                at,
            ),
        ({
            let found = placeholders(template);
            let steps = paired(found.len(), reads.len()) as int;
            let first = first_naming(found, found[k].path, 0, steps);
            first < steps ==> (reads[first] matches FileRead::Content(content) ==> exists|at: int|
                occurs_at(substitution(template, reads), fenced(content@), at))
        }),
{
    let found = placeholders(template);
    let at = lemma_filling_stands(template, found, reads, 0, k);
    assert(occurs_at(substitution(template, reads), filling(found, reads, found[k]), at));
}

/// A template that holds one placeholder, once: the expansion is the text
/// before it, the rendering of the read, and the text behind it. Where the
/// file was read, the rendering is the fenced block whose body is exactly
/// the file's content.
pub proof fn lemma_single_inclusion(
    before: Seq<char>,
    path: Seq<char>,
    after: Seq<char>,
    read: FileRead,
)
    requires
        is_path(path),
        forall|i: int|
            0 <= i < before.len() ==> !opens_placeholder(before + braced(path) + after, i),
        forall|i: int|
            before.len() + braced(path).len() <= i < (before + braced(path) + after).len()
                ==> !opens_placeholder(before + braced(path) + after, i),
    ensures
        placeholders(before + braced(path) + after) == seq![
            PlaceholderView { raw: braced(path), path: path },
        ],
        substitution(before + braced(path) + after, seq![read]) == before + rendering(path, read)
            + after,
        read matches FileRead::Content(content) ==> substitution(
            before + braced(path) + after,
            seq![read],
        ) == before + fenced(content@) + after,
{
    let raw = braced(path);
    let template = before + raw + after;
    let at = before.len() as int;
    let behind = at + raw.len();
    let one = PlaceholderView { raw: raw, path: path };
    let found = seq![one];
    let reads = seq![read];
    assert(raw.len() == path.len() + 2);
    assert(placeholder_at(template, at, path)) by {
        assert(template.subrange(at, behind) =~= raw);
    }
    assert(placeholders(template) == found) by {
        lemma_lists_next(template, 0, at, one, Seq::<PlaceholderView>::empty());
        lemma_listed_are_the_placeholders(template, 0, found);
    }
    lemma_kept_between(template, found, reads, 0, at);
    lemma_filled_at(template, found, reads, at, path);
    lemma_kept_between(template, found, reads, behind, template.len() as int);
    assert(template.subrange(behind, template.len() as int) =~= after);
}

/// A template that holds the same placeholder twice and no other: both
/// places hold the rendering of the first read, whatever the file holds,
/// and nothing else changes.
pub proof fn lemma_repeated_placeholder(
    before: Seq<char>,
    path: Seq<char>,
    between: Seq<char>,
    after: Seq<char>,
    first: FileRead,
    second: FileRead,
)
    requires
        is_path(path),
        forall|i: int|
            0 <= i < before.len() ==> !opens_placeholder(
                before + braced(path) + between + braced(path) + after,
                i,
            ),
        forall|i: int|
            before.len() + braced(path).len() <= i < before.len() + braced(path).len()
                + between.len() ==> !opens_placeholder(
                before + braced(path) + between + braced(path) + after,
                i,
            ),
        forall|i: int|
            before.len() + braced(path).len() + between.len() + braced(path).len() <= i < (before
                + braced(path) + between + braced(path) + after).len() ==> !opens_placeholder(
                before + braced(path) + between + braced(path) + after,
                i,
            ),
    ensures
        placeholders(before + braced(path) + between + braced(path) + after) == seq![
            PlaceholderView { raw: braced(path), path: path },
            PlaceholderView { raw: braced(path), path: path },
        ],
        substitution(
            before + braced(path) + between + braced(path) + after,
            seq![first, second],
        ) == before + rendering(path, first) + between + rendering(path, first) + after,
{
    let raw = braced(path);
    let template = before + raw + between + raw + after;
    let one = PlaceholderView { raw: raw, path: path };
    let found = seq![one, one];
    let reads = seq![first, second];
    let at = before.len() as int;
    let behind = at + raw.len();
    let again = behind + between.len();
    let end = again + raw.len();
    assert(placeholder_at(template, at, path)) by {
        assert(template.subrange(at, behind) =~= raw);
    }
    assert(placeholder_at(template, again, path)) by {
        assert(template.subrange(again, end) =~= raw);
    }
    assert(placeholders(template) == found) by {
        lemma_lists_next(template, behind, again, one, Seq::<PlaceholderView>::empty());
        lemma_lists_next(template, 0, at, one, seq![one] + Seq::<PlaceholderView>::empty());
        assert(seq![one] + (seq![one] + Seq::<PlaceholderView>::empty()) =~= found);
        lemma_listed_are_the_placeholders(template, 0, found);
    }
    lemma_kept_between(template, found, reads, 0, at);
    lemma_filled_at(template, found, reads, at, path);
    lemma_kept_between(template, found, reads, behind, again);
    lemma_filled_at(template, found, reads, again, path);
    lemma_kept_between(template, found, reads, end, template.len() as int);
}

} // verus!
