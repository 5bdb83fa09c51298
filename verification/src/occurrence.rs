//! Where a literal text stands in another.
use vstd::prelude::*;

verus! {

/// `pattern` stands in `text` at position `at`.
pub open spec fn occurs_at(text: Seq<char>, pattern: Seq<char>, at: int) -> bool {
    &&& 0 <= at
    &&& at + pattern.len() <= text.len()
    &&& text.subrange(at, at + pattern.len()) == pattern
}

/// The first position at or behind `from` at which `pattern` stands in
/// `text`, if there is one.
pub open spec fn first_at(text: Seq<char>, pattern: Seq<char>, from: int) -> Option<int>
    decreases text.len() + 1 - from,
{
    if from < 0 || from + pattern.len() > text.len() {
        None
    } else if occurs_at(text, pattern, from) {
        Some(from)
    } else {
        first_at(text, pattern, from + 1)
    }
}

/// Where the pattern stands at `at` and nowhere between `from` and `at`,
/// `at` is the first position at which it stands.
pub proof fn lemma_first_at(text: Seq<char>, pattern: Seq<char>, from: int, at: int)
    requires
        0 <= from <= at,
        occurs_at(text, pattern, at),
        forall|i: int| from <= i < at ==> !occurs_at(text, pattern, i),
    ensures
        first_at(text, pattern, from) == Some(at),
    decreases at - from,
{
    if from < at {
        lemma_first_at(text, pattern, from + 1, at);
    }
}

/// What `first_at` finds is an occurrence, and the first one.
pub proof fn lemma_first_at_is_first(text: Seq<char>, pattern: Seq<char>, from: int)
    requires
        first_at(text, pattern, from) is Some,
    ensures
        from <= first_at(text, pattern, from)->0,
        occurs_at(text, pattern, first_at(text, pattern, from)->0),
        forall|i: int|
            from <= i < first_at(text, pattern, from)->0 ==> !occurs_at(text, pattern, i),
    decreases text.len() + 1 - from,
{
    if !occurs_at(text, pattern, from) {
        lemma_first_at_is_first(text, pattern, from + 1);
    }
}

/// The characters of a string, one by one.
pub fn to_chars(text: &str) -> (chars: Vec<char>)
    ensures
        chars@ == text@,
{
    let mut chars: Vec<char> = Vec::new();
    for c in it: text.chars()
        invariant
            it.seq() == text@,
            chars@ == it.seq().take(it.index()),
    {
        chars.push(c);
    }
    chars
}

/// Whether `pattern` stands in `text` at position `at`.
pub fn stands_at(text: &Vec<char>, pattern: &Vec<char>, at: usize) -> (found: bool)
    ensures
        found == occurs_at(text@, pattern@, at as int),
{
    let n: usize = text.len();
    let m: usize = pattern.len();
    if at > n || m > n - at {
        return false;
    }
    let mut k: usize = 0;
    while k < m
        invariant
            n == text.len(),
            m == pattern.len(),
            at + m <= n,
            k <= m,
            forall|j: int| 0 <= j < k ==> text@[at + j] == pattern@[j],
        decreases m - k,
    {
        if text[at + k] != pattern[k] {
            return false;
        }
        k = k + 1;
    }
    assert(text@.subrange(at as int, at + m) =~= pattern@);
    true
}

/// The first position at or behind `from` at which `pattern` stands in
/// `text`.
pub fn find_from(text: &Vec<char>, pattern: &Vec<char>, from: usize) -> (found: Option<usize>)
    ensures
        match found {
            Some(at) => first_at(text@, pattern@, from as int) == Some(at as int),
            None => first_at(text@, pattern@, from as int) is None,
        },
{
    let n: usize = text.len();
    let m: usize = pattern.len();
    if m > n || from > n - m {
        return None;
    }
    let last: usize = n - m;
    let mut at: usize = from;
    while at < last
        invariant
            n == text.len(),
            m == pattern.len(),
            last == n - m,
            from <= at <= last,
            first_at(text@, pattern@, at as int) == first_at(text@, pattern@, from as int),
        decreases last - at,
    {
        if stands_at(text, pattern, at) {
            return Some(at);
        }
        at = at + 1;
    }
    if stands_at(text, pattern, at) {
        Some(at)
    } else {
        assert(first_at(text@, pattern@, at + 1) is None);
        None
    }
}

} // verus!
