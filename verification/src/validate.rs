//! The check that every file named by a template can be reached, made
//! before anything is expanded.
use crate::error::TemplateError;
use crate::occurrence::occurs_at;
use vstd::prelude::*;
use vstd::string::*;

verus! {

/// What asking the file system about one path gave.
#[derive(Clone, Debug, PartialEq, Eq)]
pub struct Probe {
    /// The path as the template names it.
    pub path: String,
    /// `None` where the path is accessible, else the reason the system gave.
    pub failure: Option<String>,
}

/// A path that is not accessible, with the reason the system gave.
#[derive(Clone, Debug, PartialEq, Eq)]
pub struct Inaccessible {
    pub path: String,
    pub reason: String,
}

/// The model of an [`Inaccessible`].
pub struct InaccessibleView {
    pub path: Seq<char>,
    pub reason: Seq<char>,
}

impl View for Inaccessible {
    type V = InaccessibleView;

    open spec fn view(&self) -> InaccessibleView {
        InaccessibleView { path: self.path@, reason: self.reason@ }
    }
}

/// The models of a list of failures.
pub open spec fn failure_views(list: Seq<Inaccessible>) -> Seq<InaccessibleView> {
    Seq::new(list.len(), |k: int| list[k]@)
}

/// The failure that a probe reports; the reason is empty where it reports
/// none.
pub open spec fn failure_of(probe: Probe) -> InaccessibleView {
    InaccessibleView {
        path: probe.path@,
        reason: match probe.failure {
            Some(reason) => reason@,
            None => Seq::empty(),
        },
    }
}

/// The failures among `probes`, in the order of the probes.
pub open spec fn failures_among(probes: Seq<Probe>) -> Seq<InaccessibleView>
    decreases probes.len(),
{
    if probes.len() == 0 {
        Seq::empty()
    } else if probes.last().failure is Some {
        failures_among(probes.drop_last()).push(failure_of(probes.last()))
    } else {
        failures_among(probes.drop_last())
    }
}

/// The number of failures among the probes before probe `i`: the place of
/// probe `i` among the failures, where it is one.
pub open spec fn failure_rank(probes: Seq<Probe>, i: int) -> int {
    failures_among(probes.take(i)).len() as int
}

/// The line that reports one failure.
pub open spec fn access_line(failure: InaccessibleView) -> Seq<char> {
    "Cannot access file '"@ + failure.path + "': "@ + failure.reason
}

/// The lines that report `failures`, with a line break between one and the
/// next.
pub open spec fn access_lines(failures: Seq<InaccessibleView>) -> Seq<char>
    decreases failures.len(),
{
    if failures.len() == 0 {
        Seq::empty()
    } else if failures.len() == 1 {
        access_line(failures[0])
    } else {
        access_lines(failures.drop_last()) + "\n"@ + access_line(failures.last())
    }
}

/// The message of a failed validation: a heading, then one line for each
/// failure.
pub open spec fn validation_text(failures: Seq<InaccessibleView>) -> Seq<char> {
    "The following files are not accessible:\n"@ + access_lines(failures)
}

/// The position in the message at which the line of failure `k` begins.
pub open spec fn line_start(failures: Seq<InaccessibleView>, k: int) -> int {
    if k <= 0 {
        "The following files are not accessible:\n"@.len() as int
    } else {
        "The following files are not accessible:\n"@.len() as int + access_lines(
            failures.take(k),
        ).len() as int + 1
    }
}

/// Checks the probes of the files that a template names. Every probe is
/// looked at; the check fails where one or more of them failed, with all
/// the failures in the order of the probes.
pub fn check_files_readable(probes: &[Probe]) -> (checked: Result<(), TemplateError>)
    ensures
        checked is Ok <==> forall|i: int| 0 <= i < probes@.len() ==> probes@[i].failure is None,
        checked matches Err(e) ==> e matches TemplateError::Validation(list) && failure_views(list@)
            == failures_among(probes@),
{
    let mut failures: Vec<Inaccessible> = Vec::new();
    let mut k: usize = 0;
    while k < probes.len()
        invariant
            k <= probes.len(),
            failure_views(failures@) == failures_among(probes@.take(k as int)),
        decreases probes.len() - k,
    {
        proof {
            assert(probes@.take(k + 1).drop_last() =~= probes@.take(k as int));
        }
        match &probes[k].failure {
            Some(reason) => {
                failures.push(Inaccessible { path: probes[k].path.clone(), reason: reason.clone() });
            },
            None => {},
        }
        k = k + 1;
    }
    proof {
        assert(probes@.take(probes@.len() as int) == probes@);
        lemma_no_failure_among(probes@);
    }
    if failures.len() == 0 {
        Ok(())
    } else {
        Err(TemplateError::Validation(failures))
    }
}

/// Writes the message of a failed validation.
pub fn validation_message(failures: &[Inaccessible]) -> (text: String)
    ensures
        text@ == validation_text(failure_views(failures@)),
{
    let ghost all = failure_views(failures@);
    let mut text = String::from_str("The following files are not accessible:\n");
    let mut k: usize = 0;
    while k < failures.len()
        invariant
            k <= failures.len(),
            all == failure_views(failures@),
            text@ == validation_text(all.take(k as int)),
        decreases failures.len() - k,
    {
        proof {
            assert(all.take(k + 1).drop_last() =~= all.take(k as int));
        }
        if k > 0 {
            text.append("\n");
        }
        text.append("Cannot access file '");
        text.append(failures[k].path.as_str());
        text.append("': ");
        text.append(failures[k].reason.as_str());
        k = k + 1;
    }
    assert(all.take(failures@.len() as int) == all);
    text
}

/// No probe failed exactly where the list of failures is empty.
pub proof fn lemma_no_failure_among(probes: Seq<Probe>)
    ensures
        failures_among(probes).len() == 0 <==> forall|i: int|
            0 <= i < probes.len() ==> probes[i].failure is None,
    decreases probes.len(),
{
    if probes.len() > 0 {
        lemma_no_failure_among(probes.drop_last());
        if failures_among(probes).len() == 0 {
            assert forall|i: int| 0 <= i < probes.len() implies probes[i].failure is None by {
                if i < probes.len() - 1 {
                    assert(probes.drop_last()[i] == probes[i]);
                }
            }
        }
    }
}

/// The failures among the first `i` probes open the list of the failures
/// among all of them.
pub proof fn lemma_failures_of_prefix(probes: Seq<Probe>, i: int)
    requires
        0 <= i <= probes.len(),
    ensures
        failures_among(probes.take(i)).len() <= failures_among(probes).len(),
        failures_among(probes.take(i)) == failures_among(probes).take(
            failures_among(probes.take(i)).len() as int,
        ),
    decreases probes.len(),
{
    if i == probes.len() {
        assert(probes.take(i) == probes);
    } else {
        assert(probes.drop_last().take(i) =~= probes.take(i));
        lemma_failures_of_prefix(probes.drop_last(), i);
    }
}

/// The line of each failure stands in the message, at its place.
pub proof fn lemma_line_in_message(failures: Seq<InaccessibleView>, k: int)
    requires
        0 <= k < failures.len(),
    ensures
        occurs_at(validation_text(failures), access_line(failures[k]), line_start(failures, k)),
    decreases failures.len(),
{
    let line = access_line(failures[k]);
    let at = line_start(failures, k);
    let message = validation_text(failures);
    if failures.len() == 1 {
        assert(message.subrange(at, at + line.len()) =~= line);
    } else if k == failures.len() - 1 {
        reveal_strlit("\n");
        assert(message.subrange(at, at + line.len()) =~= line);
    } else {
        let before = failures.drop_last();
        lemma_line_in_message(before, k);
        assert(before.take(k) =~= failures.take(k));
        assert(message.subrange(at, at + line.len()) =~= validation_text(before).subrange(
            at,
            at + line.len(),
        ));
    }
}

/// The lines of a longer list of failures are not shorter.
proof fn lemma_lines_grow(failures: Seq<InaccessibleView>, j: int, k: int)
    requires
        0 <= j <= k <= failures.len(),
    ensures
        access_lines(failures.take(j)).len() <= access_lines(failures.take(k)).len(),
    decreases k - j,
{
    if j < k {
        lemma_lines_grow(failures, j, k - 1);
        assert(failures.take(k).drop_last() =~= failures.take(k - 1));
    }
}

/// In the message the line of an earlier failure ends before the line of a
/// later one begins.
pub proof fn lemma_lines_in_order(failures: Seq<InaccessibleView>, j: int, k: int)
    requires
        0 <= j < k < failures.len(),
    ensures
        line_start(failures, j) + access_line(failures[j]).len() < line_start(failures, k),
{
    reveal_strlit("\n");
    lemma_lines_grow(failures, j + 1, k);
    assert(failures.take(j + 1).drop_last() =~= failures.take(j));
}

/// Every probe that failed is reported: its failure stands among the
/// failures at the place that the failures before it leave, and its line
/// stands in the message.
pub proof fn lemma_every_failure_reported(probes: Seq<Probe>, i: int)
    requires
        0 <= i < probes.len(),
        probes[i].failure is Some,
    ensures
        0 <= failure_rank(probes, i) < failures_among(probes).len(),
        failures_among(probes)[failure_rank(probes, i)] == failure_of(probes[i]),
        occurs_at(
            validation_text(failures_among(probes)),
            access_line(failure_of(probes[i])),
            line_start(failures_among(probes), failure_rank(probes, i)),
        ),
{
    let rank = failure_rank(probes, i);
    assert(probes.take(i + 1).drop_last() =~= probes.take(i));
    lemma_failures_of_prefix(probes, i + 1);
    assert(failures_among(probes.take(i + 1))[rank] == failure_of(probes[i]));
    lemma_line_in_message(failures_among(probes), rank);
}

/// The failures are reported in the order of the probes: of two probes that
/// failed, the line of the earlier one ends before the line of the later
/// one begins.
pub proof fn lemma_reports_keep_order(probes: Seq<Probe>, i: int, j: int)
    requires
        0 <= i < j < probes.len(),
        probes[i].failure is Some,
        probes[j].failure is Some,
    ensures
        failure_rank(probes, i) < failure_rank(probes, j),
        line_start(failures_among(probes), failure_rank(probes, i)) + access_line(
            failure_of(probes[i]),
        ).len() < line_start(failures_among(probes), failure_rank(probes, j)),
{
    assert(probes.take(i + 1).drop_last() =~= probes.take(i));
    assert(probes.take(j).take(i + 1) =~= probes.take(i + 1));
    lemma_failures_of_prefix(probes.take(j), i + 1);
    lemma_every_failure_reported(probes, i);
    lemma_every_failure_reported(probes, j);
    lemma_lines_in_order(
        failures_among(probes),
        failure_rank(probes, i),
        failure_rank(probes, j),
    );
}

} // verus!
