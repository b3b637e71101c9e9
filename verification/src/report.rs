//! The summary of a run: how many fixtures matched, how many did not, and
//! every verdict in the order in which the fixtures were loaded.

use crate::evaluator::{Verdict, VerdictView};
use vstd::prelude::*;

verus! {

/// The summary of a run.
#[derive(Debug, PartialEq, Eq)]
pub struct Report {
    matched: usize,
    mismatched: usize,
    verdicts: Vec<Verdict>,
}

pub struct ReportView {
    pub matched: nat,
    pub mismatched: nat,
    pub verdicts: Seq<VerdictView>,
}

impl View for Report {
    type V = ReportView;

    closed spec fn view(&self) -> ReportView {
        ReportView {
            matched: self.matched as nat,
            mismatched: self.mismatched as nat,
            verdicts: self.verdicts.deep_view(),
        }
    }
}

/// How many of the verdicts are matched.
pub open spec fn matched_count(verdicts: Seq<VerdictView>) -> nat
    decreases verdicts.len(),
{
    if verdicts.len() == 0 {
        0
    } else {
        matched_count(verdicts.drop_last()) + if verdicts.last().matched {
            1nat
        } else {
            0nat
        }
    }
}

/// The summary of the given verdicts: the verdicts as they are, and the
/// counts of those that matched and of those that did not.
pub open spec fn report_of(verdicts: Seq<VerdictView>) -> ReportView {
    ReportView {
        matched: matched_count(verdicts),
        mismatched: (verdicts.len() - matched_count(verdicts)) as nat,
        verdicts,
    }
}

impl ReportView {
    /// The counts of a report are those of its verdicts.
    pub open spec fn consistent(self) -> bool {
        self == report_of(self.verdicts)
    }
}

/// The exit status that a run with this summary ends with: zero if every
/// fixture matched, one otherwise.
pub open spec fn exit_status(report: ReportView) -> int {
    if report.mismatched == 0 {
        0
    } else {
        1
    }
}

/// There are no more matched verdicts than verdicts, and as many exactly
/// when every verdict is matched.
pub proof fn lemma_matched_count(verdicts: Seq<VerdictView>)
    ensures
        matched_count(verdicts) <= verdicts.len(),
        matched_count(verdicts) == verdicts.len() <==> forall|i: int|
            0 <= i < verdicts.len() ==> (#[trigger] verdicts[i]).matched,
    decreases verdicts.len(),
{
    if verdicts.len() > 0 {
        let rest = verdicts.drop_last();
        lemma_matched_count(rest);
        assert(forall|i: int| 0 <= i < rest.len() ==> rest[i] == verdicts[i]);
        if matched_count(verdicts) == verdicts.len() {
            assert forall|i: int| 0 <= i < verdicts.len() implies (
            #[trigger] verdicts[i]).matched by {
                if i < rest.len() {
                    assert(rest[i] == verdicts[i]);
                }
            }
        }
        if forall|i: int| 0 <= i < verdicts.len() ==> (#[trigger] verdicts[i]).matched {
            assert(verdicts[verdicts.len() - 1].matched);
            assert forall|i: int| 0 <= i < rest.len() implies (#[trigger] rest[i]).matched by {
                assert(rest[i] == verdicts[i]);
            }
        }
    }
}

/// Summarizes the verdicts of a run. The verdicts are kept as they are and
/// in their order.
pub fn summarize(verdicts: Vec<Verdict>) -> (r: Report)
    ensures
        r@ == report_of(verdicts.deep_view()),
{
    let ghost view = verdicts.deep_view();
    let mut matched: usize = 0;
    let mut i: usize = 0;
    assert(view.take(0) == Seq::<VerdictView>::empty());
    while i < verdicts.len()
        invariant
            i <= verdicts.len(),
            view == verdicts.deep_view(),
            matched == matched_count(view.take(i as int)),
            matched <= i,
        decreases verdicts.len() - i,
    {
        assert(view.take(i + 1).drop_last() == view.take(i as int));
        assert(view.take(i + 1).last() == verdicts@[i as int]@);
        if verdicts[i].matched() {
            matched = matched + 1;
        }
        i = i + 1;
    }
    assert(view.take(i as int) == view);
    proof {
        lemma_matched_count(view);
    }
    let mismatched = verdicts.len() - matched;
    Report { matched, mismatched, verdicts }
}

impl Report {
    #[verifier::type_invariant]
    spec fn inv(self) -> bool {
        self@.consistent()
    }

    /// How many fixtures matched.
    pub fn matched(&self) -> (r: usize)
        ensures
            r == self@.matched,
            self@.consistent(),
    {
        proof {
            use_type_invariant(self);
        }
        self.matched
    }

    /// How many fixtures did not match.
    pub fn mismatched(&self) -> (r: usize)
        ensures
            r == self@.mismatched,
            self@.consistent(),
    {
        proof {
            use_type_invariant(self);
        }
        self.mismatched
    }

    /// The verdicts, one for each fixture.
    pub fn verdicts(&self) -> (r: &Vec<Verdict>)
        ensures
            r.deep_view() == self@.verdicts,
            self@.consistent(),
    {
        proof {
            use_type_invariant(self);
        }
        &self.verdicts
    }

    /// The exit status that the run ends with: zero if every fixture
    /// matched, one otherwise.
    pub fn exit_code(&self) -> (r: i32)
        ensures
            r == exit_status(self@),
            r == 0 <==> forall|i: int|
                0 <= i < self@.verdicts.len() ==> (#[trigger] self@.verdicts[i]).matched,
    {
        proof {
            use_type_invariant(self);
            lemma_matched_count(self@.verdicts);
        }
        if self.mismatched == 0 {
            0
        } else {
            1
        }
    }
}

} // verus!
