//! Submissions and the states that are read off them.

use crate::file::{CanvasFile, CanvasFileView, FileSubmission, FileSubmissionView};
use crate::model::{lemma_views_add, lemma_views_push, views};
use crate::text::{decimal, push_decimal};
use vstd::prelude::*;
use vstd::string::StringExecFns;

verus! {

/// The state that the remote system reports for a submission. It may lag
/// behind what the other fields say.
#[derive(Debug, Clone, Copy, PartialEq, Eq, Structural)]
pub enum WorkflowState {
    Unsubmitted,
    Submitted,
    Graded,
    PendingReview,
}

/// The bit pattern of the number 100 in single precision.
pub const FULL_SCORE_BITS: u32 = 0x42C8_0000;

/// A score, held as the bit pattern of a single-precision binary number.
/// Two scores with the same pattern are the same number, and but for zero,
/// which has two patterns, and for what is not a number, two scores that are
/// the same number have the same pattern.
#[derive(Debug, Clone, Copy, PartialEq, Eq, Structural)]
pub struct Score {
    pub bits: u32,
}

impl Score {
    /// Whether the score is the number 100.
    pub open spec fn is_full(self) -> bool {
        self.bits == FULL_SCORE_BITS
    }

    pub fn from_bits(bits: u32) -> (r: Score)
        ensures
            r == (Score { bits }),
    {
        Score { bits }
    }

    pub fn to_bits(self) -> (r: u32)
        ensures
            r == self.bits,
    {
        self.bits
    }
}

/// One unit of grading: what one user handed in for one assignment.
#[derive(Debug, PartialEq, Eq)]
pub struct Submission {
    user_id: u64,
    assignment_id: u64,
    attempt: Option<u64>,
    grader_id: Option<u64>,
    score: Option<Score>,
    workflow_state: WorkflowState,
    redo_request: bool,
    attachments: Option<Vec<CanvasFile>>,
}

/// What a `Submission` holds.
pub struct SubmissionView {
    pub user_id: u64,
    pub assignment_id: u64,
    /// Which handing-in this is. Absent before the first one.
    pub attempt: Option<u64>,
    /// Who graded it. Absent until somebody has.
    pub grader_id: Option<u64>,
    pub score: Option<Score>,
    pub workflow_state: WorkflowState,
    /// Set where the work has to be handed in again, graded or not.
    pub redo_request: bool,
    /// The attached files, in the order in which the remote system lists them.
    pub attachments: Option<Seq<CanvasFileView>>,
}

impl SubmissionView {
    /// Graded: nobody asked for it again, somebody graded it, and it has a score.
    /// The reported state plays no part.
    pub open spec fn graded(self) -> bool {
        !self.redo_request && self.grader_id is Some && self.score is Some
    }

    /// Not handed in: reported so, or without attachments.
    pub open spec fn unsubmitted(self) -> bool {
        self.workflow_state == WorkflowState::Unsubmitted || self.attachments is None
    }

    /// Handed in: reported so, or neither unsubmitted nor graded.
    pub open spec fn submitted(self) -> bool {
        self.workflow_state == WorkflowState::Submitted || (!self.unsubmitted() && !self.graded())
    }

    pub open spec fn ungraded(self) -> bool {
        !self.graded()
    }

    pub open spec fn pending_review(self) -> bool {
        self.workflow_state == WorkflowState::PendingReview
    }

    /// Graded, with a score other than 100.
    pub open spec fn grade_not_100(self) -> bool {
        self.graded() && !self.score->0.is_full()
    }

    /// The attempt, counting a submission without one as attempt 0.
    pub open spec fn attempt_or_zero(self) -> u64 {
        match self.attempt {
            Some(n) => n,
            None => 0,
        }
    }

    /// The submission in a word: user, assignment and attempt in decimal
    /// notation, joined by `_`.
    pub open spec fn name(self) -> Seq<char> {
        decimal(self.user_id as nat) + seq!['_'] + decimal(self.assignment_id as nat) + seq!['_']
            + decimal(self.attempt_or_zero() as nat)
    }

    /// The attached files, each with the user and the assignment, in order.
    /// None where the submission has no attachments (an empty list is not none).
    pub open spec fn files(self) -> Option<Seq<FileSubmissionView>> {
        match self.attachments {
            Some(attachments) => Some(
                attachments.map_values(
                    |file: CanvasFileView|
                        FileSubmissionView {
                            user_id: self.user_id,
                            assignment_id: self.assignment_id,
                            file,
                        },
                ),
            ),
            None => None,
        }
    }
}

/// A graded submission with attachments that is not reported as unsubmitted
/// does not count as unsubmitted.
pub proof fn lemma_graded_not_unsubmitted(s: SubmissionView)
    requires
        s.graded(),
        s.workflow_state != WorkflowState::Unsubmitted,
        s.attachments is Some,
    ensures
        !s.unsubmitted(),
{
}

/// A graded submission that is not reported as submitted does not count as
/// submitted. Of a graded submission, the reported state alone decides.
pub proof fn lemma_graded_not_submitted(s: SubmissionView)
    requires
        s.graded(),
        s.workflow_state != WorkflowState::Submitted,
    ensures
        !s.submitted(),
{
}

/// Among graded submissions, those that count as submitted are exactly the
/// ones reported so, and those that count as unsubmitted are exactly the ones
/// reported so or without attachments.
pub proof fn lemma_graded_states(s: SubmissionView)
    requires
        s.graded(),
    ensures
        s.submitted() <==> s.workflow_state == WorkflowState::Submitted,
        s.unsubmitted() <==> (s.workflow_state == WorkflowState::Unsubmitted || s.attachments is None),
        !s.ungraded(),
{
}

/// Work with attachments that is neither reported as unsubmitted nor graded
/// counts as submitted, whatever state is reported.
pub proof fn lemma_submitted_fallback(s: SubmissionView)
    requires
        s.attachments is Some,
        s.workflow_state != WorkflowState::Unsubmitted,
        !s.graded(),
    ensures
        s.submitted(),
{
}

/// A submission counts as unsubmitted, as submitted or as graded: no
/// submission is left without a state.
pub proof fn lemma_some_state(s: SubmissionView)
    ensures
        s.unsubmitted() || s.submitted() || s.graded(),
{
}

/// The files of all of `submissions`, submission after submission.
pub open spec fn files_of(submissions: Seq<SubmissionView>) -> Seq<FileSubmissionView>
    decreases submissions.len(),
{
    if submissions.len() == 0 {
        Seq::empty()
    } else {
        files_of(submissions.drop_last()) + match submissions.last().files() {
            Some(files) => files,
            None => Seq::empty(),
        }
    }
}

impl View for Submission {
    type V = SubmissionView;

    closed spec fn view(&self) -> SubmissionView {
        SubmissionView {
            user_id: self.user_id,
            assignment_id: self.assignment_id,
            attempt: self.attempt,
            grader_id: self.grader_id,
            score: self.score,
            workflow_state: self.workflow_state,
            redo_request: self.redo_request,
            attachments: match self.attachments {
                Some(files) => Some(views(files@)),
                None => None,
            },
        }
    }
}

impl Submission {
    pub fn new(
        user_id: u64,
        assignment_id: u64,
        attempt: Option<u64>,
        grader_id: Option<u64>,
        score: Option<Score>,
        workflow_state: WorkflowState,
        redo_request: bool,
        attachments: Option<Vec<CanvasFile>>,
    ) -> (r: Self)
        ensures
            r@ == (SubmissionView {
                user_id,
                assignment_id,
                attempt,
                grader_id,
                score,
                workflow_state,
                redo_request,
                attachments: match attachments {
                    Some(files) => Some(views(files@)),
                    None => None,
                },
            }),
    {
        Submission {
            user_id,
            assignment_id,
            attempt,
            grader_id,
            score,
            workflow_state,
            redo_request,
            attachments,
        }
    }

    pub fn graded(&self) -> (r: bool)
        ensures
            r == self@.graded(),
    {
        !self.redo_request && self.grader_id.is_some() && self.score.is_some()
    }

    pub fn submitted(&self) -> (r: bool)
        ensures
            r == self@.submitted(),
    {
        matches!(self.workflow_state, WorkflowState::Submitted) || (!self.unsubmitted()
            && !self.graded())
    }

    pub fn unsubmitted(&self) -> (r: bool)
        ensures
            r == self@.unsubmitted(),
    {
        matches!(self.workflow_state, WorkflowState::Unsubmitted) || self.attachments.is_none()
    }

    pub fn ungraded(&self) -> (r: bool)
        ensures
            r == self@.ungraded(),
    {
        !self.graded()
    }

    pub fn pending_review(&self) -> (r: bool)
        ensures
            r == self@.pending_review(),
    {
        matches!(self.workflow_state, WorkflowState::PendingReview)
    }

    pub fn grade_not_100(&self) -> (r: bool)
        ensures
            r == self@.grade_not_100(),
    {
        match self.score {
            Some(score) => self.graded() && score.to_bits() != FULL_SCORE_BITS,
            None => false,
        }
    }

    pub fn assignment(&self) -> (r: u64)
        ensures
            r == self@.assignment_id,
    {
        self.assignment_id
    }

    pub fn attempt(&self) -> (r: u64)
        ensures
            r == self@.attempt_or_zero(),
    {
        match self.attempt {
            Some(n) => n,
            None => 0,
        }
    }

    /// The attempt as the remote system gave it: absent before the first one.
    pub fn attempt_number(&self) -> (r: Option<u64>)
        ensures
            r == self@.attempt,
    {
        self.attempt
    }

    pub fn user(&self) -> (r: u64)
        ensures
            r == self@.user_id,
    {
        self.user_id
    }

    pub fn grader(&self) -> (r: Option<u64>)
        ensures
            r == self@.grader_id,
    {
        self.grader_id
    }

    pub fn score(&self) -> (r: Option<Score>)
        ensures
            r == self@.score,
    {
        self.score
    }

    pub fn redo_request(&self) -> (r: bool)
        ensures
            r == self@.redo_request,
    {
        self.redo_request
    }

    /// The attachments as the remote system listed them, if it listed any.
    pub fn attachments(&self) -> (r: &Option<Vec<CanvasFile>>)
        ensures
            self@.attachments == match *r {
                Some(files) => Some(views(files@)),
                None => None,
            },
    {
        &self.attachments
    }

    pub fn workflow_state(&self) -> (r: WorkflowState)
        ensures
            r == self@.workflow_state,
    {
        self.workflow_state
    }

    /// The attached files, ready to be fetched. A submission without
    /// attachments has none, which is no failure.
    pub fn files(&self) -> (r: Option<Vec<FileSubmission>>)
        ensures
            match r {
                Some(files) => self@.files() == Some(views(files@)),
                None => self@.files() is None,
            },
    {
        match &self.attachments {
            None => None,
            Some(attachments) => {
                let mut out: Vec<FileSubmission> = Vec::new();
                let mut i: usize = 0;
                while i < attachments.len()
                    invariant
                        i <= attachments.len(),
                        self.attachments == Some(*attachments),
                        out.len() == i,
                        forall|k: int|
                            0 <= k < i ==> (#[trigger] out[k])@ == (FileSubmissionView {
                                user_id: self.user_id,
                                assignment_id: self.assignment_id,
                                file: attachments[k]@,
                            }),
                    decreases attachments.len() - i,
                {
                    out.push(
                        FileSubmission::new(self.user_id, self.assignment_id, attachments[i].clone()),
                    );
                    i += 1;
                }
                assert(self@.files()->0 =~= views(out@));
                Some(out)
            },
        }
    }

    /// The submission in a word, for messages.
    pub fn to_string(&self) -> (r: String)
        ensures
            r@ == self@.name(),
    {
        let mut out = String::new();
        push_decimal(&mut out, self.user_id);
        out.append("_");
        push_decimal(&mut out, self.assignment_id);
        out.append("_");
        push_decimal(&mut out, self.attempt());
        proof {
            reveal_strlit("_");
            assert("_"@ =~= seq!['_']);
            assert(out@ =~= self@.name());
        }
        out
    }

    /// The files of all of `submissions`, in the order of the submissions and,
    /// for each, of its attachments. Submissions without attachments add none.
    pub fn all_files(submissions: &Vec<Submission>) -> (r: Vec<FileSubmission>)
        ensures
            views(r@) == files_of(views(submissions@)),
    {
        let mut out: Vec<FileSubmission> = Vec::new();
        let mut i: usize = 0;
        assert(views(submissions@.take(0)) =~= Seq::<SubmissionView>::empty());
        assert(views(out@) =~= Seq::<FileSubmissionView>::empty());
        while i < submissions.len()
            invariant
                i <= submissions.len(),
                views(out@) == files_of(views(submissions@.take(i as int))),
            decreases submissions.len() - i,
        {
            proof {
                let seen = submissions@.take(i as int);
                assert(submissions@.take(i + 1) =~= seen.push(submissions@[i as int]));
                lemma_views_push(seen, submissions@[i as int]);
                assert(views(seen.push(submissions@[i as int])).drop_last() =~= views(seen));
            }
            match submissions[i].files() {
                Some(mut files) => {
                    proof {
                        lemma_views_add(out@, files@);
                    }
                    out.append(&mut files);
                },
                None => {
                    assert(views(out@) + Seq::<FileSubmissionView>::empty() =~= views(out@));
                },
            }
            i += 1;
        }
        assert(submissions@.take(submissions.len() as int) =~= submissions@);
        out
    }

    /// Of the submissions fetched for an assignment, those in `state`, in the
    /// order in which they were fetched.
    pub fn select(fetched: Vec<Submission>, state: &SubmissionState) -> (r: Vec<Submission>)
        ensures
            views(r@) == views(fetched@).filter(|s: SubmissionView| state.selects(s)),
    {
        let ghost pred = |s: SubmissionView| state.selects(s);
        let ghost all = fetched@;
        let mut out: Vec<Submission> = Vec::new();
        assert(views(all.take(0)) =~= Seq::<SubmissionView>::empty());
        assert(views(out@) =~= Seq::<SubmissionView>::empty());
        for submission in it: fetched
            invariant
                it.seq() == all,
                pred == |s: SubmissionView| state.selects(s),
                views(out@) == views(all.take(it.index() as int)).filter(pred),
        {
            proof {
                let seen = all.take(it.index() as int);
                assert(all.take(it.index() + 1) =~= seen.push(submission));
                lemma_views_push(seen, submission);
                views(seen).lemma_filter_push(submission@, pred);
                lemma_views_push(out@, submission);
            }
            if state.predicate(&submission) {
                out.push(submission);
            }
        }
        assert(all.take(all.len() as int) =~= all);
        out
    }

    /// How many of the submissions fetched for an assignment are in `state`.
    pub fn count_submissions(fetched: &Vec<Submission>, state: &SubmissionState) -> (r: usize)
        ensures
            r == views(fetched@).filter(|s: SubmissionView| state.selects(s)).len(),
    {
        let ghost pred = |s: SubmissionView| state.selects(s);
        let mut count: usize = 0;
        let mut i: usize = 0;
        assert(views(fetched@.take(0)) =~= Seq::<SubmissionView>::empty());
        while i < fetched.len()
            invariant
                i <= fetched.len(),
                count <= i,
                pred == |s: SubmissionView| state.selects(s),
                count == views(fetched@.take(i as int)).filter(pred).len(),
            decreases fetched.len() - i,
        {
            proof {
                let seen = fetched@.take(i as int);
                assert(fetched@.take(i + 1) =~= seen.push(fetched[i as int]));
                lemma_views_push(seen, fetched[i as int]);
                views(seen).lemma_filter_push(fetched[i as int]@, pred);
            }
            if state.predicate(&fetched[i]) {
                count += 1;
            }
            i += 1;
        }
        assert(fetched@.take(fetched.len() as int) =~= fetched@);
        count
    }
}

/// The states by which submissions are selected.
#[derive(Debug, Clone, Copy, PartialEq, Eq, Structural)]
pub enum SubmissionState {
    Unsubmitted,
    Submitted,
    Ungraded,
    Graded,
    GradeNot100,
}

impl SubmissionState {
    /// Whether a submission is in this state.
    pub open spec fn selects(self, s: SubmissionView) -> bool {
        match self {
            SubmissionState::Unsubmitted => s.unsubmitted(),
            SubmissionState::Submitted => s.submitted(),
            SubmissionState::Ungraded => s.ungraded(),
            SubmissionState::Graded => s.graded(),
            SubmissionState::GradeNot100 => s.grade_not_100(),
        }
    }

    /// Tells whether `submission` is in this state.
    pub fn predicate(&self, submission: &Submission) -> (r: bool)
        ensures
            r == self.selects(submission@),
    {
        match self {
            SubmissionState::Unsubmitted => submission.unsubmitted(),
            SubmissionState::Submitted => submission.submitted(),
            SubmissionState::Ungraded => submission.ungraded(),
            SubmissionState::Graded => submission.graded(),
            SubmissionState::GradeNot100 => submission.grade_not_100(),
        }
    }
}

impl Default for SubmissionState {
    fn default() -> (r: Self)
        ensures
            r == SubmissionState::Ungraded,
    {
        SubmissionState::Ungraded
    }
}

} // verus!
