//! The one request that sends the grades and comments of a run.

use crate::config::{update_grades_url, Config};
use crate::form::{form_of, Form};
use crate::grade::{Comment, CommentView, Grade};
use crate::model::views;
use crate::submission::Submission;
use crate::text::{decimal, push_decimal};
use vstd::prelude::*;

verus! {

/// A request that sets grades and comments: where to post, and the form to
/// post. All that a run sends goes into one such request.
#[derive(Debug)]
pub struct UpdateRequest {
    pub url: String,
    pub form: Form,
}

/// Why an update did not go through.
#[derive(Debug, PartialEq, Eq)]
pub enum UpdateError {
    /// The request could not be sent, or no answer came.
    Transport { cause: String },
    /// The answer came with a status that does not say success.
    Status { status: u16 },
}

/// What an `UpdateError` holds.
pub enum UpdateErrorView {
    Transport { cause: Seq<char> },
    Status { status: u16 },
}

impl View for UpdateError {
    type V = UpdateErrorView;

    open spec fn view(&self) -> UpdateErrorView {
        match self {
            UpdateError::Transport { cause } => UpdateErrorView::Transport { cause: cause@ },
            UpdateError::Status { status } => UpdateErrorView::Status { status: *status },
        }
    }
}

impl UpdateErrorView {
    pub open spec fn text(self) -> Seq<char> {
        match self {
            UpdateErrorView::Transport { cause } => cause,
            UpdateErrorView::Status { status } => "Failed to update grades: status "@ + decimal(
                status as nat,
            ),
        }
    }
}

impl UpdateError {
    /// The error in words.
    pub fn message(&self) -> (r: String)
        ensures
            r@ == self@.text(),
    {
        match self {
            UpdateError::Transport { cause } => cause.clone(),
            UpdateError::Status { status } => {
                let mut out = "Failed to update grades: status ".to_owned();
                let status: u16 = *status;
                push_decimal(&mut out, status as u64);
                out
            },
        }
    }
}

/// Whether a status says success: 200 up to 299.
pub open spec fn is_success(status: u16) -> bool {
    200 <= status && status < 300
}

/// What has come of an update, where `sent` holds the status of the answer,
/// or the reason why there is none. The status alone decides: what the
/// answer says in its body is not read.
pub open spec fn update_outcome(sent: Result<u16, Seq<char>>) -> Result<(), UpdateErrorView> {
    match sent {
        Err(cause) => Err(UpdateErrorView::Transport { cause }),
        Ok(status) => if is_success(status) {
            Ok(())
        } else {
            Err(UpdateErrorView::Status { status })
        },
    }
}

/// What came of sending, by what it holds.
pub open spec fn sent_view(sent: Result<u16, String>) -> Result<u16, Seq<char>> {
    match sent {
        Ok(status) => Ok(status),
        Err(cause) => Err(cause@),
    }
}

impl UpdateRequest {
    /// Judges an update by the status of its answer, or by the reason why
    /// there is no answer.
    pub fn outcome(sent: Result<u16, String>) -> (r: Result<(), UpdateError>)
        ensures
            match r {
                Ok(_) => update_outcome(sent_view(sent)) is Ok,
                Err(error) => update_outcome(sent_view(sent)) == Err::<(), UpdateErrorView>(error@),
            },
    {
        match sent {
            Err(cause) => Err(UpdateError::Transport { cause }),
            Ok(status) => if 200 <= status && status < 300 {
                Ok(())
            } else {
                Err(UpdateError::Status { status })
            },
        }
    }
}

impl Submission {
    /// The request that sends `grades` for the assignment `assignment_id`.
    pub fn update_grades(assignment_id: u64, grades: &[Grade], config: &Config) -> (r: UpdateRequest)
        ensures
            r.url@ == update_grades_url(config@.base_url, config@.course_id, assignment_id),
            r.form@ == form_of(grades@, Seq::empty()),
    {
        let none: Vec<Comment> = Vec::new();
        assert(views(none@) =~= Seq::<CommentView>::empty());
        UpdateRequest {
            url: config.update_grades_url(assignment_id),
            form: Form::encode(grades, none.as_slice()),
        }
    }

    /// The request that sends `grades` and `comments` for the assignment
    /// `assignment_id`. The comments are sent as they are: where a user has
    /// several, draw them together first, for only the last one is sent.
    pub fn update_grades_with_comments(
        assignment_id: u64,
        grades: &[Grade],
        comments: &[Comment],
        config: &Config,
    ) -> (r: UpdateRequest)
        ensures
            r.url@ == update_grades_url(config@.base_url, config@.course_id, assignment_id),
            r.form@ == form_of(grades@, views(comments@)),
    {
        UpdateRequest {
            url: config.update_grades_url(assignment_id),
            form: Form::encode(grades, comments),
        }
    }
}

} // verus!
