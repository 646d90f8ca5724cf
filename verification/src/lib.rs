//! Grading state of one course on a learning-management system: which
//! submissions there are, what state each is in, which files belong to it,
//! and how grades and comments are sent back in one request.

pub mod config;
pub mod file;
pub mod form;
pub mod grade;
pub mod model;
pub mod page;
pub mod submission;
pub mod text;
pub mod update;

pub use config::{AccessToken, Command, Config, CLI};
pub use file::{CanvasFile, FileSubmission};
pub use grade::{Comment, Grade};
pub use submission::{Score, Submission, SubmissionState, WorkflowState};
