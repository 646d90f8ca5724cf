//! Files attached to a submission, and the names under which they are kept
//! on disk.

use crate::text::{
    decimal, is_digit, lemma_cut_unique, lemma_decimal_digits, lemma_decimal_injective, push_decimal,
};
use vstd::prelude::*;
use vstd::string::StringExecFns;

verus! {

/// A file on the remote system, as a submission refers to it.
#[derive(Debug, PartialEq, Eq)]
pub struct CanvasFile {
    id: Option<u64>,
    url: String,
    filename: String,
}

/// What a `CanvasFile` holds.
pub struct CanvasFileView {
    /// The remote identifier, known only where the file was asked for by itself.
    pub id: Option<u64>,
    /// The address from which the file can be fetched for a limited time.
    pub url: Seq<char>,
    /// The name that the remote system gave the file. Two users may share one.
    pub filename: Seq<char>,
}

impl View for CanvasFile {
    type V = CanvasFileView;

    closed spec fn view(&self) -> CanvasFileView {
        CanvasFileView { id: self.id, url: self.url@, filename: self.filename@ }
    }
}

impl Clone for CanvasFile {
    fn clone(&self) -> (r: Self)
        ensures
            r == *self,
    {
        CanvasFile { id: self.id, url: self.url.clone(), filename: self.filename.clone() }
    }
}

impl CanvasFile {
    pub fn new(id: Option<u64>, url: String, filename: String) -> (r: Self)
        ensures
            r@ == (CanvasFileView { id, url: url@, filename: filename@ }),
    {
        CanvasFile { id, url, filename }
    }

    pub fn id(&self) -> (r: Option<u64>)
        ensures
            r == self@.id,
    {
        self.id
    }

    pub fn url(&self) -> (r: &str)
        ensures
            r@ == self@.url,
    {
        self.url.as_str()
    }

    pub fn filename(&self) -> (r: &str)
        ensures
            r@ == self@.filename,
    {
        self.filename.as_str()
    }
}

/// The name under which a file of the given user and assignment is kept:
/// the two numbers in decimal notation and the file's own name, joined by `_`.
pub open spec fn local_name(user_id: u64, assignment_id: u64, filename: Seq<char>) -> Seq<char> {
    decimal(user_id as nat) + seq!['_'] + decimal(assignment_id as nat) + seq!['_'] + filename
}

/// Local names do not collide: a name belongs to one user, one assignment and
/// one remote file name only.
pub proof fn lemma_local_name_injective(
    user_a: u64,
    assignment_a: u64,
    filename_a: Seq<char>,
    user_b: u64,
    assignment_b: u64,
    filename_b: Seq<char>,
)
    requires
        local_name(user_a, assignment_a, filename_a) == local_name(user_b, assignment_b, filename_b),
    ensures
        user_a == user_b,
        assignment_a == assignment_b,
        filename_a == filename_b,
{
    let rest_a = decimal(assignment_a as nat) + seq!['_'] + filename_a;
    let rest_b = decimal(assignment_b as nat) + seq!['_'] + filename_b;
    assert(local_name(user_a, assignment_a, filename_a) =~= decimal(user_a as nat) + seq!['_']
        + rest_a);
    assert(local_name(user_b, assignment_b, filename_b) =~= decimal(user_b as nat) + seq!['_']
        + rest_b);
    lemma_decimal_digits(user_a as nat);
    lemma_decimal_digits(user_b as nat);
    lemma_decimal_digits(assignment_a as nat);
    lemma_decimal_digits(assignment_b as nat);
    assert(!is_digit('_'));
    lemma_cut_unique(decimal(user_a as nat), rest_a, decimal(user_b as nat), rest_b, '_');
    lemma_cut_unique(
        decimal(assignment_a as nat),
        filename_a,
        decimal(assignment_b as nat),
        filename_b,
        '_',
    );
    lemma_decimal_injective(user_a as nat, user_b as nat);
    lemma_decimal_injective(assignment_a as nat, assignment_b as nat);
}

/// One attached file together with the user and the assignment it belongs to.
#[derive(Debug, PartialEq, Eq)]
pub struct FileSubmission {
    user_id: u64,
    assignment_id: u64,
    file: CanvasFile,
}

/// What a `FileSubmission` holds.
pub struct FileSubmissionView {
    pub user_id: u64,
    pub assignment_id: u64,
    pub file: CanvasFileView,
}

impl FileSubmissionView {
    /// The name under which the file is kept on disk.
    pub open spec fn name(self) -> Seq<char> {
        local_name(self.user_id, self.assignment_id, self.file.filename)
    }
}

impl View for FileSubmission {
    type V = FileSubmissionView;

    closed spec fn view(&self) -> FileSubmissionView {
        FileSubmissionView {
            user_id: self.user_id,
            assignment_id: self.assignment_id,
            file: self.file@,
        }
    }
}

impl Clone for FileSubmission {
    fn clone(&self) -> (r: Self)
        ensures
            r == *self,
    {
        FileSubmission {
            user_id: self.user_id,
            assignment_id: self.assignment_id,
            file: self.file.clone(),
        }
    }
}

impl FileSubmission {
    pub fn new(user_id: u64, assignment_id: u64, file: CanvasFile) -> (r: Self)
        ensures
            r@ == (FileSubmissionView { user_id, assignment_id, file: file@ }),
    {
        FileSubmission { user_id, assignment_id, file }
    }

    pub fn user(&self) -> (r: u64)
        ensures
            r == self@.user_id,
    {
        self.user_id
    }

    pub fn assignment(&self) -> (r: u64)
        ensures
            r == self@.assignment_id,
    {
        self.assignment_id
    }

    pub fn file(&self) -> (r: &CanvasFile)
        ensures
            r@ == self@.file,
    {
        &self.file
    }

    /// The name under which the file is kept on disk. It depends on nothing
    /// but the user, the assignment and the remote file name, so fetching the
    /// same file again overwrites the earlier copy.
    pub fn to_string(&self) -> (r: String)
        ensures
            r@ == self@.name(),
    {
        let mut out = String::new();
        push_decimal(&mut out, self.user_id);
        out.append("_");
        push_decimal(&mut out, self.assignment_id);
        out.append("_");
        out.append(self.file.filename());
        proof {
            reveal_strlit("_");
            assert("_"@ =~= seq!['_']);
            assert(out@ =~= self@.name());
        }
        out
    }
}

} // verus!
