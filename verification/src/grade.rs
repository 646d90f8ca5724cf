//! Grades and comments as they are typed in, one to a line, and how the
//! comments of one user are drawn together.

use crate::model::{lemma_views_push, views};
use crate::submission::Score;
use crate::text::{
    chars_of, decimal, find, is_digit, is_first_occurrence, lemma_decimal_digits,
    lemma_decimal_round_trip, lemma_first_occurrence_unique, occurs, occurs_at, parse_unsigned,
    split_once, unsigned_value,
};
use vstd::prelude::*;
use vstd::string::StringExecFns;

verus! {

/// What stands between the user and the rest of a line: a colon and a space.
pub open spec fn separator() -> Seq<char> {
    seq![':', ' ']
}

/// What ends each line of a comment.
pub open spec fn line_break() -> Seq<char> {
    seq!['\n']
}

/// Why a line is neither a grade nor a comment.
#[derive(Debug, Clone, Copy, PartialEq, Eq, Structural)]
pub enum ParseError {
    /// The line holds no separator, so no grade follows the user.
    MissingGrade,
    /// The line holds no separator, so no comment follows the user.
    MissingComment,
    /// What stands before the separator is no 64-bit unsigned number.
    InvalidUserId,
    /// What stands behind the separator is no number.
    InvalidGrade,
}

impl ParseError {
    pub open spec fn text(self) -> Seq<char> {
        match self {
            ParseError::MissingGrade => "Unable to parse grade from stdin."@,
            ParseError::MissingComment => "Unable to parse comment line."@,
            ParseError::InvalidUserId => "Unable to parse user id to u64"@,
            ParseError::InvalidGrade => "Unable to parse grade to a number"@,
        }
    }

    /// The error in words.
    pub fn message(&self) -> (r: String)
        ensures
            r@ == self.text(),
    {
        match self {
            ParseError::MissingGrade => "Unable to parse grade from stdin.".to_owned(),
            ParseError::MissingComment => "Unable to parse comment line.".to_owned(),
            ParseError::InvalidUserId => "Unable to parse user id to u64".to_owned(),
            ParseError::InvalidGrade => "Unable to parse grade to a number".to_owned(),
        }
    }
}

/// Whether a character counts as white space: the characters to which
/// Unicode gives the property White_Space. They are the controls from tab to
/// carriage return, the space, the next-line control, the no-break space,
/// the ogham space mark, the spaces from en quad to hair space, the line and
/// the paragraph separator, the narrow no-break space, the medium
/// mathematical space and the ideographic space.
pub open spec fn is_white_space(c: char) -> bool {
    let code = c as u32;
    ||| 0x09 <= code <= 0x0D
    ||| code == 0x20
    ||| code == 0x85
    ||| code == 0xA0
    ||| code == 0x1680
    ||| 0x2000 <= code <= 0x200A
    ||| code == 0x2028
    ||| code == 0x2029
    ||| code == 0x202F
    ||| code == 0x205F
    ||| code == 0x3000
}

/// Tells whether a character counts as white space.
pub fn is_whitespace(c: char) -> (r: bool)
    ensures
        r == is_white_space(c),
{
    let code = c as u32;
    (0x09 <= code && code <= 0x0D) || code == 0x20 || code == 0x85 || code == 0xA0 || code
        == 0x1680 || (0x2000 <= code && code <= 0x200A) || code == 0x2028 || code == 0x2029 || code
        == 0x202F || code == 0x205F || code == 0x3000
}

/// How many characters of white space `s` begins with.
pub open spec fn leading_space(s: Seq<char>) -> nat
    decreases s.len(),
{
    if s.len() > 0 && is_white_space(s[0]) {
        1 + leading_space(s.drop_first())
    } else {
        0
    }
}

/// How many characters of white space `s` ends with.
pub open spec fn trailing_space(s: Seq<char>) -> nat
    decreases s.len(),
{
    if s.len() > 0 && is_white_space(s.last()) {
        1 + trailing_space(s.drop_last())
    } else {
        0
    }
}

/// `s` without the white space at its two ends.
pub open spec fn trimmed(s: Seq<char>) -> Seq<char> {
    if leading_space(s) == s.len() {
        Seq::empty()
    } else {
        s.subrange(leading_space(s) as int, s.len() - trailing_space(s))
    }
}

/// Where the first `n` characters are white space and the next one is not,
/// `n` is the white space that `s` begins with.
pub proof fn lemma_leading_space(s: Seq<char>, n: int)
    requires
        0 <= n <= s.len(),
        forall|i: int| 0 <= i < n ==> is_white_space(s[i]),
        n < s.len() ==> !is_white_space(s[n]),
    ensures
        leading_space(s) == n,
    decreases n,
{
    if n > 0 {
        let rest = s.drop_first();
        assert forall|i: int| 0 <= i < n - 1 implies is_white_space(rest[i]) by {
            assert(rest[i] == s[i + 1]);
        }
        lemma_leading_space(rest, n - 1);
    }
}

/// Where the last `n` characters are white space and the one before is not,
/// `n` is the white space that `s` ends with.
pub proof fn lemma_trailing_space(s: Seq<char>, n: int)
    requires
        0 <= n <= s.len(),
        forall|i: int| s.len() - n <= i < s.len() ==> is_white_space(s[i]),
        n < s.len() ==> !is_white_space(s[s.len() - n - 1]),
    ensures
        trailing_space(s) == n,
    decreases n,
{
    if n > 0 {
        let rest = s.drop_last();
        assert forall|i: int| rest.len() - (n - 1) <= i < rest.len() implies is_white_space(
            rest[i],
        ) by {
            assert(rest[i] == s[i]);
        }
        lemma_trailing_space(rest, n - 1);
    }
}

/// The white space that `s` begins with is white space, and what follows it
/// is not.
pub proof fn lemma_leading_space_ends(s: Seq<char>)
    ensures
        leading_space(s) <= s.len(),
        forall|i: int| 0 <= i < leading_space(s) ==> is_white_space(#[trigger] s[i]),
        leading_space(s) < s.len() ==> !is_white_space(s[leading_space(s) as int]),
    decreases s.len(),
{
    if s.len() > 0 && is_white_space(s[0]) {
        let rest = s.drop_first();
        lemma_leading_space_ends(rest);
        assert forall|i: int| 0 <= i < leading_space(s) implies is_white_space(#[trigger] s[i]) by {
            if i > 0 {
                assert(s[i] == rest[i - 1]);
            }
        }
        if leading_space(s) < s.len() {
            assert(s[leading_space(s) as int] == rest[leading_space(rest) as int]);
        }
    }
}

/// The white space that `s` ends with is white space, and what stands
/// before it is not.
pub proof fn lemma_trailing_space_ends(s: Seq<char>)
    ensures
        trailing_space(s) <= s.len(),
        forall|i: int| s.len() - trailing_space(s) <= i < s.len() ==> is_white_space(#[trigger] s[i]),
        trailing_space(s) < s.len() ==> !is_white_space(s[s.len() - trailing_space(s) - 1]),
    decreases s.len(),
{
    if s.len() > 0 && is_white_space(s.last()) {
        let rest = s.drop_last();
        lemma_trailing_space_ends(rest);
        assert forall|i: int| s.len() - trailing_space(s) <= i < s.len() implies is_white_space(
            #[trigger] s[i],
        ) by {
            if i < s.len() - 1 {
                assert(s[i] == rest[i]);
            }
        }
        if trailing_space(s) < s.len() {
            assert(s[s.len() - trailing_space(s) - 1] == rest[rest.len() - trailing_space(rest) - 1]);
        }
    }
}

/// What is left after trimming neither begins nor ends with white space,
/// and trimming it again changes nothing.
pub proof fn lemma_trimmed_ends(s: Seq<char>)
    ensures
        trimmed(s).len() > 0 ==> !is_white_space(trimmed(s).first()) && !is_white_space(
            trimmed(s).last(),
        ),
        trimmed(trimmed(s)) == trimmed(s),
{
    lemma_leading_space_ends(s);
    lemma_trailing_space_ends(s);
    let t = trimmed(s);
    if leading_space(s) < s.len() {
        let from = leading_space(s) as int;
        if from + trailing_space(s) > s.len() {
            assert(is_white_space(s[from]));
        }
        assert(t.len() > 0);
        assert(t.first() == s[from]);
        assert(t.last() == s[s.len() - trailing_space(s) - 1]);
        lemma_leading_space(t, 0);
        lemma_trailing_space(t, 0);
        assert(t.subrange(0, t.len() as int) =~= t);
    } else {
        assert(t.len() == 0);
    }
}

/// Takes the white space off the two ends of `s`.
pub fn trim(s: &str) -> (r: &str)
    ensures
        r@ == trimmed(s@),
{
    let chars = chars_of(s);
    let mut from: usize = 0;
    while from < chars.len() && is_whitespace(chars[from])
        invariant
            from <= chars.len(),
            forall|i: int| 0 <= i < from ==> is_white_space(chars@[i]),
        decreases chars.len() - from,
    {
        from += 1;
    }
    proof {
        lemma_leading_space(s@, from as int);
    }
    if from == chars.len() {
        let r = s.substring_char(0, 0);
        assert(r@ =~= Seq::<char>::empty());
        return r;
    }
    let mut to: usize = chars.len();
    while to > from + 1 && is_whitespace(chars[to - 1])
        invariant
            from < to <= chars.len(),
            !is_white_space(chars@[from as int]),
            forall|i: int| to <= i < chars.len() ==> is_white_space(chars@[i]),
        decreases to,
    {
        to -= 1;
    }
    proof {
        lemma_trailing_space(s@, chars.len() - to);
    }
    s.substring_char(from, to)
}

/// Cuts `line` at its first separator.
fn cut(line: &str) -> (r: Option<(String, String)>)
    ensures
        match r {
            Some((before, after)) => split_once(line@, separator()) == Some((before@, after@)),
            None => split_once(line@, separator()) is None,
        },
{
    let chars = chars_of(line);
    let mut pattern: Vec<char> = Vec::new();
    pattern.push(':');
    pattern.push(' ');
    assert(pattern@ =~= separator());
    match find(chars.as_slice(), pattern.as_slice()) {
        None => None,
        Some(at) => {
            proof {
                lemma_first_occurrence_unique(line@, separator(), at as int);
            }
            let end = chars.len();
            assert(at + pattern@.len() <= end);
            let before = line.substring_char(0, at).to_owned();
            let after = line.substring_char(at + 2, end).to_owned();
            assert(before@ =~= line@.take(at as int));
            assert(after@ =~= line@.skip(at + 2));
            Some((before, after))
        },
    }
}

/// A grade for one user.
#[derive(Debug, Clone, Copy, PartialEq, Eq, Structural)]
pub struct Grade {
    pub user_id: u64,
    pub grade: Score,
}

/// The two fields of a grade line, the grade still as text.
#[derive(Debug, PartialEq, Eq)]
pub struct GradeFields {
    pub user_id: u64,
    pub grade: String,
}

/// What a `GradeFields` holds.
pub struct GradeFieldsView {
    pub user_id: u64,
    pub grade: Seq<char>,
}

impl View for GradeFields {
    type V = GradeFieldsView;

    open spec fn view(&self) -> GradeFieldsView {
        GradeFieldsView { user_id: self.user_id, grade: self.grade@ }
    }
}

/// The fields of the grade line `line`: the number before the first
/// separator, and as the grade all that follows that separator, further
/// separators included.
pub open spec fn grade_fields(line: Seq<char>) -> Result<GradeFieldsView, ParseError> {
    match split_once(line, separator()) {
        None => Err(ParseError::MissingGrade),
        Some((user, grade)) => match unsigned_value(user) {
            None => Err(ParseError::InvalidUserId),
            Some(user_id) => Ok(GradeFieldsView { user_id, grade }),
        },
    }
}

impl GradeFieldsView {
    /// The grade that the fields give, where `value` is the number that the
    /// text of the grade denotes, if it denotes one.
    pub open spec fn read(self, value: Option<Score>) -> Result<Grade, ParseError> {
        match value {
            None => Err(ParseError::InvalidGrade),
            Some(grade) => Ok(Grade { user_id: self.user_id, grade }),
        }
    }
}

/// The grade that `line` gives, where `value` is the number that the text of
/// its grade denotes, if it denotes one.
pub open spec fn grade_of(line: Seq<char>, value: Option<Score>) -> Result<Grade, ParseError> {
    match grade_fields(line) {
        Err(error) => Err(error),
        Ok(fields) => fields.read(value),
    }
}

impl GradeFields {
    /// Makes the grade, once the text of the grade has been read as a number:
    /// `value` holds the number, or nothing where the text denotes none.
    pub fn read(&self, value: Option<Score>) -> (r: Result<Grade, ParseError>)
        ensures
            r == self@.read(value),
    {
        match value {
            None => Err(ParseError::InvalidGrade),
            Some(grade) => Ok(Grade { user_id: self.user_id, grade }),
        }
    }
}

impl Grade {
    /// Reads the two fields of a grade line of the shape `<user>: <grade>`.
    pub fn fields(line: &str) -> (r: Result<GradeFields, ParseError>)
        ensures
            match r {
                Ok(fields) => grade_fields(line@) == Ok::<GradeFieldsView, ParseError>(fields@),
                Err(error) => grade_fields(line@) == Err::<GradeFieldsView, ParseError>(error),
            },
    {
        match cut(line) {
            None => Err(ParseError::MissingGrade),
            Some((user, grade)) => match parse_unsigned(user.as_str()) {
                None => Err(ParseError::InvalidUserId),
                Some(user_id) => Ok(GradeFields { user_id, grade }),
            },
        }
    }

    /// Reads a grade line, given the number that the text of its grade
    /// denotes (see `fields`), or nothing where it denotes none.
    pub fn from_str(line: &str, value: Option<Score>) -> (r: Result<Grade, ParseError>)
        ensures
            r == grade_of(line@, value),
    {
        match Grade::fields(line) {
            Err(error) => Err(error),
            Ok(fields) => fields.read(value),
        }
    }
}

/// A comment for one user.
#[derive(Debug, PartialEq, Eq)]
pub struct Comment {
    pub user_id: u64,
    pub comment: String,
}

/// What a `Comment` holds.
pub struct CommentView {
    pub user_id: u64,
    pub comment: Seq<char>,
}

impl View for Comment {
    type V = CommentView;

    open spec fn view(&self) -> CommentView {
        CommentView { user_id: self.user_id, comment: self.comment@ }
    }
}

impl Clone for Comment {
    fn clone(&self) -> (r: Self)
        ensures
            r == *self,
    {
        Comment { user_id: self.user_id, comment: self.comment.clone() }
    }
}

/// The comment that `line` gives: the number before the first separator and
/// all that follows the separator, further separators included.
pub open spec fn comment_of(line: Seq<char>) -> Result<CommentView, ParseError> {
    match split_once(line, separator()) {
        None => Err(ParseError::MissingComment),
        Some((user, comment)) => match unsigned_value(user) {
            None => Err(ParseError::InvalidUserId),
            Some(user_id) => Ok(CommentView { user_id, comment }),
        },
    }
}

impl Comment {
    /// Reads a comment line of the shape `<user>: <text>`.
    pub fn from_str(line: &str) -> (r: Result<Comment, ParseError>)
        ensures
            match r {
                Ok(comment) => comment_of(line@) == Ok::<CommentView, ParseError>(comment@),
                Err(error) => comment_of(line@) == Err::<CommentView, ParseError>(error),
            },
    {
        match cut(line) {
            None => Err(ParseError::MissingComment),
            Some((user, comment)) => match parse_unsigned(user.as_str()) {
                None => Err(ParseError::InvalidUserId),
                Some(user_id) => Ok(Comment { user_id, comment }),
            },
        }
    }
}

/// A grade line and a comment line are cut alike: a line has the fields of
/// a grade exactly where it reads as a comment, for the same user, and the
/// text of the grade is the text of the comment. Which of the two the line
/// is rests with that text alone: a grade where it denotes a number, a
/// comment where it does not.
pub proof fn lemma_grade_line_is_comment_line(line: Seq<char>)
    ensures
        grade_fields(line) is Ok <==> comment_of(line) is Ok,
        grade_fields(line) is Ok ==> comment_of(line)->Ok_0.user_id == grade_fields(
            line,
        )->Ok_0.user_id && comment_of(line)->Ok_0.comment == grade_fields(line)->Ok_0.grade,
{
}

/// A text without a colon, then the separator, then a rest: the line is cut
/// between that text and the rest.
pub proof fn lemma_split_after_plain(before: Seq<char>, after: Seq<char>)
    requires
        forall|i: int| 0 <= i < before.len() ==> before[i] != ':',
    ensures
        split_once(before + separator() + after, separator()) == Some((before, after)),
{
    let line = before + separator() + after;
    let at = before.len() as int;
    assert(line.subrange(at, at + 2) =~= separator());
    assert forall|i: int| 0 <= i < at implies !occurs_at(line, separator(), i) by {
        if occurs_at(line, separator(), i) {
            assert(line.subrange(i, i + 2)[0] == line[i]);
            assert(line[i] == before[i]);
        }
    }
    assert(is_first_occurrence(line, separator(), at));
    lemma_first_occurrence_unique(line, separator(), at);
    assert(line.take(at) =~= before);
    assert(line.skip(at + 2) =~= after);
}

/// A comment written as a line reads back as the same comment: the user in
/// decimal notation, the separator, and the text, whatever the text holds.
pub proof fn lemma_comment_line_round_trip(user_id: u64, comment: Seq<char>)
    ensures
        comment_of(decimal(user_id as nat) + separator() + comment) == Ok::<
            CommentView,
            ParseError,
        >(CommentView { user_id, comment }),
{
    lemma_decimal_digits(user_id as nat);
    lemma_decimal_round_trip(user_id);
    assert(!is_digit(':'));
    lemma_split_after_plain(decimal(user_id as nat), comment);
}

/// A grade written as a line reads back as the same fields: the user in
/// decimal notation, the separator, and the text of the grade, whatever
/// that text holds.
pub proof fn lemma_grade_line_round_trip(user_id: u64, grade: Seq<char>)
    ensures
        grade_fields(decimal(user_id as nat) + separator() + grade) == Ok::<
            GradeFieldsView,
            ParseError,
        >(GradeFieldsView { user_id, grade }),
{
    lemma_decimal_digits(user_id as nat);
    lemma_decimal_round_trip(user_id);
    assert(!is_digit(':'));
    lemma_split_after_plain(decimal(user_id as nat), grade);
}

/// A line without a colon followed by a space is neither a grade nor a
/// comment.
pub proof fn lemma_line_without_separator(line: Seq<char>, value: Option<Score>)
    requires
        !occurs(line, separator()),
    ensures
        grade_of(line, value) == Err::<Grade, ParseError>(ParseError::MissingGrade),
        comment_of(line) == Err::<CommentView, ParseError>(ParseError::MissingComment),
{
}

/// The comments of `comments` drawn together: each run of neighbouring
/// comments for one user becomes one comment, which holds their texts in
/// order, each followed by a line break. Comments for one user that are
/// parted by another user's stay apart.
pub open spec fn merged(comments: Seq<CommentView>) -> Seq<CommentView>
    decreases comments.len(),
{
    if comments.len() == 0 {
        Seq::empty()
    } else {
        let before = merged(comments.drop_last());
        let next = comments.last();
        if before.len() > 0 && before.last().user_id == next.user_id {
            before.update(
                before.len() - 1,
                CommentView {
                    user_id: next.user_id,
                    comment: before.last().comment + next.comment + line_break(),
                },
            )
        } else {
            before.push(
                CommentView { user_id: next.user_id, comment: next.comment + line_break() },
            )
        }
    }
}

/// All the texts of `comments`, one after the other.
pub open spec fn all_text(comments: Seq<CommentView>) -> Seq<char>
    decreases comments.len(),
{
    if comments.len() == 0 {
        Seq::empty()
    } else {
        all_text(comments.drop_last()) + comments.last().comment
    }
}

/// All the texts of `comments`, each followed by a line break.
pub open spec fn all_lines(comments: Seq<CommentView>) -> Seq<char>
    decreases comments.len(),
{
    if comments.len() == 0 {
        Seq::empty()
    } else {
        all_lines(comments.drop_last()) + comments.last().comment + line_break()
    }
}

/// Drawing comments together makes no more of them, makes at least one where
/// there is one to begin with, and ends with the user that the input ends with.
pub proof fn lemma_merged_len(comments: Seq<CommentView>)
    ensures
        merged(comments).len() <= comments.len(),
        comments.len() > 0 ==> merged(comments).len() > 0 && merged(comments).last().user_id
            == comments.last().user_id,
    decreases comments.len(),
{
    if comments.len() > 0 {
        lemma_merged_len(comments.drop_last());
    }
}

/// After drawing together, no two neighbours are for the same user.
pub proof fn lemma_merged_neighbours_differ(comments: Seq<CommentView>, i: int)
    requires
        0 <= i,
        i + 1 < merged(comments).len(),
    ensures
        merged(comments)[i].user_id != merged(comments)[i + 1].user_id,
    decreases comments.len(),
{
    if comments.len() > 0 {
        let before = merged(comments.drop_last());
        lemma_merged_len(comments.drop_last());
        if i + 1 < before.len() {
            lemma_merged_neighbours_differ(comments.drop_last(), i);
        }
    }
}

/// Drawing together loses no text and adds none but the line breaks.
pub proof fn lemma_merged_text(comments: Seq<CommentView>)
    ensures
        all_text(merged(comments)) == all_lines(comments),
    decreases comments.len(),
{
    if comments.len() > 0 {
        let before = merged(comments.drop_last());
        let next = comments.last();
        lemma_merged_text(comments.drop_last());
        if before.len() > 0 && before.last().user_id == next.user_id {
            let after = merged(comments);
            assert(after.drop_last() =~= before.drop_last());
            assert(all_text(after) =~= all_text(before.drop_last()) + (before.last().comment
                + next.comment + line_break()));
            assert(all_text(before) == all_text(before.drop_last()) + before.last().comment);
            assert(all_text(after) =~= all_lines(comments));
        } else {
            let after = merged(comments);
            assert(after.drop_last() =~= before);
            assert(all_text(after) =~= all_lines(comments));
        }
    }
}

/// Draws the comments of each user together, as `merged` says.
pub fn merge_comments(comments: Vec<Comment>) -> (r: Vec<Comment>)
    ensures
        views(r@) == merged(views(comments@)),
{
    let ghost all = comments@;
    let mut out: Vec<Comment> = Vec::new();
    let mut text = String::new();
    let mut current: Option<u64> = None;
    assert(views(all.take(0)) =~= Seq::<CommentView>::empty());
    for comment in it: comments
        invariant
            it.seq() == all,
            match current {
                None => it.index() == 0 && out@.len() == 0 && text@.len() == 0,
                Some(user_id) => merged(views(all.take(it.index() as int))) == views(out@).push(
                    CommentView { user_id, comment: text@ },
                ),
            },
    {
        let ghost seen = all.take(it.index() as int);
        let ghost before = merged(views(seen));
        let ghost old_out = out@;
        let ghost old_text = text@;
        proof {
            assert(all.take(it.index() + 1) =~= seen.push(comment));
            lemma_views_push(seen, comment);
            assert(views(seen.push(comment)).drop_last() =~= views(seen));
            reveal_strlit("\n");
            assert("\n"@ =~= line_break());
        }
        match current {
            Some(user_id) => {
                if user_id != comment.user_id {
                    out.push(Comment { user_id, comment: text });
                    text = String::new();
                    proof {
                        lemma_views_push(old_out, Comment { user_id, comment: text });
                        assert(views(out@) =~= before);
                    }
                }
            },
            None => {
                assert(views(seen) =~= Seq::<CommentView>::empty());
            },
        }
        text.append(comment.comment.as_str());
        text.append("\n");
        current = Some(comment.user_id);
        proof {
            let after = merged(views(seen.push(comment)));
            assert(after =~= views(out@).push(
                CommentView { user_id: comment.user_id, comment: text@ },
            ));
        }
    }
    assert(all.take(all.len() as int) =~= all);
    match current {
        Some(user_id) => {
            proof {
                lemma_views_push(out@, Comment { user_id, comment: text });
            }
            out.push(Comment { user_id, comment: text });
        },
        None => {
            assert(views(all) =~= Seq::<CommentView>::empty());
            assert(views(out@) =~= Seq::<CommentView>::empty());
        },
    }
    out
}

/// What a line was read as.
#[derive(Debug, PartialEq, Eq)]
pub enum Entry {
    Grade(Grade),
    Comment(Comment),
}

/// What an `Entry` holds.
pub enum EntryView {
    Grade(Grade),
    Comment(CommentView),
}

impl View for Entry {
    type V = EntryView;

    open spec fn view(&self) -> EntryView {
        match self {
            Entry::Grade(grade) => EntryView::Grade(*grade),
            Entry::Comment(comment) => EntryView::Comment(comment@),
        }
    }
}

/// What the line `line` is read as, white space at its ends aside: a grade
/// where it reads as one, else a comment where it reads as one, else nothing.
/// `value` is the number that the text of its grade denotes, if any.
pub open spec fn entry_of(line: Seq<char>, value: Option<Score>) -> Option<EntryView> {
    match grade_of(trimmed(line), value) {
        Ok(grade) => Some(EntryView::Grade(grade)),
        Err(_) => match comment_of(trimmed(line)) {
            Ok(comment) => Some(EntryView::Comment(comment)),
            Err(_) => None,
        },
    }
}

/// The text in `line` that has to denote a number for the line to be a
/// grade, or nothing where the line is no grade whatever that text is.
pub open spec fn grade_text_of(line: Seq<char>) -> Option<Seq<char>> {
    match grade_fields(trimmed(line)) {
        Ok(fields) => Some(fields.grade),
        Err(_) => None,
    }
}

/// Finds in `line` the text of the grade, for the caller to read as a number.
pub fn grade_text_in(line: &str) -> (r: Option<String>)
    ensures
        match r {
            Some(text) => grade_text_of(line@) == Some(text@),
            None => grade_text_of(line@) is None,
        },
{
    match Grade::fields(trim(line)) {
        Ok(fields) => Some(fields.grade),
        Err(_) => None,
    }
}

/// Reads one line as a grade or, failing that, as a comment. A line that is
/// neither is dropped without an error.
pub fn read_line(line: &str, value: Option<Score>) -> (r: Option<Entry>)
    ensures
        match r {
            Some(entry) => entry_of(line@, value) == Some(entry@),
            None => entry_of(line@, value) is None,
        },
{
    let line = trim(line);
    match Grade::from_str(line, value) {
        Ok(grade) => Some(Entry::Grade(grade)),
        Err(_) => match Comment::from_str(line) {
            Ok(comment) => Some(Entry::Comment(comment)),
            Err(_) => None,
        },
    }
}

/// The grades among the lines `lines`, in order. Each line comes with the
/// number that the text of its grade denotes, if any.
pub open spec fn grades_of(lines: Seq<(Seq<char>, Option<Score>)>) -> Seq<Grade>
    decreases lines.len(),
{
    if lines.len() == 0 {
        Seq::empty()
    } else {
        let before = grades_of(lines.drop_last());
        match entry_of(lines.last().0, lines.last().1) {
            Some(EntryView::Grade(grade)) => before.push(grade),
            _ => before,
        }
    }
}

/// The comments among the lines `lines`, in order.
pub open spec fn comments_of(lines: Seq<(Seq<char>, Option<Score>)>) -> Seq<CommentView>
    decreases lines.len(),
{
    if lines.len() == 0 {
        Seq::empty()
    } else {
        let before = comments_of(lines.drop_last());
        match entry_of(lines.last().0, lines.last().1) {
            Some(EntryView::Comment(comment)) => before.push(comment),
            _ => before,
        }
    }
}

/// The lines `lines` as they are handed over: each text with its number.
pub open spec fn line_views(lines: Seq<(String, Option<Score>)>) -> Seq<(Seq<char>, Option<Score>)> {
    lines.map_values(|line: (String, Option<Score>)| (line.0@, line.1))
}

/// Sorts the lines into grades and comments, each in the order of the lines.
/// Every line comes with the number that the text of its grade denotes (see
/// `grade_text_in`), or with nothing where there is no such text or it
/// denotes none. Lines that are neither grade nor comment are left out.
pub fn read_grades_and_comments(lines: &Vec<(String, Option<Score>)>) -> (r: (
    Vec<Grade>,
    Vec<Comment>,
))
    ensures
        r.0@ == grades_of(line_views(lines@)),
        views(r.1@) == comments_of(line_views(lines@)),
{
    let mut grades: Vec<Grade> = Vec::new();
    let mut comments: Vec<Comment> = Vec::new();
    let mut i: usize = 0;
    assert(line_views(lines@.take(0)) =~= Seq::<(Seq<char>, Option<Score>)>::empty());
    assert(views(comments@) =~= Seq::<CommentView>::empty());
    while i < lines.len()
        invariant
            i <= lines.len(),
            grades@ == grades_of(line_views(lines@.take(i as int))),
            views(comments@) == comments_of(line_views(lines@.take(i as int))),
        decreases lines.len() - i,
    {
        proof {
            let seen = lines@.take(i as int);
            let next = lines@.take(i + 1);
            assert(next =~= seen.push(lines@[i as int]));
            assert(line_views(next).drop_last() =~= line_views(seen));
            assert(line_views(next).last() == (lines@[i as int].0@, lines@[i as int].1));
        }
        match read_line(lines[i].0.as_str(), lines[i].1) {
            Some(Entry::Grade(grade)) => {
                grades.push(grade);
            },
            Some(Entry::Comment(comment)) => {
                proof {
                    lemma_views_push(comments@, comment);
                }
                comments.push(comment);
            },
            None => {},
        }
        i += 1;
    }
    assert(lines@.take(lines.len() as int) =~= lines@);
    (grades, comments)
}

} // verus!
