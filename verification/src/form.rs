//! The form in which grades and comments are sent: one flat mapping from
//! keys to values, with one entry to a key.

use crate::grade::{Comment, CommentView, Grade};
use crate::model::views;
use crate::submission::Score;
use crate::text::{
    decimal, is_digit, lemma_cut_unique, lemma_decimal_digits, lemma_decimal_injective, push_decimal,
};
use vstd::prelude::*;
use vstd::string::StringExecFns;

verus! {

/// What a form entry sets for its user.
#[derive(Debug, Clone, Copy, PartialEq, Eq, Structural)]
pub enum Field {
    PostedGrade,
    TextComment,
}

/// The key of a form entry: a user and what is set for that user. A grade
/// and a comment for one user have different keys, so either may be there
/// without the other.
#[derive(Debug, Clone, Copy, PartialEq, Eq, Structural)]
pub struct FormKey {
    pub user_id: u64,
    pub field: Field,
}

impl Field {
    /// The end of a key for this field, from the bracket that closes the user.
    pub open spec fn suffix(self) -> Seq<char> {
        match self {
            Field::PostedGrade => "][posted_grade]"@,
            Field::TextComment => "][text_comment]"@,
        }
    }
}

impl FormKey {
    /// The key as it is written in the form: `grade_data[<user>][posted_grade]`
    /// for a grade and `grade_data[<user>][text_comment]` for a comment, the
    /// user in decimal notation.
    pub open spec fn text(self) -> Seq<char> {
        "grade_data["@ + decimal(self.user_id as nat) + self.field.suffix()
    }

    /// Writes the key as it stands in the form.
    pub fn to_string(&self) -> (r: String)
        ensures
            r@ == self.text(),
    {
        let mut out = "grade_data[".to_owned();
        push_decimal(&mut out, self.user_id);
        match self.field {
            Field::PostedGrade => out.append("][posted_grade]"),
            Field::TextComment => out.append("][text_comment]"),
        }
        out
    }
}

/// Keys that are written alike are the same key.
pub proof fn lemma_key_text_injective(a: FormKey, b: FormKey)
    requires
        a.text() == b.text(),
    ensures
        a == b,
{
    reveal_strlit("grade_data[");
    reveal_strlit("][posted_grade]");
    reveal_strlit("][text_comment]");
    let head = "grade_data["@;
    let number_a = decimal(a.user_id as nat);
    let number_b = decimal(b.user_id as nat);
    let tail_a = a.field.suffix().skip(1);
    let tail_b = b.field.suffix().skip(1);
    assert(a.field.suffix() =~= seq![']'] + tail_a);
    assert(b.field.suffix() =~= seq![']'] + tail_b);
    assert(a.text().skip(head.len() as int) =~= number_a + seq![']'] + tail_a);
    assert(b.text().skip(head.len() as int) =~= number_b + seq![']'] + tail_b);
    lemma_decimal_digits(a.user_id as nat);
    lemma_decimal_digits(b.user_id as nat);
    assert(!is_digit(']'));
    lemma_cut_unique(number_a, tail_a, number_b, tail_b, ']');
    lemma_decimal_injective(a.user_id as nat, b.user_id as nat);
    assert(tail_a[1] == tail_b[1]);
}

/// The value of a form entry. A grade is kept as a number: the one who
/// sends the form writes it out.
#[derive(Debug, PartialEq, Eq)]
pub enum FormValue {
    Grade(Score),
    Comment(String),
}

/// What a `FormValue` holds.
pub enum FormValueView {
    Grade(Score),
    Comment(Seq<char>),
}

impl View for FormValue {
    type V = FormValueView;

    open spec fn view(&self) -> FormValueView {
        match self {
            FormValue::Grade(score) => FormValueView::Grade(*score),
            FormValue::Comment(text) => FormValueView::Comment(text@),
        }
    }
}

/// The entries of `entries`, each value by what it holds.
pub open spec fn entry_views(entries: Seq<(FormKey, FormValue)>) -> Seq<(FormKey, FormValueView)> {
    entries.map_values(|entry: (FormKey, FormValue)| (entry.0, entry.1@))
}

/// The mapping that a list of entries stands for. Where a key comes twice,
/// the later entry counts.
pub open spec fn entries_map(entries: Seq<(FormKey, FormValueView)>) -> Map<FormKey, FormValueView>
    decreases entries.len(),
{
    if entries.len() == 0 {
        Map::empty()
    } else {
        entries_map(entries.drop_last()).insert(entries.last().0, entries.last().1)
    }
}

/// Whether no key comes twice in `entries`.
pub open spec fn distinct_keys(entries: Seq<(FormKey, FormValueView)>) -> bool {
    forall|i: int, j: int| 0 <= i < j < entries.len() ==> entries[i].0 != entries[j].0
}

/// Where no key comes twice, none comes twice among all but the last entry.
pub proof fn lemma_distinct_keys_drop_last(entries: Seq<(FormKey, FormValueView)>)
    requires
        distinct_keys(entries),
        entries.len() > 0,
    ensures
        distinct_keys(entries.drop_last()),
{
    let before = entries.drop_last();
    assert forall|i: int, j: int| 0 <= i < j < before.len() implies before[i].0 != before[j].0 by {
        assert(entries[i].0 != entries[j].0);
    }
}

/// The keys of the mapping are the keys of the entries.
pub proof fn lemma_entries_map_dom(entries: Seq<(FormKey, FormValueView)>, key: FormKey)
    ensures
        entries_map(entries).dom().contains(key) <==> exists|i: int|
            0 <= i < entries.len() && entries[i].0 == key,
    decreases entries.len(),
{
    if entries.len() > 0 {
        let before = entries.drop_last();
        lemma_entries_map_dom(before, key);
        if entries_map(entries).dom().contains(key) {
            if entries.last().0 == key {
                assert(entries[entries.len() - 1].0 == key);
            } else {
                let i = choose|i: int| 0 <= i < before.len() && before[i].0 == key;
                assert(entries[i].0 == key);
            }
        }
        if exists|i: int| 0 <= i < entries.len() && entries[i].0 == key {
            let i = choose|i: int| 0 <= i < entries.len() && entries[i].0 == key;
            if i < entries.len() - 1 {
                assert(before[i].0 == key);
            }
        }
    }
}

/// Where no key comes twice, the mapping gives each key the value of its entry.
pub proof fn lemma_entries_map_value(entries: Seq<(FormKey, FormValueView)>, at: int)
    requires
        distinct_keys(entries),
        0 <= at < entries.len(),
    ensures
        entries_map(entries).dom().contains(entries[at].0),
        entries_map(entries)[entries[at].0] == entries[at].1,
    decreases entries.len(),
{
    if at < entries.len() - 1 {
        let before = entries.drop_last();
        lemma_distinct_keys_drop_last(entries);
        lemma_entries_map_value(before, at);
        assert(entries[at].0 != entries[entries.len() - 1].0);
    }
}

/// Where no key comes twice, putting a new value in the place of an entry
/// is the same as setting its key in the mapping, and still no key comes twice.
pub proof fn lemma_entries_map_update(
    entries: Seq<(FormKey, FormValueView)>,
    at: int,
    value: FormValueView,
)
    requires
        distinct_keys(entries),
        0 <= at < entries.len(),
    ensures
        distinct_keys(entries.update(at, (entries[at].0, value))),
        entries_map(entries.update(at, (entries[at].0, value))) == entries_map(entries).insert(
            entries[at].0,
            value,
        ),
    decreases entries.len(),
{
    let key = entries[at].0;
    let changed = entries.update(at, (key, value));
    assert(distinct_keys(changed)) by {
        assert forall|i: int, j: int| 0 <= i < j < changed.len() implies changed[i].0
            != changed[j].0 by {
            assert(entries[i].0 != entries[j].0);
        }
    }
    let before = entries.drop_last();
    if at == entries.len() - 1 {
        assert(changed.drop_last() =~= before);
        assert(entries_map(changed) =~= entries_map(entries).insert(key, value));
    } else {
        lemma_distinct_keys_drop_last(entries);
        lemma_entries_map_update(before, at, value);
        assert(changed.drop_last() =~= before.update(at, (key, value)));
        assert(entries[at].0 != entries[entries.len() - 1].0);
        assert(entries_map(changed) =~= entries_map(entries).insert(key, value));
    }
}

/// The form with a grade set for each user of `grades`, the later grade
/// where a user has two.
pub open spec fn with_grades(form: Map<FormKey, FormValueView>, grades: Seq<Grade>) -> Map<
    FormKey,
    FormValueView,
>
    decreases grades.len(),
{
    if grades.len() == 0 {
        form
    } else {
        with_grades(form, grades.drop_last()).insert(
            FormKey { user_id: grades.last().user_id, field: Field::PostedGrade },
            FormValueView::Grade(grades.last().grade),
        )
    }
}

/// The form with a comment set for each user of `comments`, the later
/// comment where a user has two.
pub open spec fn with_comments(form: Map<FormKey, FormValueView>, comments: Seq<CommentView>) -> Map<
    FormKey,
    FormValueView,
>
    decreases comments.len(),
{
    if comments.len() == 0 {
        form
    } else {
        with_comments(form, comments.drop_last()).insert(
            FormKey { user_id: comments.last().user_id, field: Field::TextComment },
            FormValueView::Comment(comments.last().comment),
        )
    }
}

/// The form that sends `grades` and `comments`: first the grades are set,
/// then the comments.
pub open spec fn form_of(grades: Seq<Grade>, comments: Seq<CommentView>) -> Map<
    FormKey,
    FormValueView,
> {
    with_comments(with_grades(Map::empty(), grades), comments)
}

/// Whether `grades` holds a grade for `user_id`.
pub open spec fn has_grade(grades: Seq<Grade>, user_id: u64) -> bool {
    exists|i: int| 0 <= i < grades.len() && grades[i].user_id == user_id
}

/// Whether `comments` holds a comment for `user_id`.
pub open spec fn has_comment(comments: Seq<CommentView>, user_id: u64) -> bool {
    exists|i: int| 0 <= i < comments.len() && comments[i].user_id == user_id
}

/// Setting grades leaves the comments of a form as they are, and adds the
/// grade keys of the users that have a grade.
pub proof fn lemma_with_grades_keys(form: Map<FormKey, FormValueView>, grades: Seq<Grade>, key: FormKey)
    ensures
        with_grades(form, grades).dom().contains(key) <==> form.dom().contains(key) || (key.field
            == Field::PostedGrade && has_grade(grades, key.user_id)),
        key.field == Field::TextComment && form.dom().contains(key) ==> with_grades(form, grades)[key]
            == form[key],
    decreases grades.len(),
{
    if grades.len() > 0 {
        let before = grades.drop_last();
        lemma_with_grades_keys(form, before, key);
        if has_grade(before, key.user_id) {
            let i = choose|i: int| 0 <= i < before.len() && before[i].user_id == key.user_id;
            assert(grades[i].user_id == key.user_id);
        }
        if has_grade(grades, key.user_id) {
            let i = choose|i: int| 0 <= i < grades.len() && grades[i].user_id == key.user_id;
            if i < grades.len() - 1 {
                assert(before[i].user_id == key.user_id);
            }
        }
        assert(grades[grades.len() - 1] == grades.last());
    }
}

/// Setting comments leaves the grades of a form as they are, and adds the
/// comment keys of the users that have a comment.
pub proof fn lemma_with_comments_keys(
    form: Map<FormKey, FormValueView>,
    comments: Seq<CommentView>,
    key: FormKey,
)
    ensures
        with_comments(form, comments).dom().contains(key) <==> form.dom().contains(key) || (
        key.field == Field::TextComment && has_comment(comments, key.user_id)),
        key.field == Field::PostedGrade && form.dom().contains(key) ==> with_comments(
            form,
            comments,
        )[key] == form[key],
    decreases comments.len(),
{
    if comments.len() > 0 {
        let before = comments.drop_last();
        lemma_with_comments_keys(form, before, key);
        if has_comment(before, key.user_id) {
            let i = choose|i: int| 0 <= i < before.len() && before[i].user_id == key.user_id;
            assert(comments[i].user_id == key.user_id);
        }
        if has_comment(comments, key.user_id) {
            let i = choose|i: int| 0 <= i < comments.len() && comments[i].user_id == key.user_id;
            if i < comments.len() - 1 {
                assert(before[i].user_id == key.user_id);
            }
        }
        assert(comments[comments.len() - 1] == comments.last());
    }
}

/// The form holds a grade key for exactly the users with a grade and a
/// comment key for exactly the users with a comment, and no other key.
pub proof fn lemma_form_keys(grades: Seq<Grade>, comments: Seq<CommentView>, key: FormKey)
    ensures
        form_of(grades, comments).dom().contains(key) <==> match key.field {
            Field::PostedGrade => has_grade(grades, key.user_id),
            Field::TextComment => has_comment(comments, key.user_id),
        },
{
    lemma_with_grades_keys(Map::empty(), grades, key);
    lemma_with_comments_keys(with_grades(Map::empty(), grades), comments, key);
}

/// The grade that the form sends for a user is the last one that `grades`
/// holds for that user.
pub proof fn lemma_form_grade(grades: Seq<Grade>, comments: Seq<CommentView>, at: int)
    requires
        0 <= at < grades.len(),
        forall|later: int| at < later < grades.len() ==> grades[later].user_id != grades[at].user_id,
    ensures
        form_of(grades, comments).dom().contains(
            FormKey { user_id: grades[at].user_id, field: Field::PostedGrade },
        ),
        form_of(grades, comments)[FormKey { user_id: grades[at].user_id, field: Field::PostedGrade }]
            == FormValueView::Grade(grades[at].grade),
{
    let key = FormKey { user_id: grades[at].user_id, field: Field::PostedGrade };
    lemma_with_grades_last(Map::empty(), grades, at);
    lemma_with_comments_keys(with_grades(Map::empty(), grades), comments, key);
}

/// The comment that the form sends for a user is the last one that
/// `comments` holds for that user.
pub proof fn lemma_form_comment(grades: Seq<Grade>, comments: Seq<CommentView>, at: int)
    requires
        0 <= at < comments.len(),
        forall|later: int|
            at < later < comments.len() ==> comments[later].user_id != comments[at].user_id,
    ensures
        form_of(grades, comments).dom().contains(
            FormKey { user_id: comments[at].user_id, field: Field::TextComment },
        ),
        form_of(grades, comments)[FormKey { user_id: comments[at].user_id, field: Field::TextComment }]
            == FormValueView::Comment(comments[at].comment),
    decreases comments.len(),
{
    if at < comments.len() - 1 {
        let before = comments.drop_last();
        assert forall|later: int| at < later < before.len() implies before[later].user_id
            != before[at].user_id by {
            assert(comments[later].user_id != comments[at].user_id);
        }
        lemma_form_comment(grades, before, at);
        assert(comments[comments.len() - 1].user_id != comments[at].user_id);
    }
}

/// Among the grades set, the last one for a user counts.
proof fn lemma_with_grades_last(form: Map<FormKey, FormValueView>, grades: Seq<Grade>, at: int)
    requires
        0 <= at < grades.len(),
        forall|later: int| at < later < grades.len() ==> grades[later].user_id != grades[at].user_id,
    ensures
        with_grades(form, grades).dom().contains(
            FormKey { user_id: grades[at].user_id, field: Field::PostedGrade },
        ),
        with_grades(form, grades)[FormKey { user_id: grades[at].user_id, field: Field::PostedGrade }]
            == FormValueView::Grade(grades[at].grade),
    decreases grades.len(),
{
    if at < grades.len() - 1 {
        let before = grades.drop_last();
        assert forall|later: int| at < later < before.len() implies before[later].user_id
            != before[at].user_id by {
            assert(grades[later].user_id != grades[at].user_id);
        }
        lemma_with_grades_last(form, before, at);
        assert(grades[grades.len() - 1].user_id != grades[at].user_id);
    }
}

/// A form: entries of which no two have the same key.
#[derive(Debug)]
pub struct Form {
    entries: Vec<(FormKey, FormValue)>,
}

impl View for Form {
    type V = Map<FormKey, FormValueView>;

    closed spec fn view(&self) -> Map<FormKey, FormValueView> {
        entries_map(entry_views(self.entries@))
    }
}

impl Form {
    #[verifier::type_invariant]
    spec fn well_formed(&self) -> bool {
        distinct_keys(entry_views(self.entries@))
    }

    /// The form without an entry.
    pub fn new() -> (r: Form)
        ensures
            r@ == Map::<FormKey, FormValueView>::empty(),
    {
        let entries: Vec<(FormKey, FormValue)> = Vec::new();
        assert(entry_views(entries@) =~= Seq::<(FormKey, FormValueView)>::empty());
        Form { entries }
    }

    /// Where the entry for `key` stands, if there is one.
    fn position(&self, key: FormKey) -> (r: Option<usize>)
        ensures
            match r {
                Some(at) => at < self.entries@.len() && self.entries@[at as int].0 == key,
                None => forall|i: int| 0 <= i < self.entries@.len() ==> self.entries@[i].0 != key,
            },
    {
        let mut i: usize = 0;
        while i < self.entries.len()
            invariant
                i <= self.entries@.len(),
                forall|k: int| 0 <= k < i ==> self.entries@[k].0 != key,
            decreases self.entries.len() - i,
        {
            let found = &self.entries[i].0;
            if found.user_id == key.user_id && found.field == key.field {
                return Some(i);
            }
            i += 1;
        }
        None
    }

    /// Sets the value for `key`, in the place of an earlier one if there is one.
    pub fn insert(&mut self, key: FormKey, value: FormValue)
        ensures
            final(self)@ == old(self)@.insert(key, value@),
    {
        let found = self.position(key);
        let mut taken = Form::new();
        core::mem::swap(self, &mut taken);
        proof {
            use_type_invariant(&taken);
        }
        let mut entries = taken.entries;
        let ghost before = entry_views(entries@);
        match found {
            Some(at) => {
                proof {
                    lemma_entries_map_update(before, at as int, value@);
                }
                entries.set(at, (key, value));
                assert(entry_views(entries@) =~= before.update(at as int, (key, value@)));
            },
            None => {
                entries.push((key, value));
                proof {
                    let after = entry_views(entries@);
                    assert(after.drop_last() =~= before);
                    assert(after.last() == (key, value@));
                    assert forall|i: int, j: int| 0 <= i < j < after.len() implies after[i].0
                        != after[j].0 by {
                        if j < before.len() {
                            assert(before[i].0 != before[j].0);
                        } else {
                            assert(after[i].0 == old(self).entries@[i].0);
                        }
                    }
                }
            },
        }
        *self = Form { entries };
    }

    /// The value for `key`, if the form holds one.
    pub fn get(&self, key: FormKey) -> (r: Option<&FormValue>)
        ensures
            match r {
                Some(value) => self@.dom().contains(key) && self@[key] == value@,
                None => !self@.dom().contains(key),
            },
    {
        proof {
            use_type_invariant(self);
            lemma_entries_map_dom(entry_views(self.entries@), key);
        }
        match self.position(key) {
            Some(at) => {
                proof {
                    lemma_entries_map_value(entry_views(self.entries@), at as int);
                }
                Some(&self.entries[at].1)
            },
            None => {
                assert forall|i: int| 0 <= i < entry_views(self.entries@).len() implies entry_views(
                    self.entries@,
                )[i].0 != key by {
                    assert(self.entries@[i].0 != key);
                }
                None
            },
        }
    }

    /// How many entries the form holds.
    pub fn len(&self) -> (r: usize)
        ensures
            r == self@.dom().len(),
            self@.dom().finite(),
    {
        proof {
            use_type_invariant(self);
            lemma_entries_map_len(entry_views(self.entries@));
        }
        self.entries.len()
    }

    /// The entries, for sending: no key comes twice, and together they are
    /// the form.
    pub fn entries(&self) -> (r: &Vec<(FormKey, FormValue)>)
        ensures
            distinct_keys(entry_views(r@)),
            entries_map(entry_views(r@)) == self@,
    {
        proof {
            use_type_invariant(self);
        }
        &self.entries
    }

    /// The form that sends `grades` and `comments` in one request.
    pub fn encode(grades: &[Grade], comments: &[Comment]) -> (r: Form)
        ensures
            r@ == form_of(grades@, views(comments@)),
    {
        let mut form = Form::new();
        let mut i: usize = 0;
        assert(grades@.take(0) =~= Seq::<Grade>::empty());
        while i < grades.len()
            invariant
                i <= grades.len(),
                form@ == with_grades(Map::empty(), grades@.take(i as int)),
            decreases grades.len() - i,
        {
            assert(grades@.take(i + 1).drop_last() =~= grades@.take(i as int));
            let grade = grades[i];
            form.insert(
                FormKey { user_id: grade.user_id, field: Field::PostedGrade },
                FormValue::Grade(grade.grade),
            );
            i += 1;
        }
        assert(grades@.take(grades.len() as int) =~= grades@);
        let ghost graded = form@;
        let mut j: usize = 0;
        assert(views(comments@.take(0)) =~= Seq::<CommentView>::empty());
        while j < comments.len()
            invariant
                j <= comments.len(),
                graded == with_grades(Map::empty(), grades@),
                form@ == with_comments(graded, views(comments@.take(j as int))),
            decreases comments.len() - j,
        {
            assert(views(comments@.take(j + 1)).drop_last() =~= views(comments@.take(j as int)));
            assert(views(comments@.take(j + 1)).last() == comments@[j as int]@);
            let comment = &comments[j];
            form.insert(
                FormKey { user_id: comment.user_id, field: Field::TextComment },
                FormValue::Comment(comment.comment.clone()),
            );
            j += 1;
        }
        assert(comments@.take(comments.len() as int) =~= comments@);
        form
    }
}

/// Where no key comes twice, the mapping has as many keys as there are entries.
pub proof fn lemma_entries_map_len(entries: Seq<(FormKey, FormValueView)>)
    requires
        distinct_keys(entries),
    ensures
        entries_map(entries).dom().finite(),
        entries_map(entries).dom().len() == entries.len(),
    decreases entries.len(),
{
    if entries.len() > 0 {
        let before = entries.drop_last();
        lemma_distinct_keys_drop_last(entries);
        lemma_entries_map_len(before);
        lemma_entries_map_dom(before, entries.last().0);
        assert(!entries_map(before).dom().contains(entries.last().0)) by {
            if entries_map(before).dom().contains(entries.last().0) {
                let i = choose|i: int| 0 <= i < before.len() && before[i].0 == entries.last().0;
                assert(entries[i].0 != entries[entries.len() - 1].0);
            }
        }
    }
}

} // verus!
