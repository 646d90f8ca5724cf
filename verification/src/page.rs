//! Listing the submissions of an assignment page by page: what to ask for
//! next, and what to make of each answer. The asking itself is the caller's.

use crate::config::{submissions_url, Config, ConfigView};
use crate::model::{lemma_views_add, views};
use crate::submission::{Submission, SubmissionView};
use crate::text::{chars_of, decimal, decimal_text, find, occurs};
use vstd::prelude::*;
use vstd::string::StringExecFns;

verus! {

/// Why a listing came to nothing.
#[derive(Debug, PartialEq, Eq)]
pub enum FetchError {
    /// The request could not be sent, or its answer could not be read.
    Transport { cause: String },
    /// The body of an answer is no JSON text.
    InvalidJson { cause: String },
    /// The body of an answer is JSON but not a list of submissions.
    /// `raw_value` shows the value that was sent instead.
    Decode { raw_value: String, cause: String },
    /// The `Link` header of an answer is no text.
    UnreadableLink,
    /// There is no number left for the next page.
    TooManyPages,
}

/// What a `FetchError` holds.
pub enum FetchErrorView {
    Transport { cause: Seq<char> },
    InvalidJson { cause: Seq<char> },
    Decode { raw_value: Seq<char>, cause: Seq<char> },
    UnreadableLink,
    TooManyPages,
}

impl View for FetchError {
    type V = FetchErrorView;

    open spec fn view(&self) -> FetchErrorView {
        match self {
            FetchError::Transport { cause } => FetchErrorView::Transport { cause: cause@ },
            FetchError::InvalidJson { cause } => FetchErrorView::InvalidJson { cause: cause@ },
            FetchError::Decode { raw_value, cause } => FetchErrorView::Decode {
                raw_value: raw_value@,
                cause: cause@,
            },
            FetchError::UnreadableLink => FetchErrorView::UnreadableLink,
            FetchError::TooManyPages => FetchErrorView::TooManyPages,
        }
    }
}

impl FetchErrorView {
    pub open spec fn text(self) -> Seq<char> {
        match self {
            FetchErrorView::Transport { cause } => cause,
            FetchErrorView::InvalidJson { cause } => "Failed to parse invalid JSON body.: "@ + cause,
            FetchErrorView::Decode { raw_value, cause } => "Unable to parse response to data type: "@
                + raw_value + ": "@ + cause,
            FetchErrorView::UnreadableLink => "Failed to stringify link header"@,
            FetchErrorView::TooManyPages => "Failed to count the pages any further"@,
        }
    }
}

impl FetchError {
    /// The error in words, with the value that was sent where the error has it.
    pub fn message(&self) -> (r: String)
        ensures
            r@ == self@.text(),
    {
        match self {
            FetchError::Transport { cause } => cause.clone(),
            FetchError::InvalidJson { cause } => {
                let mut out = "Failed to parse invalid JSON body.: ".to_owned();
                out.append(cause.as_str());
                out
            },
            FetchError::Decode { raw_value, cause } => {
                let mut out = "Unable to parse response to data type: ".to_owned();
                out.append(raw_value.as_str());
                out.append(": ");
                out.append(cause.as_str());
                out
            },
            FetchError::UnreadableLink => "Failed to stringify link header".to_owned(),
            FetchError::TooManyPages => "Failed to count the pages any further".to_owned(),
        }
    }
}

/// What comes of reading `body` as JSON without regard to its shape: the
/// value in the words of its `Debug` form, one item to a line, or the
/// parser's complaint. This is what `serde_json::from_str` makes of the text.
pub uninterp spec fn json_outcome(body: Seq<char>) -> Result<Seq<char>, Seq<char>>;

/// Reads `body` with `serde_json::from_str` as a `serde_json::Value` and
/// writes the value out with `{:#?}`, or the error with `to_string`. The
/// contract claims that this is `json_outcome` of the text: the parser reads
/// nothing but the text, so the same text always comes out the same.
#[verifier::external_body]
fn parse_json(body: &str) -> (r: Result<String, String>)
    ensures
        raw_view(r) == json_outcome(body@),
{
    match serde_json::from_str::<serde_json::Value>(body) {
        Ok(value) => Ok(format!("{:#?}", value)),
        Err(error) => Err(error.to_string()),
    }
}

/// The outcome of reading a body as JSON, by what it holds.
pub open spec fn raw_view(raw: Result<String, String>) -> Result<Seq<char>, Seq<char>> {
    match raw {
        Ok(value) => Ok(value@),
        Err(cause) => Err(cause@),
    }
}

/// The outcome of reading a body as a value of the shape that is wanted:
/// the value as it is, or the reader's complaint by what it holds.
pub open spec fn typed_view<T>(typed: Result<T, String>) -> Result<T, Seq<char>> {
    match typed {
        Ok(value) => Ok(value),
        Err(cause) => Err(cause@),
    }
}

/// A value or the error in its place: the value as it is, the error by what
/// it holds.
pub open spec fn outcome_view<T>(outcome: Result<T, FetchError>) -> Result<T, FetchErrorView> {
    match outcome {
        Ok(value) => Ok(value),
        Err(error) => Err(error@),
    }
}

/// The records of a page or the error in their place, by what they hold.
pub open spec fn decoded_view(decoded: Result<Vec<Submission>, FetchError>) -> Result<
    Seq<SubmissionView>,
    FetchErrorView,
> {
    match decoded {
        Ok(records) => Ok(views(records@)),
        Err(error) => Err(error@),
    }
}

/// A `Link` header, by what it holds.
pub open spec fn link_view(link: Option<Vec<u8>>) -> Option<Seq<u8>> {
    match link {
        Some(bytes) => Some(bytes@),
        None => None,
    }
}

/// What the two readings of a body give together: `raw` is what came of
/// reading it as JSON of any shape, `typed` what came of reading it as a
/// value of the shape that is wanted. A body that is no JSON is an error
/// whatever the second reading says. A body that is JSON of another shape is
/// an error that shows the value that was there. Else the value stands.
pub open spec fn decoded<T>(raw: Result<Seq<char>, Seq<char>>, typed: Result<T, Seq<char>>) -> Result<
    T,
    FetchErrorView,
> {
    match raw {
        Err(cause) => Err(FetchErrorView::InvalidJson { cause }),
        Ok(raw_value) => match typed {
            Err(cause) => Err(FetchErrorView::Decode { raw_value, cause }),
            Ok(value) => Ok(value),
        },
    }
}

/// Puts the two readings of a body together: `raw` is what came of reading
/// it as JSON of any shape, `typed` what came of reading it as a value of
/// the shape that is wanted.
pub fn decode_outcome<T>(raw: Result<String, String>, typed: Result<T, String>) -> (r: Result<
    T,
    FetchError,
>)
    ensures
        outcome_view(r) == decoded(raw_view(raw), typed_view(typed)),
{
    match raw {
        Err(cause) => Err(FetchError::InvalidJson { cause }),
        Ok(raw_value) => match typed {
            Err(cause) => Err(FetchError::Decode { raw_value, cause }),
            Ok(value) => Ok(value),
        },
    }
}

/// Reads `body` as JSON of any shape and puts that together with `typed`,
/// which is what came of reading the same body as a value of the shape that
/// is wanted.
pub fn decode<T>(body: &str, typed: Result<T, String>) -> (r: Result<T, FetchError>)
    ensures
        outcome_view(r) == decoded(json_outcome(body@), typed_view(typed)),
{
    decode_outcome(parse_json(body), typed)
}

/// Whether `byte` is a printable ASCII character, a space or a tab.
pub open spec fn is_visible_ascii(byte: u8) -> bool {
    (32 <= byte && byte < 127) || byte == 9
}

/// Whether a header value is text: made of visible ASCII only.
pub open spec fn readable(value: Seq<u8>) -> bool {
    forall|i: int| 0 <= i < value.len() ==> is_visible_ascii(#[trigger] value[i])
}

/// A header value as text, byte for byte.
pub open spec fn header_text(value: Seq<u8>) -> Seq<char> {
    value.map_values(|byte: u8| byte as char)
}

/// The word by which a `Link` header promises a further page.
pub open spec fn next_word() -> Seq<char> {
    seq!['n', 'e', 'x', 't']
}

/// Whether a further page is to be asked for: there is one exactly where the
/// answer has a `Link` header whose text holds the word `next`. An answer
/// without that header promises no further page, so the listing ends with
/// it. A header that is there but is no text is an error.
pub open spec fn more_pages(link: Option<Seq<u8>>) -> Result<bool, FetchErrorView> {
    match link {
        None => Ok(false),
        Some(value) => if readable(value) {
            Ok(occurs(header_text(value), next_word()))
        } else {
            Err(FetchErrorView::UnreadableLink)
        },
    }
}

/// Tells from the `Link` header of an answer whether a further page is to
/// be asked for.
pub fn next_page_exists(link: &Option<Vec<u8>>) -> (r: Result<bool, FetchError>)
    ensures
        match r {
            Ok(more) => more_pages(link_view(*link)) == Ok::<bool, FetchErrorView>(more),
            Err(error) => more_pages(link_view(*link)) == Err::<bool, FetchErrorView>(error@),
        },
{
    match link {
        None => Ok(false),
        Some(value) => {
            let mut text: Vec<char> = Vec::new();
            let mut i: usize = 0;
            while i < value.len()
                invariant
                    i <= value.len(),
                    *link == Some(*value),
                    text@ == header_text(value@.take(i as int)),
                    readable(value@.take(i as int)),
                decreases value.len() - i,
            {
                let byte = value[i];
                if !((32 <= byte && byte < 127) || byte == 9) {
                    assert(!is_visible_ascii(value@[i as int]));
                    return Err(FetchError::UnreadableLink);
                }
                text.push(byte as char);
                proof {
                    let seen = value@.take(i as int);
                    let next = value@.take(i + 1);
                    assert(next =~= seen.push(byte));
                    assert(header_text(next) =~= header_text(seen).push(byte as char));
                }
                i += 1;
            }
            assert(value@.take(value.len() as int) =~= value@);
            let mut word: Vec<char> = Vec::new();
            word.push('n');
            word.push('e');
            word.push('x');
            word.push('t');
            assert(word@ =~= next_word());
            match find(text.as_slice(), word.as_slice()) {
                Some(_) => Ok(true),
                None => Ok(false),
            }
        },
    }
}

/// One header of an answer: its name, and its value as it came.
#[derive(Debug, PartialEq, Eq)]
pub struct Header {
    pub name: String,
    pub value: Vec<u8>,
}

/// What a `Header` holds.
pub struct HeaderView {
    pub name: Seq<char>,
    pub value: Seq<u8>,
}

impl View for Header {
    type V = HeaderView;

    open spec fn view(&self) -> HeaderView {
        HeaderView { name: self.name@, value: self.value@ }
    }
}

/// Whether `name` is the name `Link`. The names of headers do not differ by
/// the case of their letters.
pub open spec fn is_link_name(name: Seq<char>) -> bool {
    &&& name.len() == 4
    &&& (name[0] == 'l' || name[0] == 'L')
    &&& (name[1] == 'i' || name[1] == 'I')
    &&& (name[2] == 'n' || name[2] == 'N')
    &&& (name[3] == 'k' || name[3] == 'K')
}

/// The value of the first `Link` header among `headers`, if there is one.
pub open spec fn link_of(headers: Seq<HeaderView>) -> Option<Seq<u8>>
    decreases headers.len(),
{
    if headers.len() == 0 {
        None
    } else if is_link_name(headers[0].name) {
        Some(headers[0].value)
    } else {
        link_of(headers.drop_first())
    }
}

/// Where no header before `at` is a `Link` header, the first `Link` header
/// is the first one from `at` on.
pub proof fn lemma_link_of_skip(headers: Seq<HeaderView>, at: int)
    requires
        0 <= at <= headers.len(),
        forall|i: int| 0 <= i < at ==> !is_link_name(#[trigger] headers[i].name),
    ensures
        link_of(headers) == link_of(headers.skip(at)),
    decreases at,
{
    if at > 0 {
        let rest = headers.drop_first();
        assert forall|i: int| 0 <= i < at - 1 implies !is_link_name(#[trigger] rest[i].name) by {
            assert(rest[i] == headers[i + 1]);
        }
        lemma_link_of_skip(rest, at - 1);
        assert(rest.skip(at - 1) =~= headers.skip(at));
        assert(!is_link_name(headers[0].name));
    } else {
        assert(headers.skip(0) =~= headers);
    }
}

/// Tells whether `name` is the name `Link`.
fn names_link(name: &str) -> (r: bool)
    ensures
        r == is_link_name(name@),
{
    let chars = chars_of(name);
    chars.len() == 4 && (chars[0] == 'l' || chars[0] == 'L') && (chars[1] == 'i' || chars[1] == 'I')
        && (chars[2] == 'n' || chars[2] == 'N') && (chars[3] == 'k' || chars[3] == 'K')
}

/// Takes the value of the first `Link` header out of the headers of an answer.
pub fn link_header(headers: Vec<Header>) -> (r: Option<Vec<u8>>)
    ensures
        link_view(r) == link_of(views(headers@)),
{
    let ghost all = views(headers@);
    let mut left = headers;
    let mut i: usize = 0;
    while i < left.len()
        invariant
            i <= left.len(),
            all == views(headers@),
            all == views(left@),
            forall|k: int| 0 <= k < i ==> !is_link_name(#[trigger] all[k].name),
        decreases left.len() - i,
    {
        if names_link(left[i].name.as_str()) {
            proof {
                lemma_link_of_skip(all, i as int);
                assert(all.skip(i as int)[0] == all[i as int]);
                assert(all[i as int] == left@[i as int]@);
            }
            let found = left.remove(i);
            return Some(found.value);
        }
        i += 1;
    }
    proof {
        lemma_link_of_skip(all, all.len() as int);
        assert(all.skip(all.len() as int) =~= Seq::<HeaderView>::empty());
    }
    None
}

/// How far a listing has come.
#[derive(Debug)]
pub struct Paginator {
    url: String,
    page: u64,
    records: Vec<Submission>,
}

/// What a `Paginator` holds.
pub struct PaginatorView {
    /// The address that every page is asked of.
    pub url: Seq<char>,
    /// The number of the page to ask for next. The first page is page 1.
    pub page: u64,
    /// The records of the pages so far, page after page.
    pub records: Seq<SubmissionView>,
}

impl View for Paginator {
    type V = PaginatorView;

    closed spec fn view(&self) -> PaginatorView {
        PaginatorView { url: self.url@, page: self.page, records: views(self.records@) }
    }
}

/// A request for one page.
#[derive(Debug, PartialEq, Eq)]
pub struct PageRequest {
    pub url: String,
    /// The query: names and values, in the order in which they are sent.
    pub query: Vec<(String, String)>,
}

/// The query that asks for page `page`: submitted work only, and the page.
pub open spec fn query_of(page: u64) -> Seq<(Seq<char>, Seq<char>)> {
    seq![("workflow_state"@, "submitted"@), ("page"@, decimal(page as nat))]
}

/// A query, by what it holds.
pub open spec fn query_view(query: Seq<(String, String)>) -> Seq<(Seq<char>, Seq<char>)> {
    query.map_values(|pair: (String, String)| (pair.0@, pair.1@))
}

/// The answer to a request for one page.
#[derive(Debug)]
pub struct Page {
    /// The body as it came.
    pub body: String,
    /// What came of reading the body as a list of submissions: the list, or
    /// the reader's complaint.
    pub typed: Result<Vec<Submission>, String>,
    /// The headers of the answer. Where a name comes more than once, its
    /// values stand in the order in which they came.
    pub headers: Vec<Header>,
}

/// What has become of a listing after an answer.
#[derive(Debug)]
pub enum Progress {
    /// A further page is to be asked for.
    More(Paginator),
    /// The listing is complete: these are its records.
    Done(Vec<Submission>),
    /// The listing has failed. The records so far are lost.
    Failed(FetchError),
}

/// What a `Progress` holds.
pub enum ProgressView {
    More(PaginatorView),
    Done(Seq<SubmissionView>),
    Failed(FetchErrorView),
}

impl View for Progress {
    type V = ProgressView;

    open spec fn view(&self) -> ProgressView {
        match self {
            Progress::More(paginator) => ProgressView::More(paginator@),
            Progress::Done(records) => ProgressView::Done(views(records@)),
            Progress::Failed(error) => ProgressView::Failed(error@),
        }
    }
}

/// What becomes of a listing in state `state` when the records `decoded`
/// arrive under the `Link` header `link`. An error ends it. Else the records
/// are added behind those that are there, and the header decides whether
/// the listing is complete or goes on with the page after this one.
pub open spec fn turned(
    state: PaginatorView,
    decoded: Result<Seq<SubmissionView>, FetchErrorView>,
    link: Option<Seq<u8>>,
) -> ProgressView {
    match decoded {
        Err(error) => ProgressView::Failed(error),
        Ok(records) => match more_pages(link) {
            Err(error) => ProgressView::Failed(error),
            Ok(more) => if !more {
                ProgressView::Done(state.records + records)
            } else if state.page == u64::MAX {
                ProgressView::Failed(FetchErrorView::TooManyPages)
            } else {
                ProgressView::More(
                    PaginatorView {
                        url: state.url,
                        page: (state.page + 1) as u64,
                        records: state.records + records,
                    },
                )
            },
        },
    }
}

/// An answer or the failure to get one, by what it holds.
pub enum AnswerView {
    Failed { cause: Seq<char> },
    Fetched {
        body: Seq<char>,
        typed: Result<Seq<SubmissionView>, Seq<char>>,
        headers: Seq<HeaderView>,
    },
}

/// What the caller hands back after a request, by what it holds.
pub open spec fn answer_view(answer: Result<Page, String>) -> AnswerView {
    match answer {
        Err(cause) => AnswerView::Failed { cause: cause@ },
        Ok(page) => AnswerView::Fetched {
            body: page.body@,
            typed: match page.typed {
                Ok(records) => Ok(views(records@)),
                Err(cause) => Err(cause@),
            },
            headers: views(page.headers@),
        },
    }
}

/// What becomes of a listing in state `state` when `answer` comes back.
pub open spec fn advanced(state: PaginatorView, answer: AnswerView) -> ProgressView {
    match answer {
        AnswerView::Failed { cause } => ProgressView::Failed(FetchErrorView::Transport { cause }),
        AnswerView::Fetched { body, typed, headers } => turned(
            state,
            decoded(json_outcome(body), typed),
            link_of(headers),
        ),
    }
}

impl Paginator {
    /// The start of a listing of the submissions of `assignment_id`.
    pub fn new(assignment_id: u64, config: &Config) -> (r: Paginator)
        ensures
            r@ == listing_start(config@, assignment_id),
    {
        Paginator::starting_at(assignment_id, config, 1)
    }

    /// A listing of the submissions of `assignment_id` that leaves out the
    /// pages before `page`.
    pub fn starting_at(assignment_id: u64, config: &Config, page: u64) -> (r: Paginator)
        ensures
            r@ == (PaginatorView {
                url: submissions_url(config@.base_url, config@.course_id, assignment_id),
                page,
                records: Seq::empty(),
            }),
    {
        let records: Vec<Submission> = Vec::new();
        assert(views(records@) =~= Seq::<SubmissionView>::empty());
        Paginator { url: config.submissions_url(assignment_id), page, records }
    }

    /// The number of the page to ask for next.
    pub fn page(&self) -> (r: u64)
        ensures
            r == self@.page,
    {
        self.page
    }

    /// The request for the next page.
    pub fn request(&self) -> (r: PageRequest)
        ensures
            r.url@ == self@.url,
            query_view(r.query@) == query_of(self@.page),
    {
        let mut query: Vec<(String, String)> = Vec::new();
        query.push(("workflow_state".to_owned(), "submitted".to_owned()));
        query.push(("page".to_owned(), decimal_text(self.page)));
        assert(query_view(query@) =~= query_of(self.page));
        PageRequest { url: self.url.clone(), query }
    }

    /// Takes in the records of a page, or the error that came in their
    /// place, and the `Link` header that they came under.
    pub fn turn(self, decoded: Result<Vec<Submission>, FetchError>, link: &Option<Vec<u8>>) -> (r:
        Progress)
        ensures
            r@ == turned(self@, decoded_view(decoded), link_view(*link)),
    {
        let mut records = match decoded {
            Err(error) => {
                return Progress::Failed(error);
            },
            Ok(records) => records,
        };
        let more = match next_page_exists(link) {
            Err(error) => {
                return Progress::Failed(error);
            },
            Ok(more) => more,
        };
        let mut all = self.records;
        proof {
            lemma_views_add(all@, records@);
        }
        all.append(&mut records);
        if !more {
            Progress::Done(all)
        } else if self.page == u64::MAX {
            Progress::Failed(FetchError::TooManyPages)
        } else {
            Progress::More(Paginator { url: self.url, page: self.page + 1, records: all })
        }
    }

    /// Takes in what came back after the request for the next page: the
    /// answer, or the reason why there is none.
    pub fn advance(self, answer: Result<Page, String>) -> (r: Progress)
        ensures
            r@ == advanced(self@, answer_view(answer)),
    {
        match answer {
            Err(cause) => Progress::Failed(FetchError::Transport { cause }),
            Ok(page) => {
                let decoded = decode(page.body.as_str(), page.typed);
                let link = link_header(page.headers);
                self.turn(decoded, &link)
            },
        }
    }
}

impl Submission {
    /// Begins the listing of all the submissions of `assignment_id`: the
    /// first page is asked for first, and no record is there yet. The caller
    /// sends each request and hands each answer to `Paginator::advance`; the
    /// records that the listing ends with are those of all the pages, page
    /// after page, as they came.
    pub fn assignment_submissions(assignment_id: u64, config: &Config) -> (r: Paginator)
        ensures
            r@ == listing_start(config@, assignment_id),
    {
        Paginator::new(assignment_id, config)
    }
}

/// The state in which the listing of the submissions of `assignment_id`
/// begins.
pub open spec fn listing_start(config: ConfigView, assignment_id: u64) -> PaginatorView {
    PaginatorView {
        url: submissions_url(config.base_url, config.course_id, assignment_id),
        page: 1,
        records: Seq::empty(),
    }
}

/// The records of `pages`, page after page.
pub open spec fn all_records(pages: Seq<(Seq<SubmissionView>, Option<Seq<u8>>)>) -> Seq<
    SubmissionView,
>
    decreases pages.len(),
{
    if pages.len() == 0 {
        Seq::empty()
    } else {
        pages[0].0 + all_records(pages.drop_first())
    }
}

/// What becomes of a listing in state `state` when the pages `pages` arrive
/// one after the other, each with its records and its `Link` header, for as
/// long as the listing goes on.
pub open spec fn run(state: PaginatorView, pages: Seq<(Seq<SubmissionView>, Option<Seq<u8>>)>) -> ProgressView
    decreases pages.len(),
{
    if pages.len() == 0 {
        ProgressView::More(state)
    } else {
        match turned(state, Ok(pages[0].0), pages[0].1) {
            ProgressView::More(next) => run(next, pages.drop_first()),
            ended => ended,
        }
    }
}

/// Where every page but the last promises a further one and the last does
/// not, the listing ends with the last page, and its records are those of
/// all the pages, page after page.
pub proof fn lemma_listing_collects_all_pages(
    state: PaginatorView,
    pages: Seq<(Seq<SubmissionView>, Option<Seq<u8>>)>,
)
    requires
        pages.len() > 0,
        forall|i: int| 0 <= i < pages.len() - 1 ==> more_pages(#[trigger] pages[i].1) == Ok::<bool, FetchErrorView>(true),
        more_pages(pages.last().1) == Ok::<bool, FetchErrorView>(false),
        state.page + pages.len() - 1 <= u64::MAX,
    ensures
        run(state, pages) == ProgressView::Done(state.records + all_records(pages)),
    decreases pages.len(),
{
    let rest = pages.drop_first();
    if pages.len() == 1 {
        assert(all_records(rest) =~= Seq::<SubmissionView>::empty());
        assert(pages[0] == pages.last());
        assert(state.records + all_records(pages) =~= state.records + pages[0].0);
    } else {
        assert(more_pages(pages[0].1) == Ok::<bool, FetchErrorView>(true));
        let next = PaginatorView {
            url: state.url,
            page: (state.page + 1) as u64,
            records: state.records + pages[0].0,
        };
        assert forall|i: int| 0 <= i < rest.len() - 1 implies more_pages(#[trigger] rest[i].1)
            == Ok::<bool, FetchErrorView>(true) by {
            assert(rest[i] == pages[i + 1]);
        }
        assert(rest.last() == pages.last());
        lemma_listing_collects_all_pages(next, rest);
        assert(next.records + all_records(rest) =~= state.records + all_records(pages));
    }
}

/// A listing ends on a page that promises no further one, and on no other:
/// while every page promises a further one, the listing is not complete.
pub proof fn lemma_listing_goes_on_while_next(
    state: PaginatorView,
    pages: Seq<(Seq<SubmissionView>, Option<Seq<u8>>)>,
)
    requires
        forall|i: int| 0 <= i < pages.len() ==> more_pages(#[trigger] pages[i].1) == Ok::<bool, FetchErrorView>(true),
    ensures
        !(run(state, pages) is Done),
        state.page + pages.len() <= u64::MAX ==> run(state, pages) == ProgressView::More(
            PaginatorView {
                url: state.url,
                page: (state.page + pages.len()) as u64,
                records: state.records + all_records(pages),
            },
        ),
    decreases pages.len(),
{
    if pages.len() == 0 {
        assert(state.records + all_records(pages) =~= state.records);
    } else {
        let rest = pages.drop_first();
        assert(more_pages(pages[0].1) == Ok::<bool, FetchErrorView>(true));
        if state.page < u64::MAX {
            let next = PaginatorView {
                url: state.url,
                page: (state.page + 1) as u64,
                records: state.records + pages[0].0,
            };
            assert forall|i: int| 0 <= i < rest.len() implies more_pages(#[trigger] rest[i].1)
                == Ok::<bool, FetchErrorView>(true) by {
                assert(rest[i] == pages[i + 1]);
            }
            lemma_listing_goes_on_while_next(next, rest);
            assert(next.records + all_records(rest) =~= state.records + all_records(pages));
        }
    }
}

/// An answer without a `Link` header ends the listing: its records are the
/// last, and no further page is asked for.
pub proof fn lemma_listing_ends_without_link(state: PaginatorView, records: Seq<SubmissionView>)
    ensures
        more_pages(None) == Ok::<bool, FetchErrorView>(false),
        turned(state, Ok(records), None) == ProgressView::Done(state.records + records),
{
}

/// A listing from its start: where every page but the last promises a
/// further one and the last does not, the listing ends after the last page
/// with exactly the records of all the pages, page after page, each once and
/// in the order in which it came.
pub proof fn lemma_listing_from_the_start(
    config: ConfigView,
    assignment_id: u64,
    pages: Seq<(Seq<SubmissionView>, Option<Seq<u8>>)>,
)
    requires
        0 < pages.len() <= u64::MAX,
        forall|i: int|
            0 <= i < pages.len() - 1 ==> more_pages(#[trigger] pages[i].1) == Ok::<
                bool,
                FetchErrorView,
            >(true),
        more_pages(pages.last().1) == Ok::<bool, FetchErrorView>(false),
    ensures
        run(listing_start(config, assignment_id), pages) == ProgressView::Done(all_records(pages)),
        forall|n: int|
            0 <= n < pages.len() ==> #[trigger] run(
                listing_start(config, assignment_id),
                pages.take(n),
            ) == ProgressView::More(
                PaginatorView {
                    url: listing_start(config, assignment_id).url,
                    page: (n + 1) as u64,
                    records: all_records(pages.take(n)),
                },
            ),
{
    let start = listing_start(config, assignment_id);
    lemma_listing_collects_all_pages(start, pages);
    assert(start.records + all_records(pages) =~= all_records(pages));
    assert forall|n: int| 0 <= n < pages.len() implies #[trigger] run(start, pages.take(n))
        == ProgressView::More(
        PaginatorView {
            url: start.url,
            page: (n + 1) as u64,
            records: all_records(pages.take(n)),
        },
    ) by {
        let seen = pages.take(n);
        assert forall|i: int| 0 <= i < seen.len() implies more_pages(#[trigger] seen[i].1) == Ok::<
            bool,
            FetchErrorView,
        >(true) by {
            assert(seen[i] == pages[i]);
        }
        lemma_listing_goes_on_while_next(start, seen);
        assert(start.records + all_records(seen) =~= all_records(seen));
    }
}

} // verus!
