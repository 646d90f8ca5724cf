use canvas_grading::page::{
    decode, decode_outcome, link_header, next_page_exists, FetchError, Header, Page, PageRequest,
    Paginator, Progress,
};
use canvas_grading::{AccessToken, Config, Submission, WorkflowState};

fn config() -> Config {
    Config {
        access_token: AccessToken::new(String::from("s3cr3t")),
        course_id: 12,
        base_url: String::from("https://lms.example"),
    }
}

fn submission(user: u64) -> Submission {
    Submission::new(user, 3, Some(1), None, None, WorkflowState::Submitted, false, Some(vec![]))
}

fn users(records: &[Submission]) -> Vec<u64> {
    records.iter().map(|s| s.user()).collect()
}

fn link(text: &str) -> Option<Vec<u8>> {
    Some(text.as_bytes().to_vec())
}

fn next_link() -> Option<Vec<u8>> {
    link("<https://lms.example/x?page=2>; rel=\"next\",<https://lms.example/x?page=1>; rel=\"first\"")
}

fn last_link() -> Option<Vec<u8>> {
    link("<https://lms.example/x?page=1>; rel=\"first\",<https://lms.example/x?page=9>; rel=\"last\"")
}

fn header(name: &str, value: &[u8]) -> Header {
    Header { name: String::from(name), value: value.to_vec() }
}

fn headers(link: Option<Vec<u8>>) -> Vec<Header> {
    let mut out = vec![header("content-type", b"application/json; charset=utf-8")];
    if let Some(value) = link {
        out.push(header("link", &value));
    }
    out.push(header("x-request-cost", b"next to nothing"));
    out
}

fn page(records: Vec<Submission>, link: Option<Vec<u8>>) -> Result<Page, String> {
    Ok(Page { body: String::from("[]"), typed: Ok(records), headers: headers(link) })
}

fn pair(key: &str, value: &str) -> (String, String) {
    (String::from(key), String::from(value))
}

#[test]
fn listing_starts_with_page_one() {
    let listing = Paginator::new(3, &config());
    assert_eq!(listing.page(), 1);
    assert_eq!(
        listing.request(),
        PageRequest {
            url: String::from("https://lms.example/api/v1/courses/12/assignments/3/submissions"),
            query: vec![pair("workflow_state", "submitted"), pair("page", "1")],
        }
    );
}

#[test]
fn listing_of_one_page_is_that_page() {
    let listing = Paginator::new(3, &config());
    match listing.advance(page(vec![submission(1), submission(2)], last_link())) {
        Progress::Done(records) => assert_eq!(users(&records), vec![1, 2]),
        other => panic!("{:?}", other),
    }
}

#[test]
fn listing_joins_all_pages_in_order() {
    let pages = vec![
        vec![submission(1), submission(2)],
        vec![],
        vec![submission(3)],
        vec![submission(4), submission(5), submission(6)],
    ];
    let count = pages.len();
    let mut listing = Paginator::new(3, &config());
    let mut asked = Vec::new();
    let mut result = None;
    for (i, records) in pages.into_iter().enumerate() {
        asked.push(listing.request().query[1].1.clone());
        let header = if i + 1 < count { next_link() } else { last_link() };
        match listing.advance(page(records, header)) {
            Progress::More(next) => {
                assert!(i + 1 < count);
                listing = next;
            },
            Progress::Done(records) => {
                assert_eq!(i + 1, count);
                result = Some(records);
                break;
            },
            Progress::Failed(error) => panic!("{:?}", error),
        }
    }
    assert_eq!(asked, vec!["1", "2", "3", "4"]);
    assert_eq!(users(&result.unwrap()), vec![1, 2, 3, 4, 5, 6]);
}

#[test]
fn listing_goes_on_for_as_long_as_next_is_promised() {
    let mut listing = Paginator::new(3, &config());
    for i in 0..50u64 {
        assert_eq!(listing.page(), i + 1);
        listing = match listing.advance(page(vec![submission(i)], next_link())) {
            Progress::More(next) => next,
            other => panic!("{:?}", other),
        };
    }
    assert_eq!(listing.page(), 51);
    match listing.advance(page(vec![], last_link())) {
        Progress::Done(records) => assert_eq!(users(&records), (0..50).collect::<Vec<u64>>()),
        other => panic!("{:?}", other),
    }
}

#[test]
fn failed_request_ends_the_listing() {
    let listing = Paginator::new(3, &config());
    let listing = match listing.advance(page(vec![submission(1)], next_link())) {
        Progress::More(next) => next,
        other => panic!("{:?}", other),
    };
    match listing.advance(Err(String::from("connection reset"))) {
        Progress::Failed(error) => {
            assert_eq!(error, FetchError::Transport { cause: String::from("connection reset") });
            assert_eq!(error.message(), "connection reset");
        },
        other => panic!("{:?}", other),
    }
}

#[test]
fn answer_without_link_header_completes_the_listing() {
    let listing = Submission::assignment_submissions(3, &config());
    match listing.advance(page(vec![submission(1), submission(2)], None)) {
        Progress::Done(records) => assert_eq!(users(&records), vec![1, 2]),
        other => panic!("{:?}", other),
    }
    let listing = Submission::assignment_submissions(3, &config());
    let answer = Page { body: String::from("[]"), typed: Ok(vec![submission(7)]), headers: vec![] };
    match listing.advance(Ok(answer)) {
        Progress::Done(records) => assert_eq!(users(&records), vec![7]),
        other => panic!("{:?}", other),
    }
}

#[test]
fn answer_without_link_header_ends_a_listing_of_several_pages() {
    let listing = Submission::assignment_submissions(3, &config());
    let listing = match listing.advance(page(vec![submission(1)], next_link())) {
        Progress::More(next) => next,
        other => panic!("{:?}", other),
    };
    assert_eq!(listing.page(), 2);
    match listing.advance(page(vec![submission(2), submission(3)], None)) {
        Progress::Done(records) => assert_eq!(users(&records), vec![1, 2, 3]),
        other => panic!("{:?}", other),
    }
}

#[test]
fn assignment_submissions_begins_with_page_one() {
    let listing = Submission::assignment_submissions(3, &config());
    assert_eq!(listing.page(), 1);
    assert_eq!(listing.request(), Paginator::new(3, &config()).request());
    assert_eq!(
        listing.request().url,
        "https://lms.example/api/v1/courses/12/assignments/3/submissions"
    );
}

#[test]
fn empty_page_that_promises_more_does_not_end_the_listing() {
    let listing = Submission::assignment_submissions(3, &config());
    let listing = match listing.advance(page(vec![], next_link())) {
        Progress::More(next) => next,
        other => panic!("{:?}", other),
    };
    assert_eq!(listing.page(), 2);
    match listing.advance(page(vec![submission(9)], last_link())) {
        Progress::Done(records) => assert_eq!(users(&records), vec![9]),
        other => panic!("{:?}", other),
    }
}

#[test]
fn link_header_that_is_no_text_ends_the_listing() {
    let listing = Paginator::new(3, &config());
    match listing.advance(page(vec![submission(1)], Some(vec![b'n', b'e', b'x', b't', 0xff]))) {
        Progress::Failed(error) => {
            assert_eq!(error, FetchError::UnreadableLink);
            assert_eq!(error.message(), "Failed to stringify link header");
        },
        other => panic!("{:?}", other),
    }
}

#[test]
fn body_that_is_no_json_ends_the_listing() {
    let listing = Paginator::new(3, &config());
    let answer = Page {
        body: String::from("<html>"),
        typed: Err(String::from("x")),
        headers: headers(next_link()),
    };
    match listing.advance(Ok(answer)) {
        Progress::Failed(FetchError::InvalidJson { cause }) => {
            assert_eq!(cause, "expected value at line 1 column 1");
        },
        other => panic!("{:?}", other),
    }
}

#[test]
fn decode_error_goes_before_the_link_header() {
    let listing = Paginator::new(3, &config());
    let answer =
        Page { body: String::from("{}"), typed: Err(String::from("no list")), headers: vec![] };
    match listing.advance(Ok(answer)) {
        Progress::Failed(FetchError::Decode { raw_value, cause }) => {
            assert_eq!(raw_value, "Object {}");
            assert_eq!(cause, "no list");
        },
        other => panic!("{:?}", other),
    }
}

#[test]
fn turn_takes_records_that_were_read_elsewhere() {
    let listing = Paginator::new(3, &config());
    let listing = match listing.turn(Ok(vec![submission(1)]), &next_link()) {
        Progress::More(next) => next,
        other => panic!("{:?}", other),
    };
    assert_eq!(listing.page(), 2);
    match listing.turn(Ok(vec![submission(2)]), &last_link()) {
        Progress::Done(records) => assert_eq!(users(&records), vec![1, 2]),
        other => panic!("{:?}", other),
    }
    let listing = Paginator::new(3, &config());
    match listing.turn(Err(FetchError::TooManyPages), &next_link()) {
        Progress::Failed(error) => {
            assert_eq!(error, FetchError::TooManyPages);
            assert_eq!(error.message(), "Failed to count the pages any further");
        },
        other => panic!("{:?}", other),
    }
}

#[test]
fn next_page_is_told_from_the_word_next() {
    assert_eq!(next_page_exists(&next_link()), Ok(true));
    assert_eq!(next_page_exists(&last_link()), Ok(false));
    assert_eq!(next_page_exists(&link("next")), Ok(true));
    assert_eq!(next_page_exists(&link("anextb")), Ok(true));
    assert_eq!(next_page_exists(&link("nex")), Ok(false));
    assert_eq!(next_page_exists(&link("NEXT")), Ok(false));
    assert_eq!(next_page_exists(&link("ne xt")), Ok(false));
    assert_eq!(next_page_exists(&link("")), Ok(false));
    assert_eq!(next_page_exists(&link("a\tnext")), Ok(true));
}

#[test]
fn next_page_needs_a_header_that_is_text() {
    assert_eq!(next_page_exists(&None), Ok(false));
    assert_eq!(next_page_exists(&Some(vec![b'a', 0x7f])), Err(FetchError::UnreadableLink));
    assert_eq!(next_page_exists(&Some(vec![b'\n'])), Err(FetchError::UnreadableLink));
    assert_eq!(next_page_exists(&Some(vec![0x1f, b'n', b'e', b'x', b't'])), Err(FetchError::UnreadableLink));
    assert_eq!(next_page_exists(&link("é next")), Err(FetchError::UnreadableLink));
    assert_eq!(next_page_exists(&Some(vec![b' ', b'~'])), Ok(false));
}

#[test]
fn decode_of_a_good_body_gives_the_records() {
    let records = decode("[{\"user_id\": 1}]", Ok(vec![submission(1)])).unwrap();
    assert_eq!(users(&records), vec![1]);
}

#[test]
fn decode_of_another_shape_shows_the_value() {
    let body = "{\"errors\": [{\"message\": \"user not authorized\"}], \"n\": 1.5}";
    let error = decode::<Vec<Submission>>(body, Err(String::from("invalid type: map, expected a sequence")))
        .unwrap_err();
    let raw_value = "Object {\n    \"errors\": Array [\n        Object {\n            \"message\": String(\"user not authorized\"),\n        },\n    ],\n    \"n\": Number(1.5),\n}";
    assert_ne!(raw_value, body);
    assert_eq!(
        error,
        FetchError::Decode {
            raw_value: String::from(raw_value),
            cause: String::from("invalid type: map, expected a sequence"),
        }
    );
    assert_eq!(
        error.message(),
        format!(
            "Unable to parse response to data type: {}: invalid type: map, expected a sequence",
            raw_value
        )
    );
}

#[test]
fn decode_of_no_json_is_an_error_whatever_the_second_reading_says() {
    let error = decode("[1, 2", Ok(vec![submission(1)])).unwrap_err();
    assert_eq!(
        error,
        FetchError::InvalidJson { cause: String::from("EOF while parsing a list at line 1 column 5") }
    );
    assert_eq!(
        error.message(),
        "Failed to parse invalid JSON body.: EOF while parsing a list at line 1 column 5"
    );
    assert!(decode::<u64>("", Err(String::from("x"))).is_err());
    assert_eq!(decode::<u64>("7", Ok(7)), Ok(7));
}

#[test]
fn decode_outcome_puts_two_readings_together() {
    let text = |s: &str| String::from(s);
    assert_eq!(decode_outcome(Ok(text("Array []")), Ok(vec![submission(4)])), Ok(vec![submission(4)]));
    assert_eq!(
        decode_outcome::<Vec<Submission>>(Ok(text("Null")), Err(text("no list"))),
        Err(FetchError::Decode { raw_value: text("Null"), cause: text("no list") })
    );
    assert_eq!(
        decode_outcome::<Vec<Submission>>(Err(text("bad")), Err(text("no list"))),
        Err(FetchError::InvalidJson { cause: text("bad") })
    );
    assert_eq!(
        decode_outcome::<Vec<Submission>>(Err(text("bad")), Ok(vec![])),
        Err(FetchError::InvalidJson { cause: text("bad") })
    );
}

#[test]
fn listing_fails_where_no_page_number_is_left() {
    let listing = Paginator::starting_at(3, &config(), u64::MAX - 1);
    assert_eq!(listing.request().query[1], pair("page", "18446744073709551614"));
    let listing = match listing.advance(page(vec![submission(1)], next_link())) {
        Progress::More(next) => next,
        other => panic!("{:?}", other),
    };
    assert_eq!(listing.page(), u64::MAX);
    match listing.advance(page(vec![submission(2)], next_link())) {
        Progress::Failed(error) => assert_eq!(error, FetchError::TooManyPages),
        other => panic!("{:?}", other),
    }
    let listing = Paginator::starting_at(3, &config(), u64::MAX);
    match listing.advance(page(vec![submission(2)], last_link())) {
        Progress::Done(records) => assert_eq!(users(&records), vec![2]),
        other => panic!("{:?}", other),
    }
}

#[test]
fn link_header_is_found_by_its_name() {
    assert_eq!(link_header(vec![]), None);
    assert_eq!(link_header(vec![header("content-type", b"a"), header("links", b"b")]), None);
    assert_eq!(link_header(vec![header("link", b"a")]), Some(b"a".to_vec()));
    assert_eq!(
        link_header(vec![header("date", b"today"), header("link", b"a"), header("etag", b"e")]),
        Some(b"a".to_vec())
    );
}

#[test]
fn link_header_is_the_first_of_its_name() {
    assert_eq!(
        link_header(vec![header("link", b"first"), header("link", b"second")]),
        Some(b"first".to_vec())
    );
}

#[test]
fn link_header_name_does_not_go_by_case() {
    for name in ["link", "Link", "LINK", "lInK"] {
        assert_eq!(link_header(vec![header(name, b"a")]), Some(b"a".to_vec()), "{}", name);
    }
    for name in ["", "lin", "linkk", " link", "link ", "l1nk", "ſink"] {
        assert_eq!(link_header(vec![header(name, b"a")]), None, "{}", name);
    }
}
