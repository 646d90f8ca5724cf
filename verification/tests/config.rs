use canvas_grading::config::{ClientHeader, ConfigError, ConfigFile};
use canvas_grading::{AccessToken, Command, Config, SubmissionState, CLI};

fn cli(token: Option<&str>, course: Option<u64>, url: Option<&str>) -> CLI {
    CLI {
        access_token: token.map(String::from),
        course_id: course,
        base_url: url.map(String::from),
        command: Command::Count(SubmissionState::Ungraded),
        assignment_id: 3,
    }
}

fn file(token: Option<&str>, course: Option<u64>, url: Option<&str>) -> ConfigFile {
    ConfigFile {
        access_token: token.map(|t| AccessToken::new(String::from(t))),
        course_id: course,
        base_url: url.map(String::from),
    }
}

fn resolved(cli: &CLI, file: &ConfigFile) -> Result<(String, u64, String), ConfigError> {
    Config::get(cli, file)
        .map(|config| (String::from(config.access_token.secret()), config.course_id, config.base_url))
}

#[test]
fn access_token_gives_its_secret() {
    let token = AccessToken::new(String::from("s3cr3t"));
    assert_eq!(token.secret(), "s3cr3t");
    assert_eq!(token.clone().secret(), "s3cr3t");
}

#[test]
fn access_token_does_not_show_its_secret() {
    let token = AccessToken::new(String::from("s3cr3t"));
    assert_eq!(token.redacted(), "AccessToken");
}

#[test]
fn access_token_makes_the_bearer_header() {
    assert_eq!(AccessToken::new(String::from("s3cr3t")).bearer(), "Bearer s3cr3t");
    assert_eq!(AccessToken::new(String::new()).bearer(), "Bearer ");
}

#[test]
fn configuration_comes_from_the_file() {
    let got = resolved(&cli(None, None, None), &file(Some("t"), Some(12), Some("https://x")));
    assert_eq!(got, Ok((String::from("t"), 12, String::from("https://x"))));
}

#[test]
fn command_line_goes_before_the_file() {
    let got = resolved(
        &cli(Some("c"), Some(1), Some("https://c")),
        &file(Some("t"), Some(12), Some("https://x")),
    );
    assert_eq!(got, Ok((String::from("c"), 1, String::from("https://c"))));
    let got = resolved(&cli(None, Some(1), None), &file(Some("t"), Some(12), Some("https://x")));
    assert_eq!(got, Ok((String::from("t"), 1, String::from("https://x"))));
    let got = resolved(&cli(Some("c"), None, Some("https://c")), &file(None, Some(12), None));
    assert_eq!(got, Ok((String::from("c"), 12, String::from("https://c"))));
}

#[test]
fn missing_entries_are_named_in_order() {
    assert_eq!(
        resolved(&cli(None, None, None), &file(None, None, None)),
        Err(ConfigError::MissingAccessToken)
    );
    assert_eq!(
        resolved(&cli(None, Some(1), Some("u")), &file(None, Some(1), Some("u"))),
        Err(ConfigError::MissingAccessToken)
    );
    assert_eq!(
        resolved(&cli(Some("t"), None, None), &file(None, None, None)),
        Err(ConfigError::MissingCourseId)
    );
    assert_eq!(
        resolved(&cli(None, None, None), &file(Some("t"), Some(1), None)),
        Err(ConfigError::MissingBaseUrl)
    );
}

#[test]
fn configuration_errors_have_words() {
    assert_eq!(ConfigError::MissingAccessToken.message(), "Access token not configured!");
    assert_eq!(ConfigError::MissingCourseId.message(), "Course id not configured!");
    assert_eq!(ConfigError::MissingBaseUrl.message(), "Base URL not configured!");
}

#[test]
fn addresses_are_built_from_base_course_and_assignment() {
    let config = Config::get(&cli(Some("t"), Some(12), Some("https://lms.example")), &file(None, None, None))
        .ok()
        .unwrap();
    assert_eq!(
        config.submissions_url(3),
        "https://lms.example/api/v1/courses/12/assignments/3/submissions"
    );
    assert_eq!(
        config.update_grades_url(3),
        "https://lms.example/api/v1/courses/12/assignments/3/submissions/update_grades"
    );
}

#[test]
fn commands_carry_their_state() {
    assert_eq!(Command::Submissions(SubmissionState::Graded), Command::Submissions(SubmissionState::Graded));
    assert_ne!(Command::Count(SubmissionState::Graded), Command::Count(SubmissionState::Ungraded));
    assert_ne!(Command::Grade, Command::Debug);
}

#[test]
fn client_headers_carry_the_token_and_the_page_size() {
    let headers = AccessToken::new(String::from("s3cr3t")).client_headers();
    assert_eq!(
        headers,
        vec![
            ClientHeader {
                name: String::from("authorization"),
                value: String::from("Bearer s3cr3t"),
                sensitive: true,
            },
            ClientHeader { name: String::from("per_page"), value: String::from("100"), sensitive: false },
        ]
    );
}
