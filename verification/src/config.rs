//! What a run is told from outside: the command, and where and as whom to
//! reach the course.

use crate::model::views;
use crate::submission::SubmissionState;
use crate::text::{decimal, push_decimal};
use vstd::prelude::*;
use vstd::string::StringExecFns;

verus! {

/// A token that gives access to the remote system. It has no `Debug` of its
/// own making: what it shows of itself is a fixed word.
pub struct AccessToken(String);

impl View for AccessToken {
    type V = Seq<char>;

    closed spec fn view(&self) -> Seq<char> {
        self.0@
    }
}

impl Clone for AccessToken {
    fn clone(&self) -> (r: Self)
        ensures
            r == *self,
    {
        AccessToken(self.0.clone())
    }
}

impl AccessToken {
    pub fn new(secret: String) -> (r: Self)
        ensures
            r@ == secret@,
    {
        AccessToken(secret)
    }

    /// The token itself.
    pub fn secret(&self) -> (r: &str)
        ensures
            r@ == self@,
    {
        self.0.as_str()
    }

    /// What the token shows where it is printed: its name, never its value.
    pub fn redacted(&self) -> (r: String)
        ensures
            r@ == "AccessToken"@,
    {
        "AccessToken".to_owned()
    }

    /// The headers that every request made with this token carries.
    pub fn client_headers(&self) -> (r: Vec<ClientHeader>)
        ensures
            views(r@) == client_headers(self@),
    {
        let mut headers: Vec<ClientHeader> = Vec::new();
        headers.push(
            ClientHeader { name: "authorization".to_owned(), value: self.bearer(), sensitive: true },
        );
        headers.push(
            ClientHeader { name: "per_page".to_owned(), value: "100".to_owned(), sensitive: false },
        );
        assert(views(headers@) =~= client_headers(self@));
        headers
    }

    /// The value of the authorization header that carries the token.
    pub fn bearer(&self) -> (r: String)
        ensures
            r@ == "Bearer "@ + self@,
    {
        let mut out = "Bearer ".to_owned();
        out.append(self.0.as_str());
        out
    }
}

/// A header that every request to the remote system carries.
#[derive(Debug, PartialEq, Eq)]
pub struct ClientHeader {
    pub name: String,
    pub value: String,
    /// Set where the value must not show in logs.
    pub sensitive: bool,
}

/// What a `ClientHeader` holds.
pub struct ClientHeaderView {
    pub name: Seq<char>,
    pub value: Seq<char>,
    pub sensitive: bool,
}

impl View for ClientHeader {
    type V = ClientHeaderView;

    open spec fn view(&self) -> ClientHeaderView {
        ClientHeaderView { name: self.name@, value: self.value@, sensitive: self.sensitive }
    }
}

/// The headers that every request made with the token `token` carries: the
/// authorization, which is not to be shown, and the size of a page.
pub open spec fn client_headers(token: Seq<char>) -> Seq<ClientHeaderView> {
    seq![
        ClientHeaderView { name: "authorization"@, value: "Bearer "@ + token, sensitive: true },
        ClientHeaderView { name: "per_page"@, value: "100"@, sensitive: false },
    ]
}

/// What a run is to do.
#[derive(Debug, Clone, Copy, PartialEq, Eq, Structural)]
pub enum Command {
    /// Read the lines of grades and comments and show what they were read as.
    Debug,
    /// Fetch the files of the submissions in a state and print where they are.
    Submissions(SubmissionState),
    /// Send grades and comments.
    Grade,
    /// Count the submissions in a state.
    Count(SubmissionState),
}

/// What the command line holds.
#[derive(Debug)]
pub struct CLI {
    /// Goes before the access token of the configuration file.
    pub access_token: Option<String>,
    /// Goes before the course of the configuration file.
    pub course_id: Option<u64>,
    /// Goes before the base address of the configuration file.
    pub base_url: Option<String>,
    pub command: Command,
    pub assignment_id: u64,
}

/// What the configuration file holds. Every entry may be missing.
pub struct ConfigFile {
    pub access_token: Option<AccessToken>,
    pub course_id: Option<u64>,
    pub base_url: Option<String>,
}

/// Why no configuration could be made.
#[derive(Debug, Clone, Copy, PartialEq, Eq, Structural)]
pub enum ConfigError {
    MissingAccessToken,
    MissingCourseId,
    MissingBaseUrl,
}

impl ConfigError {
    pub open spec fn text(self) -> Seq<char> {
        match self {
            ConfigError::MissingAccessToken => "Access token not configured!"@,
            ConfigError::MissingCourseId => "Course id not configured!"@,
            ConfigError::MissingBaseUrl => "Base URL not configured!"@,
        }
    }

    /// The error in words.
    pub fn message(&self) -> (r: String)
        ensures
            r@ == self.text(),
    {
        match self {
            ConfigError::MissingAccessToken => "Access token not configured!".to_owned(),
            ConfigError::MissingCourseId => "Course id not configured!".to_owned(),
            ConfigError::MissingBaseUrl => "Base URL not configured!".to_owned(),
        }
    }
}

/// Where and as whom to reach the course.
pub struct Config {
    pub access_token: AccessToken,
    pub course_id: u64,
    pub base_url: String,
}

/// What a `Config` holds.
pub struct ConfigView {
    pub access_token: Seq<char>,
    pub course_id: u64,
    pub base_url: Seq<char>,
}

impl View for Config {
    type V = ConfigView;

    open spec fn view(&self) -> ConfigView {
        ConfigView {
            access_token: self.access_token@,
            course_id: self.course_id,
            base_url: self.base_url@,
        }
    }
}

/// The access token to use: that of the command line, else that of the file.
pub open spec fn chosen_token(cli: &CLI, file: &ConfigFile) -> Option<Seq<char>> {
    match (cli.access_token, file.access_token) {
        (Some(token), _) => Some(token@),
        (None, Some(token)) => Some(token@),
        (None, None) => None,
    }
}

/// The course to use: that of the command line, else that of the file.
pub open spec fn chosen_course(cli: &CLI, file: &ConfigFile) -> Option<u64> {
    match (cli.course_id, file.course_id) {
        (Some(course), _) => Some(course),
        (None, Some(course)) => Some(course),
        (None, None) => None,
    }
}

/// The base address to use: that of the command line, else that of the file.
pub open spec fn chosen_url(cli: &CLI, file: &ConfigFile) -> Option<Seq<char>> {
    match (cli.base_url, file.base_url) {
        (Some(url), _) => Some(url@),
        (None, Some(url)) => Some(url@),
        (None, None) => None,
    }
}

/// The configuration that the command line and the file give together, or
/// the first thing that neither of them holds: the access token, then the
/// course, then the base address.
pub open spec fn resolved(cli: &CLI, file: &ConfigFile) -> Result<ConfigView, ConfigError> {
    if chosen_token(cli, file) is None {
        Err(ConfigError::MissingAccessToken)
    } else if chosen_course(cli, file) is None {
        Err(ConfigError::MissingCourseId)
    } else if chosen_url(cli, file) is None {
        Err(ConfigError::MissingBaseUrl)
    } else {
        Ok(
            ConfigView {
                access_token: chosen_token(cli, file)->0,
                course_id: chosen_course(cli, file)->0,
                base_url: chosen_url(cli, file)->0,
            },
        )
    }
}

/// The address under which the submissions of an assignment are listed.
pub open spec fn submissions_url(base_url: Seq<char>, course_id: u64, assignment_id: u64) -> Seq<
    char,
> {
    base_url + "/api/v1/courses/"@ + decimal(course_id as nat) + "/assignments/"@ + decimal(
        assignment_id as nat,
    ) + "/submissions"@
}

/// The address to which the grades of an assignment are sent.
pub open spec fn update_grades_url(base_url: Seq<char>, course_id: u64, assignment_id: u64) -> Seq<
    char,
> {
    submissions_url(base_url, course_id, assignment_id) + "/update_grades"@
}

impl Config {
    /// Makes the configuration of a run from the command line and from what
    /// the configuration file held.
    pub fn get(command_line_options: &CLI, file: &ConfigFile) -> (r: Result<Config, ConfigError>)
        ensures
            match r {
                Ok(config) => resolved(command_line_options, file) == Ok::<ConfigView, ConfigError>(
                    config@,
                ),
                Err(error) => resolved(command_line_options, file) == Err::<ConfigView, ConfigError>(
                    error,
                ),
            },
    {
        let access_token = match &command_line_options.access_token {
            Some(token) => AccessToken::new(token.clone()),
            None => match &file.access_token {
                Some(token) => token.clone(),
                None => {
                    return Err(ConfigError::MissingAccessToken);
                },
            },
        };
        let course_id = match command_line_options.course_id {
            Some(course) => course,
            None => match file.course_id {
                Some(course) => course,
                None => {
                    return Err(ConfigError::MissingCourseId);
                },
            },
        };
        let base_url = match &command_line_options.base_url {
            Some(url) => url.clone(),
            None => match &file.base_url {
                Some(url) => url.clone(),
                None => {
                    return Err(ConfigError::MissingBaseUrl);
                },
            },
        };
        Ok(Config { access_token, course_id, base_url })
    }

    /// The address under which the submissions of `assignment_id` are listed.
    pub fn submissions_url(&self, assignment_id: u64) -> (r: String)
        ensures
            r@ == submissions_url(self@.base_url, self@.course_id, assignment_id),
    {
        let mut out = self.base_url.clone();
        out.append("/api/v1/courses/");
        push_decimal(&mut out, self.course_id);
        out.append("/assignments/");
        push_decimal(&mut out, assignment_id);
        out.append("/submissions");
        out
    }

    /// The address to which the grades of `assignment_id` are sent.
    pub fn update_grades_url(&self, assignment_id: u64) -> (r: String)
        ensures
            r@ == update_grades_url(self@.base_url, self@.course_id, assignment_id),
    {
        let mut out = self.submissions_url(assignment_id);
        out.append("/update_grades");
        out
    }
}

} // verus!
