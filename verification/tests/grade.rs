use canvas_grading::grade::{
    grade_text_in, is_whitespace, merge_comments, read_grades_and_comments, read_line, trim, Entry,
    GradeFields, ParseError,
};
use canvas_grading::{Comment, Grade, Score};

fn number(text: &str) -> Option<Score> {
    text.parse::<f32>().ok().map(|value| Score::from_bits(value.to_bits()))
}

fn grade(line: &str) -> Result<Grade, ParseError> {
    let value = match Grade::fields(line) {
        Ok(fields) => number(&fields.grade),
        Err(_) => None,
    };
    Grade::from_str(line, value)
}

fn comment(user_id: u64, text: &str) -> Comment {
    Comment { user_id, comment: String::from(text) }
}

fn with_numbers(lines: &[&str]) -> Vec<(String, Option<Score>)> {
    lines
        .iter()
        .map(|line| (String::from(*line), grade_text_in(line).and_then(|text| number(&text))))
        .collect()
}

#[test]
fn grade_line_gives_user_and_grade() {
    let parsed = grade("42: 87.5").unwrap();
    assert_eq!(parsed.user_id, 42);
    assert_eq!(f32::from_bits(parsed.grade.to_bits()), 87.5);
}

#[test]
fn grade_line_without_the_space_fails() {
    assert_eq!(grade("42:87.5"), Err(ParseError::MissingGrade));
    assert_eq!(Grade::fields("42:87.5"), Err(ParseError::MissingGrade));
}

#[test]
fn grade_fields_are_user_and_text() {
    assert_eq!(
        Grade::fields("42: 87.5"),
        Ok(GradeFields { user_id: 42, grade: String::from("87.5") })
    );
    assert_eq!(Grade::fields("42: "), Ok(GradeFields { user_id: 42, grade: String::new() }));
}

#[test]
fn grade_is_all_that_follows_the_first_separator() {
    assert_eq!(
        Grade::fields("42: 87.5: well done"),
        Ok(GradeFields { user_id: 42, grade: String::from("87.5: well done") })
    );
    assert_eq!(grade("42: 87.5: well done"), Err(ParseError::InvalidGrade));
    assert_eq!(grade("42: 87.5: x"), Err(ParseError::InvalidGrade));
    assert_eq!(grade("42: : 87.5"), Err(ParseError::InvalidGrade));
}

#[test]
fn line_with_a_number_and_more_text_is_a_comment() {
    let line = "42: 87.5: x";
    let value = grade_text_in(line).and_then(|text| number(&text));
    assert_eq!(value, None);
    assert_eq!(read_line(line, value), Some(Entry::Comment(comment(42, "87.5: x"))));
}

#[test]
fn grade_and_comment_lines_are_cut_alike() {
    for line in ["42: 87.5", "42: 87.5: x", "1: ", "7: a: b: c", "x: 1", "12", ""] {
        let fields = Grade::fields(line).ok().map(|fields| (fields.user_id, fields.grade));
        let read = Comment::from_str(line).ok().map(|comment| (comment.user_id, comment.comment));
        assert_eq!(fields, read, "{:?}", line);
    }
}

#[test]
fn grade_line_errors_come_in_order() {
    assert_eq!(grade(""), Err(ParseError::MissingGrade));
    assert_eq!(grade("abc"), Err(ParseError::MissingGrade));
    assert_eq!(grade("abc: 87.5"), Err(ParseError::InvalidUserId));
    assert_eq!(grade("abc: def"), Err(ParseError::InvalidUserId));
    assert_eq!(grade(": 87.5"), Err(ParseError::InvalidUserId));
    assert_eq!(grade("-1: 87.5"), Err(ParseError::InvalidUserId));
    assert_eq!(grade("42: def"), Err(ParseError::InvalidGrade));
    assert_eq!(grade("42: "), Err(ParseError::InvalidGrade));
}

#[test]
fn grade_with_no_number_is_an_invalid_grade() {
    assert_eq!(Grade::from_str("42: 87.5", None), Err(ParseError::InvalidGrade));
    assert_eq!(
        GradeFields { user_id: 42, grade: String::from("87.5") }.read(None),
        Err(ParseError::InvalidGrade)
    );
}

#[test]
fn grade_takes_the_number_it_is_given() {
    let value = Score::from_bits(90.0f32.to_bits());
    assert_eq!(Grade::from_str("1: 90.0", Some(value)), Ok(Grade { user_id: 1, grade: value }));
    assert_eq!(
        GradeFields { user_id: 1, grade: String::from("90.0") }.read(Some(value)),
        Ok(Grade { user_id: 1, grade: value })
    );
}

#[test]
fn comment_line_gives_user_and_text() {
    assert_eq!(Comment::from_str("1: line a"), Ok(comment(1, "line a")));
    assert_eq!(Comment::from_str("+1: x"), Ok(comment(1, "x")));
    assert_eq!(Comment::from_str("1: "), Ok(comment(1, "")));
}

#[test]
fn comment_keeps_later_separators() {
    assert_eq!(Comment::from_str("1: see: this: "), Ok(comment(1, "see: this: ")));
}

#[test]
fn comment_line_errors() {
    assert_eq!(Comment::from_str("1:line a"), Err(ParseError::MissingComment));
    assert_eq!(Comment::from_str(""), Err(ParseError::MissingComment));
    assert_eq!(Comment::from_str("one: line a"), Err(ParseError::InvalidUserId));
    assert_eq!(Comment::from_str(" 1: line a"), Err(ParseError::InvalidUserId));
    assert_eq!(Comment::from_str("18446744073709551616: x"), Err(ParseError::InvalidUserId));
}

#[test]
fn parse_errors_have_words() {
    assert_eq!(ParseError::MissingGrade.message(), "Unable to parse grade from stdin.");
    assert_eq!(ParseError::MissingComment.message(), "Unable to parse comment line.");
    assert_eq!(ParseError::InvalidUserId.message(), "Unable to parse user id to u64");
    assert_eq!(ParseError::InvalidGrade.message(), "Unable to parse grade to a number");
}

#[test]
fn merge_draws_the_lines_of_a_user_together() {
    let lines = ["1: line a", "1: line b", "2: hello"];
    let comments: Vec<Comment> = lines.iter().map(|l| Comment::from_str(l).unwrap()).collect();
    assert_eq!(
        merge_comments(comments),
        vec![comment(1, "line a\nline b\n"), comment(2, "hello\n")]
    );
}

#[test]
fn merge_of_nothing_is_nothing() {
    assert_eq!(merge_comments(Vec::new()), Vec::new());
}

#[test]
fn merge_of_one_comment_adds_the_line_break() {
    assert_eq!(merge_comments(vec![comment(5, "x")]), vec![comment(5, "x\n")]);
    assert_eq!(merge_comments(vec![comment(5, "")]), vec![comment(5, "\n")]);
}

#[test]
fn merge_keeps_parted_runs_apart() {
    let comments = vec![comment(1, "a"), comment(2, "b"), comment(1, "c"), comment(1, "d")];
    assert_eq!(
        merge_comments(comments),
        vec![comment(1, "a\n"), comment(2, "b\n"), comment(1, "c\nd\n")]
    );
}

#[test]
fn merge_leaves_no_neighbours_for_one_user_and_loses_no_text() {
    let comments = vec![
        comment(3, "a"),
        comment(3, "b"),
        comment(3, "c"),
        comment(4, "d"),
        comment(3, "e"),
        comment(5, "f"),
        comment(5, "g"),
    ];
    let lines: String = comments.iter().map(|c| format!("{}\n", c.comment)).collect();
    let merged = merge_comments(comments);
    for pair in merged.windows(2) {
        assert_ne!(pair[0].user_id, pair[1].user_id);
    }
    let text: String = merged.iter().map(|c| c.comment.clone()).collect();
    assert_eq!(text, lines);
    assert_eq!(merged.len(), 4);
    assert_eq!(merged.last().unwrap().user_id, 5);
}

#[test]
fn trim_takes_white_space_off_both_ends() {
    assert_eq!(trim("  1: a b \t\r\n"), "1: a b");
    assert_eq!(trim("x"), "x");
    assert_eq!(trim(" x"), "x");
    assert_eq!(trim("x "), "x");
    assert_eq!(trim(""), "");
    assert_eq!(trim(" \n\t "), "");
    assert_eq!(trim("\u{a0}é \u{3000}"), "é");
}

#[test]
fn white_space_is_what_the_standard_library_calls_so() {
    for code in 0..=0x10FFFFu32 {
        if let Some(c) = char::from_u32(code) {
            assert_eq!(is_whitespace(c), c.is_whitespace(), "{:x}", code);
        }
    }
}

#[test]
fn trim_agrees_with_the_standard_library() {
    for text in ["", " ", "a", " a", "a ", "  a  b  ", "\n\na\n", "\u{2003}a\u{85}", "\u{200b}a"] {
        assert_eq!(trim(text), text.trim(), "{:?}", text);
    }
}

#[test]
fn grade_text_is_found_in_a_line() {
    assert_eq!(grade_text_in("  42: 87.5  "), Some(String::from("87.5")));
    assert_eq!(grade_text_in("42: well: done"), Some(String::from("well: done")));
    assert_eq!(grade_text_in("42: 87.5: x"), Some(String::from("87.5: x")));
    assert_eq!(grade_text_in("42:87.5"), None);
    assert_eq!(grade_text_in("x: 87.5"), None);
}

#[test]
fn line_that_reads_as_a_grade_is_a_grade() {
    let value = number("87.5");
    assert_eq!(
        read_line(" 42: 87.5\n", value),
        Some(Entry::Grade(Grade { user_id: 42, grade: value.unwrap() }))
    );
}

#[test]
fn line_with_no_number_is_a_comment() {
    assert_eq!(read_line("42: well done", None), Some(Entry::Comment(comment(42, "well done"))));
    assert_eq!(read_line("42: 87.5", None), Some(Entry::Comment(comment(42, "87.5"))));
}

#[test]
fn line_that_is_neither_is_dropped() {
    assert_eq!(read_line("", None), None);
    assert_eq!(read_line("no separator", None), None);
    assert_eq!(read_line("x: 87.5", number("87.5")), None);
    assert_eq!(read_line("42:87.5", number("87.5")), None);
}

#[test]
fn lines_are_sorted_into_grades_and_comments() {
    let lines = with_numbers(&[
        "1: 90.0",
        "1: good",
        "garbage",
        "  2: 55.5  ",
        "1: more",
        "x: 3",
        "3: nan",
        "2: 1e2: rest",
    ]);
    let (grades, comments) = read_grades_and_comments(&lines);
    let read: Vec<(u64, f32)> =
        grades.iter().map(|g| (g.user_id, f32::from_bits(g.grade.to_bits()))).collect();
    assert_eq!(read.len(), 3);
    assert_eq!(read[0], (1, 90.0));
    assert_eq!(read[1], (2, 55.5));
    assert_eq!(read[2].0, 3);
    assert!(read[2].1.is_nan());
    assert_eq!(
        comments,
        vec![comment(1, "good"), comment(1, "more"), comment(2, "1e2: rest")]
    );
}

#[test]
fn no_lines_give_no_grades_and_no_comments() {
    let (grades, comments) = read_grades_and_comments(&Vec::new());
    assert_eq!(grades, Vec::new());
    assert_eq!(comments, Vec::new());
}

#[test]
fn comment_written_as_a_line_reads_back() {
    for user_id in [0u64, 7, 42, u64::MAX] {
        for text in ["", "x", "well done", "a: b", ": ", "  spaced  ", "12: 3.5"] {
            let line = format!("{}: {}", user_id, text);
            assert_eq!(Comment::from_str(&line), Ok(comment(user_id, text)), "{:?}", line);
        }
    }
}

#[test]
fn grade_written_as_a_line_reads_back() {
    for user_id in [0u64, 7, 42, u64::MAX] {
        for text in ["", "87.5", "100", "1e2", "abc", ":", " 5", "87.5: x", ": ", "a: b: c"] {
            let line = format!("{}: {}", user_id, text);
            assert_eq!(
                Grade::fields(&line),
                Ok(GradeFields { user_id, grade: String::from(text) }),
                "{:?}",
                line
            );
        }
    }
}

#[test]
fn line_without_separator_is_neither_grade_nor_comment() {
    for line in ["", "42", "42:", "42 :5", ":5", "42:5 "] {
        assert_eq!(Grade::from_str(line, number("5")), Err(ParseError::MissingGrade));
        assert_eq!(Comment::from_str(line), Err(ParseError::MissingComment));
    }
}

#[test]
fn trimming_twice_changes_nothing() {
    for text in ["", "  ", " a b ", "\ta\n", "a"] {
        assert_eq!(trim(trim(text)), trim(text));
    }
}
