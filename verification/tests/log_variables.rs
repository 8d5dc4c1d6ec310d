use rust_log_analyzer as rla;

use rla::index::Sanitized;
use rla::log_variables::{extract_variable, LogVariables};

#[test]
fn test_extract_variable() {
    assert_eq!(None, extract_variable(b"[foo=bar", "foo"));
    assert_eq!(None, extract_variable(b"foo=bar]", "foo"));
    assert_eq!(None, extract_variable(b"[foo]", "foo"));
    assert_eq!(None, extract_variable(b"[baz=bar]", "foo"));
    assert_eq!(Some("bar"), extract_variable(b"[foo=bar]", "foo"));
}

#[test]
fn test_log_variables_extract() {
    let log: Vec<Sanitized<&str>> = vec![
        Sanitized("foo"),
        Sanitized("bar"),
        Sanitized("[CI_JOB_NAME=test-job]"),
        Sanitized("baz"),
        Sanitized("[CI_PR_NUMBER=123]"),
        Sanitized("quux"),
        Sanitized("[CI_JOB_DOC_URL=https://github.com/rust-lang/rust/job1]"),
        Sanitized("foobar"),
    ];

    let extracted = LogVariables::extract(&log);
    assert_eq!(Some("test-job"), extracted.job_name);
    assert_eq!(Some("123"), extracted.pr_number);
    assert_eq!(
        Some("https://github.com/rust-lang/rust/job1"),
        extracted.doc_url
    );
}

#[test]
fn extract_variable_takes_first_occurrence() {
    let log: Vec<Sanitized<&str>> = vec![
        Sanitized("[CI_JOB_NAME=first]"),
        Sanitized("[CI_JOB_NAME=second]"),
    ];
    let extracted = LogVariables::extract(&log);
    assert_eq!(Some("first"), extracted.job_name);
    assert_eq!(None, extracted.pr_number);
    assert_eq!(None, extracted.doc_url);
}

#[test]
fn extract_variable_needs_exact_frame() {
    assert_eq!(None, extract_variable(b"x[foo=bar]", "foo"));
    assert_eq!(None, extract_variable(b"[foo=bar]x", "foo"));
    assert_eq!(None, extract_variable(b"", "foo"));
    assert_eq!(Some(""), extract_variable(b"[foo=]", "foo"));
    // The name is cut at the first separator.
    assert_eq!(Some("b=c"), extract_variable(b"[a=b=c]", "a"));
    // A value that is not valid UTF-8 is rejected.
    assert_eq!(None, extract_variable(b"[a=\xff\xfe]", "a"));
}
