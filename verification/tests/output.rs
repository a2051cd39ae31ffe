use std::path::PathBuf;

use pleme_actions_shared::output::{runner_env_missing, DelimiterCounter};
use pleme_actions_shared::Output;

#[test]
fn single_line_value_uses_kv_form() {
    let mut counter = DelimiterCounter::new();
    let written = Output::entry("plan-summary", "+5 -2 ~3", &mut counter);
    assert_eq!(written, "plan-summary=+5 -2 ~3\n");
    assert_eq!(counter.next, 0);
}

#[test]
fn multi_line_value_uses_heredoc_form() {
    let mut counter = DelimiterCounter::new();
    let written = Output::entry("plan-output", "line one\nline two\nline three", &mut counter);
    // Should contain heredoc markers
    assert!(written.starts_with("plan-output<<"));
    assert!(written.contains("line one\nline two\nline three\n"));
    // The closing delimiter matches the opening one
    let opener = written.lines().next().unwrap();
    let delim = opener.strip_prefix("plan-output<<").unwrap();
    assert!(written.ends_with(&format!("{delim}\n")));
    assert_eq!(delim, "PLEME_ACTIONS_OUTPUT_DELIM_0");
    assert_eq!(counter.next, 1);
}

#[test]
fn multiple_set_calls_append() {
    let mut counter = DelimiterCounter::new();
    let mut written = String::new();
    written.push_str(&Output::entry("a", "1", &mut counter));
    written.push_str(&Output::entry("b", "2", &mut counter));
    assert_eq!(written, "a=1\nb=2\n");
}

#[test]
fn set_all_appends_in_order() {
    let mut counter = DelimiterCounter::new();
    let entries = Output::entries(
        &[("pod-count", "0"), ("listener-status", "Running")],
        &mut counter,
    );
    assert_eq!(entries.concat(), "pod-count=0\nlistener-status=Running\n");
}

#[test]
fn delimiters_are_fresh_for_each_multiline_value() {
    let mut counter = DelimiterCounter { next: 41 };
    let entries = Output::entries(&[("a", "x\ny"), ("b", "z"), ("c", "\n")], &mut counter);
    assert_eq!(entries[0], "a<<PLEME_ACTIONS_OUTPUT_DELIM_41\nx\ny\nPLEME_ACTIONS_OUTPUT_DELIM_41\n");
    assert_eq!(entries[1], "b=z\n");
    assert_eq!(entries[2], "c<<PLEME_ACTIONS_OUTPUT_DELIM_42\n\n\nPLEME_ACTIONS_OUTPUT_DELIM_42\n");
    assert_eq!(counter.next, 43);
}

#[test]
fn delimiter_counter_wraps() {
    let mut counter = DelimiterCounter { next: u64::MAX };
    assert_eq!(counter.next_delimiter(), "PLEME_ACTIONS_OUTPUT_DELIM_18446744073709551615");
    assert_eq!(counter.next, 0);
}

#[test]
fn output_from_runner_env_errors_when_unset() {
    let err = runner_env_missing("GITHUB_OUTPUT");
    assert!(err.is_fatal());
    assert!(err.as_workflow_command().contains("GITHUB_OUTPUT env var not set"));
}

#[test]
fn summary_from_runner_env_errors_when_unset() {
    let err = runner_env_missing("GITHUB_STEP_SUMMARY");
    assert!(err.is_fatal());
    assert!(err.as_workflow_command().contains("GITHUB_STEP_SUMMARY"));
}

#[test]
fn output_target_path_is_kept() {
    let out = Output::to_file(PathBuf::from("out.txt"));
    assert_eq!(out.target_path(), &PathBuf::from("out.txt"));
}
