use std::path::PathBuf;

use pleme_actions_shared::summary::status;
use pleme_actions_shared::StepSummary;

fn summary() -> StepSummary {
    StepSummary::to_file(PathBuf::from("summary"))
}

#[test]
fn empty_summary_writes_nothing() {
    let s = summary();
    assert_eq!(s.as_str(), "");
}

#[test]
fn heading_levels_clamp_to_1_through_6() {
    let mut s = summary();
    s.heading(0, "below").heading(7, "above").heading(3, "ok");
    let out = s.as_str();
    assert!(out.contains("# below\n"));
    assert!(out.contains("###### above\n"));
    assert!(out.contains("### ok\n"));
}

#[test]
fn table_renders_with_separators() {
    let mut s = summary();
    s.table(
        &["Metric", "Count"],
        vec![
            vec!["pod-count", "0"],
            vec!["listener-status", "Running"],
        ],
    );
    let out = s.as_str();
    assert!(out.contains("| Metric | Count |\n|---|---|\n"));
    assert!(out.contains("| pod-count | 0 |\n"));
    assert!(out.contains("| listener-status | Running |\n"));
}

#[test]
fn code_block_fences_with_lang_tag() {
    let mut s = summary();
    s.code_block("yaml", "key: value\nnumber: 42");
    let out = s.as_str();
    assert!(out.contains("```yaml\nkey: value\nnumber: 42\n```\n"));
}

#[test]
fn bullets_render_dashes() {
    let mut s = summary();
    s.bullets(&["a", "b", "c"]);
    let out = s.as_str();
    assert!(out.contains("- a\n- b\n- c\n"));
}

#[test]
fn as_str_returns_buffer_without_flushing() {
    let dir = PathBuf::from("pleme-summary-not-written.md");
    let mut s = StepSummary::to_file(dir.clone());
    s.heading(1, "test");
    let buffered = s.as_str().to_string();
    assert!(buffered.contains("# test\n"));
    // Nothing was written to the target.
    assert!(!dir.exists());
}

#[test]
fn status_constants_use_typed_strings() {
    assert_eq!(status::PASSED, "✓ Passed");
    assert_eq!(status::FAILED, "✗ Failed");
    assert_eq!(status::PAUSED, "❚❚ Paused");
}

#[test]
fn blocks_append_exactly() {
    let mut s = summary();
    s.heading(2, "Plan")
        .paragraph("text")
        .status(status::PASSED)
        .code_block("", "done\n")
        .bullets(&[])
        .table(&["A"], vec![]);
    assert_eq!(
        s.as_str(),
        "## Plan\n\ntext\n\n✓ Passed\n\n```\ndone\n```\n\n\n| A |\n|---|\n\n"
    );
}

#[test]
fn summary_target_path_is_kept() {
    let mut s = StepSummary::to_file(PathBuf::from("/tmp/x/summary.md"));
    s.paragraph("p");
    assert_eq!(s.target_path(), &PathBuf::from("/tmp/x/summary.md"));
}
