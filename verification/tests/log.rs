use pleme_actions_shared::log::{
    debug_line, debug_requested, encode, error_line, init, is_debug, set_debug, warn_line,
    DebugState,
};

#[test]
fn set_debug_overrides_env() {
    let mut state = DebugState::new();
    set_debug(&mut state, true);
    assert!(is_debug(&mut state, None));
    set_debug(&mut state, false);
    assert!(!is_debug(&mut state, Some("1")));
}

#[test]
fn encode_escapes_newlines_and_percent() {
    assert_eq!(encode("100% sure"), "100%25 sure");
    assert_eq!(encode("line one\nline two"), "line one%0Aline two");
    assert_eq!(
        encode("crlf\r\n"),
        // %25 first (so existing %0A in input would be encoded as %250A)
        "crlf%0D%0A"
    );
}

#[test]
fn only_one_enables_debug() {
    assert!(debug_requested(Some("1")));
    assert!(!debug_requested(Some("true")));
    assert!(!debug_requested(Some("11")));
    assert!(!debug_requested(Some("")));
    assert!(!debug_requested(None));
}

#[test]
fn init_reads_the_environment_once() {
    let mut state = DebugState::new();
    init(&mut state, Some("1"));
    assert!(state.enabled);
    init(&mut state, Some("0"));
    assert!(state.enabled);
    assert!(is_debug(&mut state, None));
}

#[test]
fn lazy_initialization_on_first_query() {
    let mut state = DebugState::new();
    assert!(!is_debug(&mut state, Some("0")));
    assert!(state.initialized);
    assert!(!is_debug(&mut state, Some("1")));
}

#[test]
fn log_lines_use_workflow_commands() {
    assert_eq!(debug_line(true, "a\nb"), Some("::debug::a%0Ab".to_string()));
    assert_eq!(debug_line(false, "a"), None);
    assert_eq!(warn_line("50%"), "::warning::50%25");
    assert_eq!(error_line("boom"), "::error::boom");
}
