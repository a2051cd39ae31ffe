use pleme_actions_shared::error::{encode_message, encode_property};
use pleme_actions_shared::{ActionError, ErrorContext};

#[test]
fn error_constructor_no_context() {
    let e = ActionError::error("something broke");
    assert_eq!(e.as_workflow_command(), "::error::something broke");
    assert!(e.is_fatal());
}

#[test]
fn warning_constructor_no_context() {
    let e = ActionError::warning("look out");
    assert_eq!(e.as_workflow_command(), "::warning::look out");
    assert!(!e.is_fatal());
}

#[test]
fn notice_constructor_no_context() {
    let e = ActionError::notice("fyi");
    assert_eq!(e.as_workflow_command(), "::notice::fyi");
    assert!(!e.is_fatal());
}

#[test]
fn error_with_full_context() {
    let e = ActionError::error("bad input").with_context(ErrorContext {
        title: Some("Validation failed".into()),
        file: Some("manifests/rio.yaml".into()),
        line: Some(12),
        col: Some(5),
        end_line: Some(12),
        end_col: Some(20),
    });
    let cmd = e.as_workflow_command();
    assert!(cmd.starts_with("::error "));
    assert!(cmd.contains("title=Validation failed"));
    assert!(cmd.contains("file=manifests/rio.yaml"));
    assert!(cmd.contains("line=12"));
    assert!(cmd.contains("col=5"));
    assert!(cmd.contains("endLine=12"));
    assert!(cmd.contains("endColumn=20"));
    assert!(cmd.ends_with("::bad input"));
}

#[test]
fn newline_in_message_is_encoded() {
    let e = ActionError::error("line one\nline two");
    let cmd = e.as_workflow_command();
    assert!(!cmd.contains('\n'), "newline must be encoded as %0A");
    assert!(cmd.contains("line one%0Aline two"));
}

#[test]
fn percent_in_message_is_encoded_first() {
    // Otherwise %0A in user input would be confused with our newline encoding
    let e = ActionError::error("100% sure");
    let cmd = e.as_workflow_command();
    assert!(cmd.contains("100%25 sure"));
}

#[test]
fn comma_in_property_is_encoded() {
    let e = ActionError::error("ok").with_context(ErrorContext {
        title: Some("a, b, c".into()),
        ..Default::default()
    });
    let cmd = e.as_workflow_command();
    assert!(cmd.contains("title=a%2C b%2C c"));
}

#[test]
fn colon_in_property_is_encoded() {
    let e = ActionError::error("ok").with_context(ErrorContext {
        file: Some("C:\\path\\file.yml".into()),
        ..Default::default()
    });
    let cmd = e.as_workflow_command();
    assert!(cmd.contains("file=C%3A\\path\\file.yml"));
}

#[test]
fn fatal_only_for_error_level() {
    assert!(ActionError::error("x").is_fatal());
    assert!(!ActionError::warning("x").is_fatal());
    assert!(!ActionError::notice("x").is_fatal());
}

#[test]
fn full_context_renders_in_order() {
    let e = ActionError::warning("msg").with_context(ErrorContext {
        title: Some("T".into()),
        file: Some("f.rs".into()),
        line: Some(1),
        col: Some(2),
        end_line: Some(3),
        end_col: Some(4),
    });
    assert_eq!(
        e.as_workflow_command(),
        "::warning title=T,file=f.rs,line=1,col=2,endLine=3,endColumn=4::msg"
    );
}

#[test]
fn empty_context_adds_no_space() {
    let e = ActionError::notice("n").with_context(ErrorContext::default());
    assert_eq!(e.as_workflow_command(), "::notice::n");
}

#[test]
fn with_context_keeps_level_and_message() {
    let e = ActionError::warning("keep me").with_context(ErrorContext {
        line: Some(4294967295),
        ..Default::default()
    });
    assert!(!e.is_fatal());
    assert_eq!(e.to_string(), "keep me");
    assert_eq!(e.as_workflow_command(), "::warning line=4294967295::keep me");
}

#[test]
fn later_context_replaces_earlier() {
    let e = ActionError::error("x")
        .with_context(ErrorContext { col: Some(9), ..Default::default() })
        .with_context(ErrorContext { line: Some(0), ..Default::default() });
    assert_eq!(e.as_workflow_command(), "::error line=0::x");
}

#[test]
fn message_encoding_escapes_carriage_return_and_keeps_colons() {
    assert_eq!(encode_message("a\r\nb:c,d%"), "a%0D%0Ab:c,d%25");
}

#[test]
fn property_encoding_escapes_delimiters() {
    assert_eq!(encode_property("a:b,c%\n"), "a%3Ab%2Cc%25%0A");
}

#[test]
fn context_display_shows_title_only() {
    let ctx = ErrorContext {
        title: Some("T, x".into()),
        line: Some(3),
        ..Default::default()
    };
    assert_eq!(ctx.to_string(), "title=T, x");
    assert_eq!(ErrorContext::default().to_string(), "");
}
