use color_eyre::Report;

use codexx::app_state::App;
use codexx::new_agent::parse_agent_new_prompt;

#[test]
fn terminal_thread_read_error_detection_matches_not_loaded_errors() {
    let err = Report::msg(
        "thread/read failed during TUI session lookup: thread/read failed: thread not loaded: thr_123",
    );

    assert!(App::is_terminal_thread_read_error(&err));
}

#[test]
fn terminal_thread_read_error_detection_ignores_transient_failures() {
    let err = Report::msg(
        "thread/read failed during TUI session lookup: thread/read transport error: broken pipe",
    );

    assert!(!App::is_terminal_thread_read_error(&err));
}

#[test]
fn closed_state_for_thread_read_error_preserves_live_state_without_cache_on_transient_error() {
    let err = Report::msg(
        "thread/read failed during TUI session lookup: thread/read transport error: broken pipe",
    );

    assert!(!App::closed_state_for_thread_read_error(
        &err, /*existing_is_closed*/ None
    ));
}

#[test]
fn closed_state_for_thread_read_error_marks_terminal_uncached_threads_closed() {
    let err = Report::msg(
        "thread/read failed during TUI session lookup: thread/read failed: thread not loaded: thr_123",
    );

    assert!(App::closed_state_for_thread_read_error(
        &err, /*existing_is_closed*/ None
    ));
}

#[test]
fn include_turns_fallback_detection_handles_unmaterialized_and_ephemeral_threads() {
    let unmaterialized = Report::msg(
        "thread/read failed during TUI session lookup: thread/read failed: thread thr_123 is not materialized yet; includeTurns is unavailable before first user message",
    );
    let ephemeral = Report::msg(
        "thread/read failed during TUI session lookup: thread/read failed: ephemeral threads do not support includeTurns",
    );

    assert!(App::can_fallback_from_include_turns_error(&unmaterialized));
    assert!(App::can_fallback_from_include_turns_error(&ephemeral));
}

#[test]
fn parse_agent_new_prompt_requires_task_and_message() {
    assert_eq!(
        parse_agent_new_prompt("research -- inspect the repo").unwrap(),
        ("research".to_string(), "inspect the repo".to_string())
    );
    assert!(parse_agent_new_prompt("research").is_err());
    assert!(parse_agent_new_prompt(" -- inspect").is_err());
    assert!(parse_agent_new_prompt("research -- ").is_err());
}
