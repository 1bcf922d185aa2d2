use unicode_width::UnicodeWidthStr;

use codexx::agent_tree::{AgentTreeNode, AgentTreeResponse};
use codexx::cells::{
    append_ellipsis, fit_cell, pad_to_width, truncate_to_width, truncate_with_ellipsis,
    wrap_summary_lines,
};
use codexx::status_command::{
    live_status_sessions, metadata_files, pid_exists, session_rows, session_work_state,
    thread_work_state, triage_metadata, write_status_json, write_status_table,
    write_status_table_row, LiveStatusSession, ProbedFile, StatusCommand, StatusDir,
    StatusJsonThread, StatusTableRow, Triage, STATUS_TABLE_WIDTH,
};
use codexx::status_ipc::{StatusMetadata, StatusSummary};

fn text(s: &str) -> String {
    s.to_string()
}

fn node(
    id: &str,
    status: &str,
    flags: Vec<&str>,
    path: &str,
    task: &str,
    kind: &str,
    nickname: &str,
    summary: &str,
    parent: Option<&str>,
    children: Vec<AgentTreeNode>,
) -> AgentTreeNode {
    AgentTreeNode {
        thread_id: text(id),
        session_id: Some(text("session-1")),
        parent_thread_id: parent.map(text),
        status: text(status),
        active_flags: flags.into_iter().map(text).collect(),
        cwd: Some(text("/workspace")),
        path: None,
        agent_path: Some(text(path)),
        task_name: Some(text(task)),
        agent_type: Some(text(kind)),
        agent_nickname: Some(text(nickname)),
        summary: Some(text(summary)),
        children,
    }
}

fn summary(pid: u32, active: usize) -> StatusSummary {
    StatusSummary {
        pid,
        cwd: text("/workspace"),
        root_thread_id: Some(text("root-thread")),
        session_id: Some(text("session-1")),
        alive: true,
        loaded_thread_count: 3,
        active_thread_count: active,
        started_at: 1,
        version: text("0.137.0-codexx-test"),
    }
}

const LONG_SUMMARY: &str = "This is a deliberately long summary that should wrap inside the \
                            fixed summary table column instead of making the status table grow \
                            sideways beyond the summary boundary.";

fn live_session(pid: u32, coder_summary: &str) -> LiveStatusSession {
    LiveStatusSession {
        summary: summary(pid, 2),
        tree: AgentTreeResponse {
            roots: vec![node(
                "root-thread",
                "idle",
                vec![],
                "/root",
                "root",
                "default",
                "Main",
                "main preview",
                None,
                vec![
                    node(
                        "child-thread",
                        "active",
                        vec!["waiting_on_user_input"],
                        "/root/worker",
                        "worker",
                        "worker",
                        "worker_a",
                        "child preview",
                        Some("root-thread"),
                        vec![],
                    ),
                    node(
                        "working-thread",
                        "active",
                        vec![],
                        "/root/coder",
                        "coder",
                        "coder",
                        "coder_a",
                        coder_summary,
                        Some("root-thread"),
                        vec![],
                    ),
                ],
            )],
        },
    }
}

fn metadata(pid: u32) -> StatusMetadata {
    StatusMetadata {
        pid,
        cwd: text("/workspace"),
        root_thread_id: None,
        session_id: None,
        socket_path: format!("/status/{pid}.sock"),
        started_at: 1,
        version: text("0.137.0-codexx-test"),
    }
}

fn probe(pid: u32, process_runs: bool, answered: bool) -> ProbedFile {
    ProbedFile {
        metadata_path: format!("/status/{pid}.json"),
        metadata: Ok(metadata(pid)),
        process_runs,
        summary: if answered {
            Ok(summary(pid, 0))
        } else {
            Err(text("unreachable"))
        },
        tree: if answered {
            Ok(AgentTreeResponse { roots: Vec::new() })
        } else {
            Err(text("unreachable"))
        },
    }
}

#[test]
fn status_command_no_live_sessions_prints_friendly_message() {
    let lines = write_status_table(&Vec::new());
    assert_eq!(lines, vec![text("No live codexx TUI sessions found.")]);
    assert!(write_status_json(&Vec::new()).sessions.is_empty());
    assert!(!StatusCommand { json: false }.json);
}

#[test]
fn status_command_removes_stale_metadata_for_dead_pid() {
    let scan = live_status_sessions(vec![probe(99_999_999, false, false)]);
    assert!(scan.sessions.is_empty());
    assert_eq!(
        scan.stale_files,
        vec![text("/status/99999999.json"), text("/status/99999999.sock")]
    );
}

#[test]
fn status_command_skips_processes_that_do_not_answer() {
    let scan = live_status_sessions(vec![probe(2, true, false), probe(1, true, true)]);
    assert_eq!(scan.sessions.len(), 1);
    assert_eq!(scan.sessions[0].summary.pid, 1);
    assert!(scan.stale_files.is_empty());
}

#[test]
fn status_command_removes_what_is_no_metadata_file() {
    let mut broken = probe(4, true, true);
    broken.metadata = Err(text("eof"));
    let scan = live_status_sessions(vec![broken]);
    assert!(scan.sessions.is_empty());
    assert_eq!(scan.stale_files, vec![text("/status/4.json")]);
    assert_eq!(
        triage_metadata(text("m"), Ok(metadata(5)), true),
        Triage::Ask(text("/status/5.sock"))
    );
}

#[test]
fn sessions_are_sorted_by_process() {
    let scan = live_status_sessions(vec![
        probe(30, true, true),
        probe(4, true, true),
        probe(200, true, true),
    ]);
    let pids: Vec<u32> = scan.sessions.iter().map(|s| s.summary.pid).collect();
    assert_eq!(pids, vec![4, 30, 200]);
}

#[test]
fn status_command_formats_live_ipc_session_rows() {
    let lines = write_status_table(&vec![live_session(4321, "actively working")]);
    let output = lines.join("\n");
    assert!(output.contains("TUI_PID"));
    assert!(output.contains("TUI_WORK"));
    assert!(output.contains("THREAD_WORK"));
    assert!(output.contains("4321"));
    assert!(output.contains("root-thread"));
    assert!(output.contains("child-thread"));
    assert!(output.contains("working-thread"));
    assert!(output.contains("working"));
    assert!(output.contains("waiting_input"));
    assert!(output.contains("/root/worker"));
    let head = "TUI_PID   TUI_WORK          THREAD_WORK       THREAD_ID                             ";
    assert!(lines[0].starts_with(head));
    let row = "4321      working           waiting_input     child-thread                          \
               /root/worker              worker            worker        worker_a        \
               child preview";
    assert_eq!(lines[2], row);
}

#[test]
fn status_command_json_outputs_sessions_threads_and_work_state() {
    let output = write_status_json(&vec![live_session(17, LONG_SUMMARY)]);
    let session = &output.sessions[0];
    assert_eq!(session.pid, 17);
    assert_eq!(session.tui_state, "alive");
    assert_eq!(session.tui_work, "working");
    assert_eq!(session.summary.loaded_thread_count, 3);
    assert!(session
        .threads
        .iter()
        .any(|thread| thread.thread_id == "working-thread" && thread.thread_work == "working"));
    assert!(session
        .threads
        .iter()
        .any(|thread| thread.thread_id == "child-thread" && thread.thread_work == "waiting_input"));
    assert_eq!(session.threads[2].summary.as_deref(), Some(LONG_SUMMARY));
    assert_eq!(
        session.agent_tree.roots[0].children[1].thread_id,
        "working-thread"
    );
}

#[test]
fn status_command_wraps_summary_inside_column_boundary() {
    let lines = write_status_table(&vec![live_session(1, LONG_SUMMARY)]);
    for line in &lines {
        assert!(
            UnicodeWidthStr::width(line.as_str()) <= STATUS_TABLE_WIDTH,
            "line exceeds table boundary: {line}"
        );
    }
    assert_eq!(lines.len(), 5);
    assert!(lines[4].ends_with("..."));
    assert!(lines[4].starts_with(" "));
}

#[test]
fn the_table_is_as_wide_as_its_columns() {
    assert_eq!(STATUS_TABLE_WIDTH, 8 + 16 + 16 + 36 + 24 + 16 + 12 + 14 + 32 + 8 * 2);
}

#[test]
fn a_session_without_threads_has_one_row() {
    let session = LiveStatusSession {
        summary: summary(9, 0),
        tree: AgentTreeResponse { roots: Vec::new() },
    };
    let lines = write_status_table(&vec![session]);
    assert_eq!(lines.len(), 2);
    let cells: Vec<&str> = lines[1].split_whitespace().collect();
    assert_eq!(
        cells,
        vec!["9", "idle", "-", "root-thread", "/root", "root", "-", "-"]
    );
}

#[test]
fn rows_come_in_preorder() {
    let rows = session_rows(&live_session(3, LONG_SUMMARY));
    let ids: Vec<&str> = rows.iter().map(|row| row.thread_id.as_str()).collect();
    assert_eq!(ids, vec!["root-thread", "child-thread", "working-thread"]);
    let entry = StatusJsonThread::from_row(&rows[1]);
    assert_eq!(entry.thread_work, "waiting_input");
    assert_eq!(entry.thread_state, "active");
}

#[test]
fn work_states_follow_status_and_flags() {
    let flags = |names: Vec<&str>| names.into_iter().map(text).collect::<Vec<String>>();
    assert_eq!(thread_work_state("idle", &flags(vec!["x"])), "idle");
    assert_eq!(thread_work_state("system_error", &flags(vec![])), "system_error");
    assert_eq!(thread_work_state("active", &flags(vec![])), "working");
    assert_eq!(thread_work_state("active", &flags(vec!["other"])), "waiting");
    assert_eq!(
        thread_work_state("active", &flags(vec!["waiting_on_user_input"])),
        "waiting_input"
    );
    assert_eq!(
        thread_work_state(
            "active",
            &flags(vec!["waiting_on_user_input", "waiting_on_approval"])
        ),
        "waiting_approval"
    );
}

#[test]
fn a_session_works_while_one_of_its_threads_does() {
    let rows = session_rows(&live_session(3, LONG_SUMMARY));
    assert_eq!(session_work_state(&summary(3, 0), &rows), "working");
    assert_eq!(session_work_state(&summary(3, 1), &Vec::new()), "working");
    assert_eq!(session_work_state(&summary(3, 0), &Vec::new()), "idle");
    let waiting: Vec<_> = rows.into_iter().take(2).collect();
    assert_eq!(session_work_state(&summary(3, 1), &waiting), "waiting_input");
}

#[test]
fn cells_are_cut_and_padded() {
    assert_eq!(fit_cell("abc", 5), "abc  ");
    assert_eq!(fit_cell("abcdefgh", 6), "abc...");
    assert_eq!(fit_cell("ab cdefgh", 6), "ab... ");
    assert_eq!(pad_to_width("abc", 2), "abc");
    assert_eq!(truncate_with_ellipsis("abcdef", 3), "...");
    assert_eq!(truncate_with_ellipsis("abcdef", 2), "..");
    assert_eq!(truncate_with_ellipsis("abcdef", 6), "abcdef");
    assert_eq!(append_ellipsis("ab", 6), "ab...");
}

#[test]
fn wide_characters_count_two_columns() {
    assert_eq!(truncate_to_width("日本語", 4), "日本");
    assert_eq!(truncate_to_width("日本語", 5), "日本");
    assert_eq!(fit_cell("日本", 6), "日本  ");
    assert_eq!(fit_cell("日本語日本語", 8), "日本... ");
    assert_eq!(truncate_to_width("a\u{301}b", 1), "a\u{301}");
}

#[test]
fn the_widest_character_still_fits() {
    let widest = "\u{17d8}".repeat(25);
    assert_eq!(
        wrap_summary_lines(&widest),
        vec![
            "\u{17d8}".repeat(10),
            format!("{}...", "\u{17d8}".repeat(9))
        ]
    );
}

#[test]
fn summaries_wrap_to_two_lines_at_most() {
    assert_eq!(wrap_summary_lines(""), vec![text("")]);
    assert_eq!(wrap_summary_lines(" \n "), vec![text("")]);
    assert_eq!(wrap_summary_lines("one\n two"), vec![text("one two")]);
    let exact = "a".repeat(32);
    assert_eq!(wrap_summary_lines(&exact), vec![exact.clone()]);
    let words = format!("{} b", "a".repeat(32));
    assert_eq!(
        wrap_summary_lines(&words),
        vec!["a".repeat(32), text("b")]
    );
    let long = "x".repeat(65);
    assert_eq!(
        wrap_summary_lines(&long),
        vec!["x".repeat(32), format!("{}...", "x".repeat(29))]
    );
    let wide = "語".repeat(20);
    assert_eq!(
        wrap_summary_lines(&wide),
        vec!["語".repeat(16), "語".repeat(4)]
    );
}

#[test]
fn a_row_continues_its_summary_on_a_blank_line() {
    let mut lines = vec![text("before")];
    let row = StatusTableRow {
        pid: text("1"),
        tui_work: text("idle"),
        thread_work: text("idle"),
        thread_id: text("t"),
        agent_path: text("/root"),
        task_name: text("root"),
        agent_type: text("-"),
        nickname: text("-"),
        summary: format!("{} {}", "a".repeat(32), "b".repeat(5)),
    };
    write_status_table_row(&mut lines, &row, true);
    assert_eq!(lines.len(), 3);
    assert_eq!(lines[0], "before");
    assert_eq!(lines[2], format!("{}{}", " ".repeat(158), "bbbbb"));
    let mut unwrapped = Vec::new();
    write_status_table_row(&mut unwrapped, &row, false);
    assert_eq!(unwrapped.len(), 1);
    assert!(unwrapped[0].ends_with(&format!("{}...", "a".repeat(29))));
}

#[test]
fn metadata_files_end_in_json() {
    let names = vec![
        text("20.json"),
        text("3.json"),
        text("3.sock"),
        text(".json"),
        text("json"),
        text("a.json.bak"),
    ];
    assert_eq!(
        metadata_files(StatusDir::Entries(names)),
        Ok(vec![text("20.json"), text("3.json")])
    );
    assert_eq!(metadata_files(StatusDir::Missing), Ok(Vec::new()));
    assert_eq!(
        metadata_files(StatusDir::Unreadable),
        Err(text("failed to read TUI status directory"))
    );
}

#[test]
fn a_process_that_may_not_be_signalled_runs() {
    assert!(pid_exists(0, None, 1));
    assert!(pid_exists(-1, Some(1), 1));
    assert!(!pid_exists(-1, Some(3), 1));
    assert!(!pid_exists(-1, None, 1));
}
