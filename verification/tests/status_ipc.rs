use std::path::PathBuf;

use codexx::agent_tree::{
    build_agent_tree_from_threads, try_build_agent_tree, ThreadStatusView,
};
use codexx::status_ipc::{
    agent_tree, dispatch_status_request, invalid_metadata_message, invalid_request_response,
    is_read_only_method, serve_step, server_metadata, status_paths, status_summary,
    thread_read_result, thread_read_target, AcceptOutcome, LoadedPage, LoadedStep, LoadedThreads,
    RequestIds, ServeStep, ServerRequest, StatusIpcRequest, StatusIpcResponse, StatusIpcServerArgs,
    StatusMetadata, StatusQuery, ThreadReadStatusParams, METHOD_AGENT_TREE, METHOD_STATUS_SUMMARY,
    METHOD_THREAD_LOADED_LIST, METHOD_THREAD_READ,
};
use codexx::thread::{
    task_name_from_agent_path, thread_status_view_from_thread, SessionSource, Thread,
    ThreadActiveFlag, ThreadId, ThreadStatus,
};

fn text(s: &str) -> String {
    s.to_string()
}

fn thread(id: &str, parent: Option<&str>, status: ThreadStatus) -> Thread {
    Thread {
        id: text(id),
        thread_id: None,
        session_id: text("session-of-") + id,
        parent_thread_id: parent.map(text),
        parent: None,
        status,
        cwd: text("/workspace"),
        path: None,
        name: None,
        preview: text("  "),
        agent_nickname: None,
        agent_role: None,
        source: SessionSource::Other,
    }
}

fn view(id: &str, parent: Option<&str>, path: Option<&str>) -> ThreadStatusView {
    ThreadStatusView {
        thread_id: text(id),
        session_id: None,
        parent_thread_id: parent.map(text),
        status: text("idle"),
        active_flags: Vec::new(),
        cwd: None,
        path: None,
        agent_path: path.map(text),
        task_name: None,
        agent_type: None,
        agent_nickname: None,
        summary: None,
    }
}

fn metadata(root: Option<&str>, session: Option<&str>) -> StatusMetadata {
    StatusMetadata {
        pid: 7,
        cwd: text("/workspace"),
        root_thread_id: root.map(text),
        session_id: session.map(text),
        socket_path: text("/home/tui-status/7.sock"),
        started_at: 99,
        version: text("0.137.0"),
    }
}

#[test]
fn status_ipc_paths_are_under_private_tui_status_dir() {
    let codex_home = PathBuf::from("/tmp/codex-home");
    let paths = status_paths("/tmp/codex-home", 12345);

    assert_eq!(PathBuf::from(paths.dir), codex_home.join("tui-status"));
    assert_eq!(
        PathBuf::from(paths.metadata_path),
        codex_home.join("tui-status/12345.json")
    );
    assert_eq!(
        PathBuf::from(paths.socket_path),
        codex_home.join("tui-status/12345.sock")
    );
}

#[test]
fn status_paths_do_not_double_the_separator() {
    let paths = status_paths("/", 1);
    assert_eq!(paths.dir, "/tui-status");
    assert_eq!(paths.metadata_path, "/tui-status/1.json");
    assert_eq!(status_paths("", 2).socket_path, "tui-status/2.sock");
}

#[test]
fn status_paths_of_two_processes_differ() {
    let one = status_paths("/home", 12);
    let other = status_paths("/home", 120);
    assert_ne!(one.metadata_path, other.metadata_path);
    assert_ne!(one.socket_path, other.socket_path);
    assert_ne!(one.metadata_path, one.socket_path);
}

#[test]
fn status_ipc_only_allows_read_methods() {
    assert!(is_read_only_method(METHOD_STATUS_SUMMARY));
    assert!(is_read_only_method(METHOD_THREAD_LOADED_LIST));
    assert!(is_read_only_method(METHOD_THREAD_READ));
    assert!(is_read_only_method(METHOD_AGENT_TREE));

    assert!(!is_read_only_method("spawn_agent"));
    assert!(!is_read_only_method("thread/start"));
    assert!(!is_read_only_method("agent/close"));
}

#[test]
fn status_ipc_agent_tree_includes_child_nodes() {
    let root = ThreadStatusView {
        thread_id: "root-thread".to_string(),
        session_id: Some("session-1".to_string()),
        parent_thread_id: None,
        status: "idle".to_string(),
        active_flags: Vec::new(),
        cwd: Some("/workspace".to_string()),
        path: None,
        agent_path: Some("/root".to_string()),
        task_name: Some("root".to_string()),
        agent_type: Some("default".to_string()),
        agent_nickname: Some("Main".to_string()),
        summary: Some("main preview".to_string()),
    };
    let child = ThreadStatusView {
        thread_id: "child-thread".to_string(),
        session_id: Some("session-1".to_string()),
        parent_thread_id: Some("root-thread".to_string()),
        status: "active".to_string(),
        active_flags: vec!["waiting_on_user_input".to_string()],
        cwd: Some("/workspace".to_string()),
        path: None,
        agent_path: Some("/root/worker".to_string()),
        task_name: Some("worker".to_string()),
        agent_type: Some("worker".to_string()),
        agent_nickname: Some("worker_a".to_string()),
        summary: Some("child preview".to_string()),
    };

    let tree = build_agent_tree_from_threads(vec![child, root]);

    assert_eq!(tree.roots.len(), 1);
    assert_eq!(tree.roots[0].thread_id, "root-thread");
    assert_eq!(tree.roots[0].children.len(), 1);
    assert_eq!(tree.roots[0].children[0].thread_id, "child-thread");
    assert_eq!(
        tree.roots[0].children[0].agent_path.as_deref(),
        Some("/root/worker")
    );
}

#[test]
fn agent_tree_names_the_main_thread_and_sorts_children() {
    let tree = build_agent_tree_from_threads(vec![
        view("z", Some("main"), Some("/root/alpha")),
        view("main", None, None),
        view("b", Some("main"), Some("/root/beta")),
        view("a", Some("main"), Some("/root/beta")),
        view("leaf", Some("b"), Some("/root/beta/leaf")),
    ]);
    assert_eq!(tree.roots.len(), 1);
    assert_eq!(tree.roots[0].agent_path.as_deref(), Some("/root"));
    assert_eq!(tree.roots[0].task_name.as_deref(), Some("root"));
    let ids: Vec<&str> = tree.roots[0]
        .children
        .iter()
        .map(|node| node.thread_id.as_str())
        .collect();
    assert_eq!(ids, vec!["z", "a", "b"]);
    assert_eq!(tree.roots[0].children[2].children[0].thread_id, "leaf");
}

#[test]
fn agent_tree_does_not_depend_on_the_order_of_threads() {
    let forward = vec![
        view("r", None, None),
        view("x", Some("r"), Some("/root/x")),
        view("y", Some("x"), Some("/root/x/y")),
    ];
    let backward = vec![
        view("y", Some("x"), Some("/root/x/y")),
        view("x", Some("r"), Some("/root/x")),
        view("r", None, None),
    ];
    assert_eq!(
        build_agent_tree_from_threads(forward),
        build_agent_tree_from_threads(backward)
    );
}

#[test]
fn agent_tree_leaves_out_threads_without_a_root() {
    let tree = build_agent_tree_from_threads(vec![
        view("a", Some("b"), None),
        view("b", Some("a"), None),
        view("orphan", Some("missing"), None),
    ]);
    assert!(tree.roots.is_empty());
}

#[test]
fn agent_tree_of_a_thread_listed_twice_takes_the_later_record() {
    let tree = build_agent_tree_from_threads(vec![
        view("r", None, Some("/root")),
        view("c", Some("r"), Some("/root/a")),
        view("c", Some("r"), Some("/root/b")),
    ]);
    assert_eq!(tree.roots[0].children.len(), 2);
    assert_eq!(
        tree.roots[0].children[0].agent_path.as_deref(),
        Some("/root/b")
    );
}

#[test]
fn a_thread_below_itself_has_no_agent_tree() {
    let looped = try_build_agent_tree(vec![
        view("r", Some("r"), Some("/root/a")),
        view("r", None, Some("/root/b")),
    ]);
    assert!(looped.is_none());
    assert!(try_build_agent_tree(Vec::new()).is_some());
}

#[test]
fn requests_are_dispatched_by_method() {
    let request = |method: &str| StatusIpcRequest {
        method: text(method),
        params: serde_json::Value::Null,
    };
    assert_eq!(
        dispatch_status_request(&request("status/summary")),
        Ok(StatusQuery::Summary)
    );
    assert_eq!(
        dispatch_status_request(&request("thread/loaded/list")),
        Ok(StatusQuery::LoadedList)
    );
    assert_eq!(
        dispatch_status_request(&request("thread/read")),
        Ok(StatusQuery::ThreadRead)
    );
    assert_eq!(
        dispatch_status_request(&request("agent/tree")),
        Ok(StatusQuery::AgentTree)
    );
    let refused = dispatch_status_request(&request("agent/close")).unwrap_err();
    assert!(!refused.ok);
    assert_eq!(
        refused.error.as_deref(),
        Some("method `agent/close` is not available on read-only status IPC")
    );
}

#[test]
fn responses_carry_results_and_errors() {
    let value = serde_json::Value::String(text("x"));
    let response = StatusIpcResponse::ok(Ok(value.clone()));
    assert!(response.ok);
    assert_eq!(response.result, Some(value.clone()));
    assert_eq!(response.into_result(), Ok(value));

    let failed = StatusIpcResponse::ok(Err(text("too deep")));
    assert_eq!(
        failed.into_result(),
        Err(text("failed to serialize status response: too deep"))
    );
    assert_eq!(
        StatusIpcResponse::error(text("no")).into_result(),
        Err(text("no"))
    );
    let silent = StatusIpcResponse {
        ok: false,
        result: None,
        error: None,
    };
    assert_eq!(silent.into_result(), Err(text("status IPC request failed")));
    let empty = StatusIpcResponse {
        ok: true,
        result: None,
        error: None,
    };
    assert_eq!(
        empty.into_result(),
        Err(text("status IPC response omitted result"))
    );
    assert_eq!(
        invalid_request_response("eof").error.as_deref(),
        Some("invalid status IPC request: eof")
    );
    assert_eq!(
        invalid_metadata_message("/a/1.json", "eof"),
        "invalid TUI status metadata /a/1.json: eof"
    );
}

#[test]
fn request_ids_count_up_and_wrap_around() {
    let mut ids = RequestIds::new();
    assert_eq!(ids.next_status_request_id(), 10_000_000_000);
    assert_eq!(ids.next_status_request_id(), 10_000_000_001);
    let mut last = RequestIds { next: i64::MAX };
    assert_eq!(last.next_status_request_id(), i64::MAX);
    assert_eq!(last.next_status_request_id(), i64::MIN);
}

#[test]
fn loaded_threads_are_listed_page_by_page() {
    let mut ids = RequestIds::new();
    let loaded = LoadedThreads::new();
    assert_eq!(
        ids.loaded_list_request(&loaded),
        ServerRequest::ThreadLoadedList {
            request_id: 10_000_000_000,
            cursor: None,
            limit: Some(100),
        }
    );
    let step = loaded.load_all_thread_ids(Ok(LoadedPage {
        data: vec![text("b"), text("a")],
        next_cursor: Some(text("next")),
    }));
    let LoadedStep::More(loaded) = step else {
        panic!("a cursor asks for more");
    };
    assert_eq!(
        ids.loaded_list_request(&loaded),
        ServerRequest::ThreadLoadedList {
            request_id: 10_000_000_001,
            cursor: Some(text("next")),
            limit: Some(100),
        }
    );
    assert_eq!(
        ids.thread_read_request(text("b")),
        ServerRequest::ThreadRead {
            request_id: 10_000_000_002,
            thread_id: text("b"),
            include_turns: false,
        }
    );
    let step = loaded.load_all_thread_ids(Ok(LoadedPage {
        data: vec![text("c"), text("a")],
        next_cursor: None,
    }));
    assert_eq!(
        step,
        LoadedStep::Complete(vec![text("a"), text("b"), text("c")])
    );
    assert_eq!(
        LoadedThreads::new().load_all_thread_ids(Err(text("gone"))),
        LoadedStep::Failed(text("thread/loaded/list failed: gone"))
    );
}

#[test]
fn summary_counts_threads_and_finds_the_root() {
    let ids = vec![text("a"), text("b"), text("c")];
    let reads = vec![
        Err(text("gone")),
        Ok(thread(
            "b",
            Some("c"),
            ThreadStatus::Active {
                active_flags: Vec::new(),
            },
        )),
        Ok(thread("c", None, ThreadStatus::Idle)),
    ];
    let summary = status_summary(&metadata(None, None), &ids, &reads);
    assert_eq!(summary.pid, 7);
    assert!(summary.alive);
    assert_eq!(summary.loaded_thread_count, 3);
    assert_eq!(summary.active_thread_count, 1);
    assert_eq!(summary.root_thread_id.as_deref(), Some("c"));
    assert_eq!(summary.session_id.as_deref(), Some("session-of-c"));
    assert_eq!(summary.started_at, 99);

    let named = status_summary(&metadata(Some("b"), None), &ids, &reads);
    assert_eq!(named.root_thread_id.as_deref(), Some("b"));
    assert_eq!(named.session_id.as_deref(), Some("session-of-b"));

    let given = status_summary(&metadata(Some("x"), Some("s")), &ids, &reads);
    assert_eq!(given.session_id.as_deref(), Some("s"));
}

#[test]
fn agent_tree_fails_with_the_first_thread_that_cannot_be_read() {
    let tree = agent_tree(vec![
        Ok(thread("a", None, ThreadStatus::Idle)),
        Err(text("gone")),
    ]);
    assert_eq!(tree, Err(text("thread/read failed: gone")));
    let tree = agent_tree(vec![Ok(thread("a", None, ThreadStatus::Idle))]);
    assert_eq!(tree.unwrap().unwrap().roots[0].thread_id, "a");
}

#[test]
fn thread_read_reports_its_errors() {
    assert_eq!(
        thread_read_target(Ok(ThreadReadStatusParams {
            thread_id: text("t"),
        })),
        Ok(text("t"))
    );
    assert_eq!(
        thread_read_target(Err(text("missing field"))),
        Err(text("invalid thread/read params: missing field"))
    );
    assert_eq!(
        thread_read_result(Err(text("gone"))).unwrap_err(),
        "thread/read failed: gone"
    );
}

#[test]
fn thread_views_tell_status_path_task_and_summary() {
    let mut worker = thread(
        "w",
        Some("main"),
        ThreadStatus::Active {
            active_flags: vec![
                ThreadActiveFlag::WaitingOnApproval,
                ThreadActiveFlag::WaitingOnUserInput,
            ],
        },
    );
    worker.source = SessionSource::ThreadSpawn {
        parent_thread_id: ThreadId { bits: 1 },
        agent_path: Some(text("/root/build/worker")),
    };
    worker.preview = text("fix the build");
    let shown = thread_status_view_from_thread(&worker);
    assert_eq!(shown.status, "active");
    assert_eq!(
        shown.active_flags,
        vec![text("waiting_on_approval"), text("waiting_on_user_input")]
    );
    assert_eq!(shown.agent_path.as_deref(), Some("/root/build/worker"));
    assert_eq!(shown.task_name.as_deref(), Some("worker"));
    assert_eq!(shown.summary.as_deref(), Some("fix the build"));

    let main = thread_status_view_from_thread(&thread("main", None, ThreadStatus::NotLoaded));
    assert_eq!(main.status, "not_loaded");
    assert_eq!(main.agent_path.as_deref(), Some("/root"));
    assert_eq!(main.task_name.as_deref(), Some("root"));
    assert_eq!(main.summary, None);

    let orphan =
        thread_status_view_from_thread(&thread("o", Some("main"), ThreadStatus::SystemError));
    assert_eq!(orphan.status, "system_error");
    assert_eq!(orphan.agent_path, None);
    assert_eq!(orphan.task_name, None);

    assert_eq!(task_name_from_agent_path("/root"), "root");
    assert_eq!(task_name_from_agent_path("/root/a/"), "/root/a/");
    assert_eq!(task_name_from_agent_path("solo"), "solo");
}

#[test]
fn thread_ids_are_written_with_hyphens() {
    let id = ThreadId {
        bits: 0x2222_2222_2222_4222_8222_2222_2222_22ab,
    };
    assert_eq!(id.to_text(), "22222222-2222-4222-8222-2222222222ab");
    assert_eq!(
        ThreadId { bits: 0 }.to_text(),
        "00000000-0000-0000-0000-000000000000"
    );
}

#[test]
fn server_metadata_names_the_socket_of_the_process() {
    let (paths, metadata) = server_metadata(
        StatusIpcServerArgs {
            codex_home: text("/h"),
            cwd: text("/w"),
            root_thread_id: Some(text("r")),
            session_id: None,
            version: text("v"),
        },
        3,
        5,
    );
    assert_eq!(paths.metadata_path, "/h/tui-status/3.json");
    assert_eq!(metadata.socket_path, "/h/tui-status/3.sock");
    assert_eq!(metadata.pid, 3);
    assert_eq!(metadata.started_at, 5);
    assert_eq!(metadata.root_thread_id.as_deref(), Some("r"));
}

#[test]
fn the_server_serves_sleeps_and_stops() {
    assert_eq!(serve_step(AcceptOutcome::Client, false), ServeStep::Serve);
    assert_eq!(serve_step(AcceptOutcome::Client, true), ServeStep::Stop);
    assert_eq!(
        serve_step(AcceptOutcome::WouldBlock, false),
        ServeStep::Sleep
    );
    assert_eq!(serve_step(AcceptOutcome::Failed, false), ServeStep::Stop);
}
