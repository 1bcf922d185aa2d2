use codexx::status_ipc::{
    LoadedPage, RequestIds, ServerRequest, StatusMetadata, StatusQuery, ThreadReadStatusParams,
    REQUEST_ID_START,
};
use codexx::status_request::{StatusEnd, StatusReply, StatusRun, StatusTurn};
use codexx::thread::{SessionSource, Thread, ThreadStatus};

fn text(s: &str) -> String {
    s.to_string()
}

fn thread(id: &str, parent: Option<&str>, status: ThreadStatus) -> Thread {
    Thread {
        id: text(id),
        thread_id: None,
        session_id: text("session"),
        parent_thread_id: parent.map(text),
        parent: None,
        status,
        cwd: text("/workspace"),
        path: None,
        name: None,
        preview: text("do it"),
        agent_nickname: None,
        agent_role: None,
        source: SessionSource::Other,
    }
}

fn metadata() -> StatusMetadata {
    StatusMetadata {
        pid: 7,
        cwd: text("/workspace"),
        root_thread_id: None,
        session_id: None,
        socket_path: text("/home/tui-status/7.sock"),
        started_at: 99,
        version: text("0.137.0"),
    }
}

fn no_params() -> Result<ThreadReadStatusParams, String> {
    Err(text("missing field `threadId`"))
}

fn page(ids: Vec<&str>, next_cursor: Option<&str>) -> Result<LoadedPage, String> {
    Ok(LoadedPage {
        data: ids.into_iter().map(text).collect(),
        next_cursor: next_cursor.map(text),
    })
}

fn asking(turn: StatusTurn) -> StatusRun {
    match turn {
        StatusTurn::Ask(run) => run,
        StatusTurn::End(end) => panic!("the request is answered: {end:?}"),
    }
}

fn error(turn: StatusTurn) -> String {
    match turn {
        StatusTurn::End(StatusEnd::Error(message)) => message,
        other => panic!("no error: {other:?}"),
    }
}

#[test]
fn the_loaded_threads_are_told_sorted_and_once() {
    let mut ids = RequestIds::new();
    let run = asking(StatusRun::begin(StatusQuery::LoadedList, no_params()));
    assert_eq!(
        run.next_request(&mut ids),
        ServerRequest::ThreadLoadedList {
            request_id: REQUEST_ID_START,
            cursor: None,
            limit: Some(100),
        }
    );
    let run = asking(run.listed(page(vec!["b", "a"], Some("next")), &metadata()));
    assert_eq!(
        run.next_request(&mut ids),
        ServerRequest::ThreadLoadedList {
            request_id: REQUEST_ID_START + 1,
            cursor: Some(text("next")),
            limit: Some(100),
        }
    );
    let StatusTurn::End(StatusEnd::Reply(StatusReply::LoadedList(list))) =
        run.listed(page(vec!["c", "a"], None), &metadata())
    else {
        panic!("there are no more pages");
    };
    assert_eq!(list.thread_ids, vec![text("a"), text("b"), text("c")]);
}

#[test]
fn a_summary_counts_what_could_be_read() {
    let mut ids = RequestIds::new();
    let run = asking(StatusRun::begin(StatusQuery::Summary, no_params()));
    let run = asking(run.listed(page(vec!["b", "a"], None), &metadata()));
    assert_eq!(
        run.next_request(&mut ids),
        ServerRequest::ThreadRead {
            request_id: REQUEST_ID_START,
            thread_id: text("a"),
            include_turns: false,
        }
    );
    let run = asking(run.read(Err(text("gone")), &metadata()));
    assert_eq!(
        run.next_request(&mut ids),
        ServerRequest::ThreadRead {
            request_id: REQUEST_ID_START + 1,
            thread_id: text("b"),
            include_turns: false,
        }
    );
    let active = ThreadStatus::Active {
        active_flags: Vec::new(),
    };
    let StatusTurn::End(StatusEnd::Reply(StatusReply::Summary(summary))) =
        run.read(Ok(thread("b", None, active)), &metadata())
    else {
        panic!("all threads have been read");
    };
    assert_eq!(summary.loaded_thread_count, 2);
    assert_eq!(summary.active_thread_count, 1);
    assert_eq!(summary.root_thread_id.as_deref(), Some("b"));
    assert_eq!(summary.session_id.as_deref(), Some("session"));
}

#[test]
fn a_process_without_threads_is_told_of_too() {
    let run = asking(StatusRun::begin(StatusQuery::Summary, no_params()));
    let StatusTurn::End(StatusEnd::Reply(StatusReply::Summary(summary))) =
        run.listed(page(vec![], None), &metadata())
    else {
        panic!("there is nothing to read");
    };
    assert_eq!(summary.loaded_thread_count, 0);
    let run = asking(StatusRun::begin(StatusQuery::AgentTree, no_params()));
    let StatusTurn::End(StatusEnd::Reply(StatusReply::Tree(tree))) =
        run.listed(page(vec![], None), &metadata())
    else {
        panic!("there is nothing to read");
    };
    assert!(tree.roots.is_empty());
}

#[test]
fn a_tree_needs_all_threads() {
    let begin = || {
        let run = asking(StatusRun::begin(StatusQuery::AgentTree, no_params()));
        asking(run.listed(page(vec!["a", "b"], None), &metadata()))
    };
    let run = asking(begin().read(Ok(thread("a", None, ThreadStatus::Idle)), &metadata()));
    let StatusTurn::End(StatusEnd::Reply(StatusReply::Tree(tree))) =
        run.read(Ok(thread("b", Some("a"), ThreadStatus::Idle)), &metadata())
    else {
        panic!("all threads have been read");
    };
    assert_eq!(tree.roots[0].children[0].thread_id, "b");
    assert_eq!(
        error(begin().read(Err(text("gone")), &metadata())),
        "thread/read failed: gone"
    );
    let run = asking(begin().read(Ok(thread("a", None, ThreadStatus::Idle)), &metadata()));
    let turn = run.read(Ok(thread("a", Some("a"), ThreadStatus::Idle)), &metadata());
    assert!(matches!(turn, StatusTurn::End(StatusEnd::Endless)));
}

#[test]
fn one_thread_is_read_on_request() {
    let params = || {
        Ok(ThreadReadStatusParams {
            thread_id: text("t"),
        })
    };
    let run = asking(StatusRun::begin(StatusQuery::ThreadRead, params()));
    assert_eq!(
        run.next_request(&mut RequestIds::new()),
        ServerRequest::ThreadRead {
            request_id: REQUEST_ID_START,
            thread_id: text("t"),
            include_turns: false,
        }
    );
    let StatusTurn::End(StatusEnd::Reply(StatusReply::Thread(view))) =
        run.read(Ok(thread("t", None, ThreadStatus::NotLoaded)), &metadata())
    else {
        panic!("the thread has been read");
    };
    assert_eq!(view.status, "not_loaded");
    assert_eq!(view.agent_path.as_deref(), Some("/root"));
    assert_eq!(view.summary.as_deref(), Some("do it"));
    let run = asking(StatusRun::begin(StatusQuery::ThreadRead, params()));
    assert_eq!(
        error(run.read(Err(text("gone")), &metadata())),
        "thread/read failed: gone"
    );
    assert_eq!(
        error(StatusRun::begin(StatusQuery::ThreadRead, no_params())),
        "invalid thread/read params: missing field `threadId`"
    );
}

#[test]
fn a_list_that_fails_ends_every_request() {
    for query in [
        StatusQuery::Summary,
        StatusQuery::LoadedList,
        StatusQuery::AgentTree,
    ] {
        let run = asking(StatusRun::begin(query, no_params()));
        assert_eq!(
            error(run.listed(Err(text("closed")), &metadata())),
            "thread/loaded/list failed: closed"
        );
    }
}
