//! What the status interface tells, whatever threads there are.

use vstd::prelude::*;

use crate::agent_tree::{AgentTreeNode, AgentTreeResponse, ThreadInfo, ThreadStatusView};
use crate::status_ipc::{
    active_count, agent_tree, all_read, dispatch_status_request, first_parentless, first_with_id,
    invalid_metadata_message, invalid_request_response, is_read_only_method, read_infos,
    serve_step, server_metadata, status_dir, status_paths, status_summary, summarizes,
    thread_read_result, thread_read_target, AcceptOutcome, LoadedPage, LoadedStep,
    LoadedThreads, RequestIds, ServeStep, ServerRequest, StatusIpcPaths,
    StatusIpcRequest, StatusIpcResponse, StatusIpcServerArgs, StatusMetadata, StatusQuery,
    StatusSummary, ThreadReadStatusParams,
};
use crate::status_request::{StatusEnd, StatusRun, StatusTurn};
use crate::text::{decimal, is_space, trim};
use crate::text_laws::{lemma_last_segment, lemma_trim};
use crate::thread::{
    is_active_thread_status, parent_thread_id_from_thread, task_name_from_agent_path,
    thread_status_parts, thread_status_view_from_thread, thread_summary, Thread,
    ThreadActiveFlag, ThreadId,
};

verus! {

/// Whether every character of `s` is white space.
pub open spec fn is_blank(s: Seq<char>) -> bool {
    forall|i: int| 0 <= i < s.len() ==> is_space(#[trigger] s[i])
}

pub(crate) proof fn lemma_trim_is_blank(s: Seq<char>)
    ensures
        trim(s).len() == 0 <==> is_blank(s),
    decreases s.len(),
{
    if is_blank(s) {
        lemma_trim(s, Seq::empty(), Seq::empty());
        assert(s + Seq::empty() + Seq::empty() =~= s);
    } else {
        let i = choose|i: int| 0 <= i < s.len() && !is_space(#[trigger] s[i]);
        lemma_trim_keeps(s, i);
    }
}

proof fn lemma_trim_keeps(s: Seq<char>, i: int)
    requires
        0 <= i < s.len(),
        !is_space(s[i]),
    ensures
        trim(s).len() > 0,
    decreases s.len(),
{
    if is_space(s[0]) {
        assert(s.drop_first()[i - 1] == s[i]);
        lemma_trim_keeps(s.drop_first(), i - 1);
    } else if is_space(s.last()) {
        lemma_trim_end_keeps(s);
    }
}

proof fn lemma_trim_end_keeps(s: Seq<char>)
    requires
        s.len() > 0,
        !is_space(s[0]),
    ensures
        crate::text::trim_end(s).len() > 0,
    decreases s.len(),
{
    if is_space(s.last()) {
        assert(s.drop_last()[0] == s[0]);
        lemma_trim_end_keeps(s.drop_last());
    }
}

/// Whether `view` tells `thread` as it is: its identity, where it runs, what it does and
/// waits for, its role as the agent type, and its nickname.
pub open spec fn tells_thread(view: ThreadStatusView, thread: Thread) -> bool {
    &&& view.thread_id@ == thread.id@
    &&& view.session_id is Some && view.session_id->0@ == thread.session_id@
    &&& view.parent_thread_id.deep_view() == thread.parent_thread_id.deep_view()
    &&& view.cwd is Some && view.cwd->0@ == thread.cwd@
    &&& view.path.deep_view() == thread.path.deep_view()
    &&& view.agent_type.deep_view() == thread.agent_role.deep_view()
    &&& view.agent_nickname.deep_view() == thread.agent_nickname.deep_view()
    &&& thread.status is Active <==> view.status@ == "active"@
    &&& thread.status is Idle <==> view.status@ == "idle"@
    &&& thread.status is NotLoaded <==> view.status@ == "not_loaded"@
    &&& thread.status is SystemError <==> view.status@ == "system_error"@
    &&& thread.status is Active ==> view.active_flags@.len()
        == thread.status->active_flags@.len() && forall|i: int|
        0 <= i < view.active_flags@.len() ==> (#[trigger] view.active_flags@[i])@ == if
        thread.status->active_flags@[i] == ThreadActiveFlag::WaitingOnApproval {
            "waiting_on_approval"@
        } else {
            "waiting_on_user_input"@
        }
    &&& !(thread.status is Active) ==> view.active_flags@.len() == 0
}

/// Whether `view` says what `thread` is about: its name, or else how it began.
pub open spec fn tells_summary(summary: Option<String>, thread: Thread) -> bool {
    &&& thread.name is Some ==> summary is Some && summary->0@ == thread.name->0@
    &&& thread.name is None && is_blank(thread.preview@) ==> summary is None
    &&& thread.name is None && !is_blank(thread.preview@) ==> summary is Some && summary->0@
        == thread.preview@
}

/// Whether a path is that of an agent that was spawned with one.
pub open spec fn spawned_at(thread: Thread, path: Seq<char>) -> bool {
    &&& thread.source is ThreadSpawn
    &&& thread.source->agent_path is Some
    &&& thread.source->agent_path->0@ == path
}

/// The name of a task is the last part of its agent path.
pub open spec fn names_task(path: Seq<char>, task: Seq<char>) -> bool {
    &&& path == "/root"@ ==> task == "root"@
    &&& forall|above: Seq<char>, name: Seq<char>|
        path != "/root"@ && name.len() > 0 && (forall|i: int|
            0 <= i < name.len() ==> #[trigger] name[i] != '/') && path == #[trigger] (above.push(
            '/',
        ) + name) ==> task == name
    &&& path != "/root"@ && path.len() > 0 && (forall|i: int|
        0 <= i < path.len() ==> #[trigger] path[i] != '/') ==> task == path
    &&& path.len() > 0 && path.last() == '/' ==> task == path
}

/// Whether `view` says where the agent stands: the path that it was spawned with, or that
/// of the main thread where nothing spawned it, and the task that the path names.
pub open spec fn tells_place(view: ThreadStatusView, thread: Thread) -> bool {
    &&& forall|path: Seq<char>| #[trigger]
        spawned_at(thread, path) ==> view.agent_path is Some && view.agent_path->0@ == path
    &&& !(thread.source is ThreadSpawn && thread.source->agent_path is Some)
        && thread.parent_thread_id is None ==> view.agent_path is Some && view.agent_path->0@
        == "/root"@
    &&& !(thread.source is ThreadSpawn && thread.source->agent_path is Some)
        && thread.parent_thread_id is Some ==> view.agent_path is None
    &&& view.task_name is Some <==> view.agent_path is Some
    &&& view.task_name is Some ==> names_task(view.agent_path->0@, view.task_name->0@)
}

proof fn lemma_status_words()
    ensures
        "active"@ != "idle"@,
        "active"@ != "not_loaded"@,
        "active"@ != "system_error"@,
        "idle"@ != "not_loaded"@,
        "idle"@ != "system_error"@,
        "not_loaded"@ != "system_error"@,
{
    reveal_strlit("active");
    reveal_strlit("idle");
    reveal_strlit("not_loaded");
    reveal_strlit("system_error");
    assert("active"@.len() == 6 && "idle"@.len() == 4 && "not_loaded"@.len() == 10
        && "system_error"@.len() == 12);
}

proof fn lemma_task(path: Seq<char>)
    ensures
        names_task(path, crate::thread::task_of_path(path)),
{
    assert forall|above: Seq<char>, name: Seq<char>|
        path != "/root"@ && name.len() > 0 && (forall|i: int|
            0 <= i < name.len() ==> #[trigger] name[i] != '/') && path == #[trigger] (above.push(
            '/',
        ) + name) implies crate::thread::task_of_path(path) == name by {
        lemma_last_segment(above, name);
    }
    if path.len() > 0 && (forall|i: int| 0 <= i < path.len() ==> #[trigger] path[i] != '/') {
        lemma_last_segment(Seq::empty(), path);
    }
    reveal_strlit("/root");
    assert("/root"@.last() == 't');
}

proof fn lemma_info_tells(view: ThreadStatusView, thread: Thread)
    requires
        view.deep_view() == crate::thread::status_info(thread),
    ensures
        tells_thread(view, thread),
        tells_summary(view.summary, thread),
        tells_place(view, thread),
{
    lemma_status_words();
    lemma_trim_is_blank(thread.preview@);
    let words = view.active_flags.deep_view();
    assert(words.len() == view.active_flags@.len());
    assert forall|i: int| 0 <= i < view.active_flags@.len() implies (
    #[trigger] view.active_flags@[i])@ == words[i] by {}
    if view.agent_path is Some {
        lemma_task(view.agent_path->0@);
    }
}

/// A thread is told as it is.
pub proof fn lemma_view_tells_thread(thread: &Thread, view: ThreadStatusView)
    requires
        call_ensures(thread_status_view_from_thread, (thread,), view),
    ensures
        tells_thread(view, *thread),
        tells_summary(view.summary, *thread),
        tells_place(view, *thread),
{
    lemma_info_tells(view, *thread);
}

/// A client that reads a thread is told it as it is, and why it could not be read.
pub proof fn lemma_thread_read_tells_thread(
    read: Result<Thread, String>,
    result: Result<ThreadStatusView, String>,
)
    requires
        call_ensures(thread_read_result, (read,), result),
    ensures
        read is Ok <==> result is Ok,
        read is Ok ==> tells_thread(result->Ok_0, read->Ok_0) && tells_summary(
            result->Ok_0.summary,
            read->Ok_0,
        ) && tells_place(result->Ok_0, read->Ok_0),
        read is Err ==> result->Err_0@ == "thread/read failed: "@ + read->Err_0@,
{
    if read is Ok {
        lemma_info_tells(result->Ok_0, read->Ok_0);
    }
}

/// The parts of what is told of a thread.
pub proof fn lemma_thread_parts(
    thread: &Thread,
    parts: (String, Vec<String>),
    active: bool,
    path: &str,
    task: String,
    summary: Option<String>,
    parent: Option<ThreadId>,
)
    requires
        call_ensures(thread_status_parts, (&thread.status,), parts),
        call_ensures(is_active_thread_status, (&thread.status,), active),
        call_ensures(task_name_from_agent_path, (path,), task),
        call_ensures(thread_summary, (thread,), summary),
        call_ensures(parent_thread_id_from_thread, (thread,), parent),
    ensures
        active <==> parts.0@ == "active"@,
        thread.status is Idle <==> parts.0@ == "idle"@,
        names_task(path@, task@),
        tells_summary(summary, *thread),
        thread.parent is Some ==> parent == thread.parent,
        thread.parent is None && thread.source is ThreadSpawn ==> parent == Some(
            thread.source->parent_thread_id,
        ),
        thread.parent is None && !(thread.source is ThreadSpawn) ==> parent is None,
{
    lemma_status_words();
    lemma_task(path@);
    lemma_trim_is_blank(thread.preview@);
}

/// The contents of what is told of a thread, and of a node of the tree, are its fields.
pub proof fn lemma_contents_are_fields(view: ThreadStatusView, node: AgentTreeNode)
    ensures
        ({
            let info = view.deep_view();
            &&& info.thread_id == view.thread_id@
            &&& info.session_id == view.session_id.deep_view()
            &&& info.parent_thread_id == view.parent_thread_id.deep_view()
            &&& info.status == view.status@
            &&& info.active_flags == view.active_flags.deep_view()
            &&& info.cwd == view.cwd.deep_view()
            &&& info.path == view.path.deep_view()
            &&& info.agent_path == view.agent_path.deep_view()
            &&& info.task_name == view.task_name.deep_view()
            &&& info.agent_type == view.agent_type.deep_view()
            &&& info.agent_nickname == view.agent_nickname.deep_view()
            &&& info.summary == view.summary.deep_view()
        }),
        ({
            let info = node.tree().thread;
            &&& info.thread_id == node.thread_id@
            &&& info.session_id == node.session_id.deep_view()
            &&& info.parent_thread_id == node.parent_thread_id.deep_view()
            &&& info.status == node.status@
            &&& info.active_flags == node.active_flags.deep_view()
            &&& info.cwd == node.cwd.deep_view()
            &&& info.path == node.path.deep_view()
            &&& info.agent_path == node.agent_path.deep_view()
            &&& info.task_name == node.task_name.deep_view()
            &&& info.agent_type == node.agent_type.deep_view()
            &&& info.agent_nickname == node.agent_nickname.deep_view()
            &&& info.summary == node.summary.deep_view()
        }),
        node.tree().children.len() == node.children@.len(),
        forall|i: int|
            0 <= i < node.children@.len() ==> node.tree().children[i] == (
            #[trigger] node.children@[i]).tree(),
{
}

/// Only the four methods that read are served, each as itself; another one is refused by
/// name.
pub proof fn lemma_only_reading_is_served(
    request: &StatusIpcRequest,
    query: Result<StatusQuery, StatusIpcResponse>,
)
    requires
        call_ensures(dispatch_status_request, (request,), query),
    ensures
        request.method@ == "status/summary"@ <==> query == Ok::<StatusQuery, StatusIpcResponse>(
            StatusQuery::Summary,
        ),
        request.method@ == "thread/loaded/list"@ <==> query == Ok::<StatusQuery, StatusIpcResponse>(
            StatusQuery::LoadedList,
        ),
        request.method@ == "thread/read"@ <==> query == Ok::<StatusQuery, StatusIpcResponse>(
            StatusQuery::ThreadRead,
        ),
        request.method@ == "agent/tree"@ <==> query == Ok::<StatusQuery, StatusIpcResponse>(
            StatusQuery::AgentTree,
        ),
        query is Err ==> !query->Err_0.ok && query->Err_0.result is None && query->Err_0.error
            is Some && query->Err_0.error->0@ == "method `"@ + request.method@
            + "` is not available on read-only status IPC"@,
{
    reveal_strlit("status/summary");
    reveal_strlit("thread/loaded/list");
    reveal_strlit("thread/read");
    reveal_strlit("agent/tree");
    assert("status/summary"@.len() == 14 && "thread/loaded/list"@.len() == 18);
    assert("thread/read"@.len() == 11 && "agent/tree"@.len() == 10);
}

/// A client reads what the server serialised, and else why there is no result.
pub proof fn lemma_a_client_reads_what_was_sent(
    serialized: Result<serde_json::Value, String>,
    sent: StatusIpcResponse,
    read: Result<serde_json::Value, String>,
)
    requires
        call_ensures(StatusIpcResponse::ok, (serialized,), sent),
        call_ensures(StatusIpcResponse::into_result, (sent,), read),
    ensures
        sent.ok <==> serialized is Ok,
        sent.result is Some <==> serialized is Ok,
        sent.error is Some <==> serialized is Err,
        serialized is Ok ==> read == Ok::<serde_json::Value, String>(serialized->Ok_0),
        serialized is Err ==> read is Err && read->Err_0@
            == "failed to serialize status response: "@ + serialized->Err_0@,
{
}

/// A client reads the error that was sent, and no result where there is none.
pub proof fn lemma_a_client_reads_errors(
    message: String,
    line: &str,
    sent: StatusIpcResponse,
    refused: StatusIpcResponse,
    any: StatusIpcResponse,
    read: Result<serde_json::Value, String>,
    read_any: Result<serde_json::Value, String>,
)
    requires
        call_ensures(StatusIpcResponse::error, (message,), sent),
        call_ensures(invalid_request_response, (line,), refused),
        call_ensures(StatusIpcResponse::into_result, (sent,), read),
        call_ensures(StatusIpcResponse::into_result, (any,), read_any),
    ensures
        read == Err::<serde_json::Value, String>(message),
        !refused.ok && refused.result is None && refused.error is Some && refused.error->0@
            == "invalid status IPC request: "@ + line@,
        read_any is Ok <==> any.ok && any.result is Some,
        !any.ok && any.error is None ==> read_any->Err_0@ == "status IPC request failed"@,
        any.ok && any.result is None ==> read_any->Err_0@ == "status IPC response omitted result"@,
{
}

/// The status files of a process lie in the status directory and are named after it.
pub proof fn lemma_status_files(codex_home: &str, pid: u32, paths: StatusIpcPaths)
    requires
        call_ensures(status_paths, (codex_home, pid), paths),
        codex_home@.len() > 0,
        codex_home@.last() != '/',
    ensures
        paths.dir@ == codex_home@ + "/tui-status"@,
        paths.metadata_path@ == codex_home@ + "/tui-status/"@ + decimal(pid as nat) + ".json"@,
        paths.socket_path@ == codex_home@ + "/tui-status/"@ + decimal(pid as nat) + ".sock"@,
{
    reveal_strlit("tui-status");
    reveal_strlit("/tui-status");
    reveal_strlit("/tui-status/");
    reveal_strlit("/");
    crate::text::lemma_decimal_plain(pid as nat);
    let number = decimal(pid as nat);
    let dir = codex_home@ + "/tui-status"@;
    assert(codex_home@ + "/"@ + "tui-status"@ =~= dir);
    assert(dir.last() != '/');
    assert(number.len() > 0);
    assert((number + ".json"@)[0] == number[0]);
    assert((number + ".sock"@)[0] == number[0]);
    assert(dir + "/"@ + (number + ".json"@) =~= codex_home@ + "/tui-status/"@ + number + ".json"@);
    assert(dir + "/"@ + (number + ".sock"@) =~= codex_home@ + "/tui-status/"@ + number + ".sock"@);
}

/// The metadata of a server tells what it was started with, and the socket that it
/// listens on.
pub proof fn lemma_server_metadata(
    args: StatusIpcServerArgs,
    pid: u32,
    started_at: i64,
    server: (StatusIpcPaths, StatusMetadata),
)
    requires
        call_ensures(server_metadata, (args, pid, started_at), server),
    ensures
        server.1.pid == pid,
        server.1.cwd == args.cwd,
        server.1.root_thread_id == args.root_thread_id,
        server.1.session_id == args.session_id,
        server.1.started_at == started_at,
        server.1.version == args.version,
        server.1.socket_path == server.0.socket_path,
        server.0.socket_path@ != server.0.metadata_path@,
{
    crate::status_ipc::lemma_status_paths_distinct(args.codex_home@, pid, pid);
}

/// The server serves a client unless it was asked to stop, waits where there is none, and
/// stops where it cannot look for one.
pub proof fn lemma_serving(outcome: AcceptOutcome, shutdown: bool, step: ServeStep)
    requires
        call_ensures(serve_step, (outcome, shutdown), step),
    ensures
        step == ServeStep::Serve <==> outcome == AcceptOutcome::Client && !shutdown,
        step == ServeStep::Sleep <==> outcome == AcceptOutcome::WouldBlock,
{
}

/// Only the owner can open the status files, and neither side waits for the other longer
/// than three quarters of a second.
pub proof fn lemma_status_limits()
    ensures
        crate::status_ipc::STATUS_DIR_MODE == 7 * 64,
        crate::status_ipc::STATUS_FILE_MODE == 6 * 64,
        4 * crate::status_ipc::IPC_TIMEOUT_MS == 3 * 1000,
        40 * crate::status_ipc::ACCEPT_SLEEP_MS == 1000,
        crate::status_ipc::LOADED_LIST_LIMIT == 100,
        crate::status_ipc::REQUEST_ID_START == 10 * 1_000_000_000,
{
}

/// The threads that could be read and are active, each as often as it was read.
pub open spec fn active_reads(reads: Seq<Result<Thread, String>>) -> Seq<Result<Thread, String>> {
    reads.filter(|read: Result<Thread, String>| read is Ok && read->Ok_0.status is Active)
}

proof fn lemma_active_count(reads: Seq<Result<Thread, String>>)
    ensures
        active_count(reads) == active_reads(reads).len(),
    decreases reads.len(),
{
    let pred = |read: Result<Thread, String>| read is Ok && read->Ok_0.status is Active;
    if reads.len() > 0 {
        let rest = reads.drop_last();
        lemma_active_count(rest);
        assert(reads =~= rest.push(reads.last()));
        rest.lemma_filter_push(reads.last(), pred);
    } else {
        reveal(Seq::filter);
    }
}

/// Whether the thread read at `i` is the first that could be read and that nothing
/// spawned.
pub open spec fn first_unspawned(reads: Seq<Result<Thread, String>>, i: int) -> bool {
    &&& 0 <= i < reads.len()
    &&& reads[i] is Ok && reads[i]->Ok_0.parent_thread_id is None
    &&& forall|j: int|
        0 <= j < i ==> !((#[trigger] reads[j]) is Ok && reads[j]->Ok_0.parent_thread_id is None)
}

/// Whether the thread read at `i` is the first that could be read and has the id `id`.
pub open spec fn first_named(
    reads: Seq<Result<Thread, String>>,
    id: Seq<char>,
    i: int,
) -> bool {
    &&& 0 <= i < reads.len()
    &&& reads[i] is Ok && reads[i]->Ok_0.id@ == id
    &&& forall|j: int|
        0 <= j < i ==> !((#[trigger] reads[j]) is Ok && reads[j]->Ok_0.id@ == id)
}

proof fn lemma_first_parentless(reads: Seq<Result<Thread, String>>)
    ensures
        first_parentless(reads) is None <==> forall|i: int| !first_unspawned(reads, i),
        forall|i: int|
            #[trigger] first_unspawned(reads, i) ==> first_parentless(reads) == Some(
                reads[i]->Ok_0,
            ),
    decreases reads.len(),
{
    if reads.len() > 0 {
        let rest = reads.drop_last();
        lemma_first_parentless(rest);
        assert(forall|i: int| 0 <= i < rest.len() ==> rest[i] == #[trigger] reads[i]);
        let n = reads.len() - 1;
        assert forall|i: int| #[trigger] first_unspawned(reads, i) implies first_parentless(reads)
            == Some(reads[i]->Ok_0) by {
            if i < n {
                assert(first_unspawned(rest, i));
            } else {
                assert forall|k: int| !first_unspawned(rest, k) by {
                    if first_unspawned(rest, k) {
                        assert(reads[k] is Ok && reads[k]->Ok_0.parent_thread_id is None);
                    }
                }
            }
        }
        if first_parentless(rest) is Some {
            let k = choose|k: int| first_unspawned(rest, k);
            assert(first_unspawned(reads, k));
        } else if first_parentless(reads) is Some {
            assert forall|j: int| 0 <= j < n implies !((#[trigger] reads[j]) is Ok
                && reads[j]->Ok_0.parent_thread_id is None) by {
                if reads[j] is Ok && reads[j]->Ok_0.parent_thread_id is None {
                    lemma_some_first(rest, j);
                }
            }
            assert(first_unspawned(reads, n));
        }
    }
}

proof fn lemma_some_first(reads: Seq<Result<Thread, String>>, j: int)
    requires
        0 <= j < reads.len(),
        reads[j] is Ok && reads[j]->Ok_0.parent_thread_id is None,
    ensures
        exists|i: int| first_unspawned(reads, i),
    decreases j,
{
    if exists|k: int|
        0 <= k < j && (#[trigger] reads[k]) is Ok && reads[k]->Ok_0.parent_thread_id is None {
        let k = choose|k: int|
            0 <= k < j && (#[trigger] reads[k]) is Ok && reads[k]->Ok_0.parent_thread_id is None;
        lemma_some_first(reads, k);
    } else {
        assert(first_unspawned(reads, j));
    }
}

proof fn lemma_some_named(reads: Seq<Result<Thread, String>>, id: Seq<char>, j: int)
    requires
        0 <= j < reads.len(),
        reads[j] is Ok && reads[j]->Ok_0.id@ == id,
    ensures
        exists|i: int| first_named(reads, id, i),
    decreases j,
{
    if exists|k: int| 0 <= k < j && (#[trigger] reads[k]) is Ok && reads[k]->Ok_0.id@ == id {
        let k = choose|k: int|
            0 <= k < j && (#[trigger] reads[k]) is Ok && reads[k]->Ok_0.id@ == id;
        lemma_some_named(reads, id, k);
    } else {
        assert(first_named(reads, id, j));
    }
}

proof fn lemma_first_with_id(reads: Seq<Result<Thread, String>>, id: Seq<char>)
    ensures
        first_with_id(reads, id) is None <==> forall|i: int| !first_named(reads, id, i),
        forall|i: int|
            #[trigger] first_named(reads, id, i) ==> first_with_id(reads, id) == Some(
                reads[i]->Ok_0,
            ),
    decreases reads.len(),
{
    if reads.len() > 0 {
        let rest = reads.drop_last();
        lemma_first_with_id(rest, id);
        assert(forall|i: int| 0 <= i < rest.len() ==> rest[i] == #[trigger] reads[i]);
        let n = reads.len() - 1;
        assert forall|i: int| #[trigger] first_named(reads, id, i) implies first_with_id(reads, id)
            == Some(reads[i]->Ok_0) by {
            if i < n {
                assert(first_named(rest, id, i));
            } else {
                assert forall|k: int| !first_named(rest, id, k) by {
                    if first_named(rest, id, k) {
                        assert(reads[k] is Ok && reads[k]->Ok_0.id@ == id);
                    }
                }
            }
        }
        if first_with_id(rest, id) is Some {
            let k = choose|k: int| first_named(rest, id, k);
            assert(first_named(reads, id, k));
        } else if first_with_id(reads, id) is Some {
            assert forall|j: int| 0 <= j < n implies !((#[trigger] reads[j]) is Ok
                && reads[j]->Ok_0.id@ == id) by {
                if reads[j] is Ok && reads[j]->Ok_0.id@ == id {
                    lemma_some_named(rest, id, j);
                }
            }
            assert(first_named(reads, id, n));
        }
    }
}

/// Whether `summary` is that of a session with the threads `reads`: it counts the loaded
/// threads and the active ones among them, and names the root thread and the session that
/// the metadata names, or else the first thread that nothing spawned, and the session of
/// the root thread.
pub open spec fn sums_up(
    summary: StatusSummary,
    metadata: StatusMetadata,
    count: nat,
    reads: Seq<Result<Thread, String>>,
) -> bool {
    &&& summary.alive
    &&& summary.pid == metadata.pid
    &&& summary.cwd@ == metadata.cwd@
    &&& summary.started_at == metadata.started_at
    &&& summary.version@ == metadata.version@
    &&& summary.loaded_thread_count == count
    &&& summary.active_thread_count == active_reads(reads).len()
    &&& metadata.root_thread_id is Some ==> summary.root_thread_id is Some
        && summary.root_thread_id->0@ == metadata.root_thread_id->0@
    &&& metadata.root_thread_id is None ==> forall|i: int| #[trigger]
        first_unspawned(reads, i) ==> summary.root_thread_id is Some && summary.root_thread_id->0@
            == reads[i]->Ok_0.id@
    &&& metadata.root_thread_id is None && (forall|i: int| !first_unspawned(reads, i))
        ==> summary.root_thread_id is None
    &&& metadata.session_id is Some ==> summary.session_id is Some && summary.session_id->0@
        == metadata.session_id->0@
    &&& metadata.session_id is None && metadata.root_thread_id is Some ==> forall|i: int|
        #[trigger]
        first_named(reads, metadata.root_thread_id->0@, i) ==> summary.session_id is Some
            && summary.session_id->0@ == reads[i]->Ok_0.session_id@
    &&& metadata.session_id is None && metadata.root_thread_id is Some && (forall|i: int|
        !first_named(reads, metadata.root_thread_id->0@, i)) ==> summary.session_id is None
    &&& metadata.session_id is None && metadata.root_thread_id is None ==> forall|i: int|
        #[trigger]
        first_unspawned(reads, i) ==> summary.session_id is Some && summary.session_id->0@
            == reads[i]->Ok_0.session_id@
    &&& metadata.session_id is None && metadata.root_thread_id is None && (forall|i: int|
        !first_unspawned(reads, i)) ==> summary.session_id is None
}

proof fn lemma_summarizes(
    summary: StatusSummary,
    metadata: StatusMetadata,
    ids: Seq<String>,
    reads: Seq<Result<Thread, String>>,
)
    requires
        summarizes(summary, metadata, ids, reads),
    ensures
        sums_up(summary, metadata, ids.len(), reads),
{
    lemma_active_count(reads);
    lemma_first_parentless(reads);
    if metadata.root_thread_id is Some {
        lemma_first_with_id(reads, metadata.root_thread_id->0@);
    }
}

/// A session is summed up as it is.
pub proof fn lemma_summary(
    metadata: &StatusMetadata,
    ids: &Vec<String>,
    reads: &Vec<Result<Thread, String>>,
    summary: StatusSummary,
)
    requires
        reads@.len() == ids@.len(),
        call_ensures(status_summary, (metadata, ids, reads), summary),
    ensures
        sums_up(summary, *metadata, ids@.len(), reads@),
{
    lemma_summarizes(summary, *metadata, ids@, reads@);
}

/// Each request of the interface has an id of its own, the next number; it lists loaded
/// threads page by page, and reads threads without their turns.
pub proof fn lemma_requests_only_read()
    ensures
        forall|ids: &mut RequestIds, id: i64| #[trigger]
            call_ensures(RequestIds::next_status_request_id, (ids,), id) ==> id == ids.next && (
            id < i64::MAX ==> final(ids).next == id + 1) && final(ids).next != id,
        forall|ids: &mut RequestIds, loaded: &LoadedThreads, request: ServerRequest| #[trigger]
            call_ensures(RequestIds::loaded_list_request, (ids, loaded), request) ==> request
                is ThreadLoadedList && request->ThreadLoadedList_request_id == ids.next
                && request->cursor == loaded.cursor && request->limit == Some(100u32)
                && final(ids).next != ids.next,
        forall|ids: &mut RequestIds, thread_id: String, request: ServerRequest| #[trigger]
            call_ensures(RequestIds::thread_read_request, (ids, thread_id), request) ==> request
                is ThreadRead && request->ThreadRead_request_id == ids.next && request->thread_id
                == thread_id && !request->include_turns && final(ids).next != ids.next,
{
}

/// What the app server is asked for next: the page behind the last one, and then the
/// first thread that has not been read.
pub proof fn lemma_next_request(run: &StatusRun)
    requires
        run.wf(),
    ensures
        forall|ids: &mut RequestIds, request: ServerRequest| #[trigger]
            call_ensures(StatusRun::next_request, (run, ids), request) ==> (run.progress is Listing
                ==> request is ThreadLoadedList && request->cursor
                == run.progress->Listing_0.cursor && request->limit == Some(100u32)
                && request->ThreadLoadedList_request_id == ids.next) && (run.progress is Reading
                ==> request is ThreadRead && request->thread_id
                == run.progress->ids@[run.progress->reads@.len() as int] && !request->include_turns
                && request->ThreadRead_request_id == ids.next) && final(ids).next != ids.next,
{
}

/// Whether `ids` are `a` and `b`, sorted, each of them once.
pub open spec fn lists_both(ids: Seq<String>, a: Seq<String>, b: Seq<String>) -> bool {
    &&& forall|i: int, j: int|
        0 <= i < j < ids.len() ==> crate::text::lex_less(
            (#[trigger] ids[i])@,
            (#[trigger] ids[j])@,
        )
    &&& forall|i: int| 0 <= i < ids.len() ==> says_id(a, (#[trigger] ids[i])@) || says_id(b, ids[i]@)
    &&& forall|i: int| 0 <= i < a.len() ==> says_id(ids, (#[trigger] a[i])@)
    &&& forall|i: int| 0 <= i < b.len() ==> says_id(ids, (#[trigger] b[i])@)
}

/// Whether one of `ids` is `id`.
pub open spec fn says_id(ids: Seq<String>, id: Seq<char>) -> bool {
    exists|i: int| 0 <= i < ids.len() && (#[trigger] ids[i])@ == id
}

proof fn lemma_lists_both(ids: Vec<String>, a: Vec<String>, b: Vec<String>)
    requires
        crate::order::increasing(ids.deep_view()),
        ids.deep_view().to_set() == (a.deep_view() + b.deep_view()).to_set(),
    ensures
        lists_both(ids@, a@, b@),
{
    let all = a.deep_view() + b.deep_view();
    let told = ids.deep_view();
    assert forall|i: int, j: int| 0 <= i < j < ids@.len() implies crate::text::lex_less(
        (#[trigger] ids@[i])@,
        (#[trigger] ids@[j])@,
    ) by {
        assert(told[i] == ids@[i]@ && told[j] == ids@[j]@);
    }
    assert forall|i: int| 0 <= i < ids@.len() implies says_id(a@, (#[trigger] ids@[i])@) || says_id(
        b@,
        ids@[i]@,
    ) by {
        assert(told[i] == ids@[i]@);
        assert(told.to_set().contains(told[i]));
        assert(all.to_set().contains(told[i]));
        let k = all.index_of(told[i]);
        if k < a@.len() {
            assert(a@[k]@ == told[i]);
        } else {
            assert(b@[k - a@.len()]@ == told[i]);
        }
    }
    assert forall|i: int| 0 <= i < a@.len() implies says_id(ids@, (#[trigger] a@[i])@) by {
        assert(all[i] == a@[i]@);
        assert(all.to_set().contains(all[i]));
        assert(told.to_set().contains(all[i]));
        let k = told.index_of(all[i]);
        assert(ids@[k]@ == all[i]);
    }
    assert forall|i: int| 0 <= i < b@.len() implies says_id(ids@, (#[trigger] b@[i])@) by {
        let m = a@.len() + i;
        assert(all[m] == b@[i]@);
        assert(all.to_set().contains(all[m]));
        assert(told.to_set().contains(all[m]));
        let k = told.index_of(all[m]);
        assert(ids@[k]@ == all[m]);
    }
}

/// Pages of loaded threads are put together; the last one leaves all ids, sorted, each of
/// them once; a page that cannot be had ends it.
pub proof fn lemma_loaded_threads_are_listed(
    loaded: LoadedThreads,
    page: Result<LoadedPage, String>,
    step: LoadedStep,
)
    requires
        call_ensures(LoadedThreads::load_all_thread_ids, (loaded, page), step),
    ensures
        page is Err ==> step is Failed && step->Failed_0@ == "thread/loaded/list failed: "@
            + page->Err_0@,
        page is Ok && page->Ok_0.next_cursor is Some ==> step is More && step->More_0.cursor
            == page->Ok_0.next_cursor && step->More_0.ids@ == loaded.ids@ + page->Ok_0.data@,
        page is Ok && page->Ok_0.next_cursor is None ==> step is Complete && lists_both(
            step->Complete_0@,
            loaded.ids@,
            page->Ok_0.data@,
        ),
{
    if page is Ok && page->Ok_0.next_cursor is None {
        lemma_lists_both(step->Complete_0, loaded.ids, page->Ok_0.data);
    }
}

/// What a client asked for that is answered at the end: the sum of the session, the ids
/// of its threads, one thread, or the tree of all threads.
pub open spec fn replies(
    end: StatusEnd,
    query: StatusQuery,
    metadata: StatusMetadata,
    ids: Seq<String>,
    reads: Seq<Result<Thread, String>>,
) -> bool {
    &&& query is Summary ==> end is Reply && end->Reply_0 is Summary && sums_up(
        end->Reply_0->Summary_0,
        metadata,
        ids.len(),
        reads,
    )
    &&& query is LoadedList ==> end is Reply && end->Reply_0 is LoadedList
        && end->Reply_0->LoadedList_0.thread_ids@ == ids
    &&& query is ThreadRead && reads[0] is Ok ==> end is Reply && end->Reply_0 is Thread
        && tells_thread(end->Reply_0->Thread_0, reads[0]->Ok_0) && tells_place(
        end->Reply_0->Thread_0,
        reads[0]->Ok_0,
    ) && tells_summary(end->Reply_0->Thread_0.summary, reads[0]->Ok_0)
    &&& query is ThreadRead && reads[0] is Err ==> end is Error && end->Error_0@
        == "thread/read failed: "@ + reads[0]->Err_0@
    &&& query is AgentTree && distinct_reads(reads) ==> end is Reply && end->Reply_0 is Tree
        && nests_threads(end->Reply_0->Tree_0, reads)
}

/// Whether no two of the threads that were read share an id.
pub open spec fn distinct_reads(reads: Seq<Result<Thread, String>>) -> bool {
    forall|i: int, j: int|
        0 <= i < j < reads.len() ==> (#[trigger] reads[i])->Ok_0.id@ != (
        #[trigger] reads[j])->Ok_0.id@
}

/// Whether `info` is what is told of a thread: its id, its spawner, its role as the agent
/// type, and its nickname.
pub open spec fn is_told(info: ThreadInfo, thread: Thread) -> bool {
    &&& info.thread_id == thread.id@
    &&& info.session_id == Some(thread.session_id@)
    &&& info.parent_thread_id == thread.parent_thread_id.deep_view()
    &&& info.cwd == Some(thread.cwd@)
    &&& info.path == thread.path.deep_view()
    &&& info.agent_type == thread.agent_role.deep_view()
    &&& info.agent_nickname == thread.agent_nickname.deep_view()
    &&& thread.status is Active <==> info.status == "active"@
    &&& thread.status is Idle <==> info.status == "idle"@
    &&& thread.status is NotLoaded <==> info.status == "not_loaded"@
    &&& forall|path: Seq<char>| #[trigger]
        spawned_at(thread, path) ==> info.agent_path == Some(path)
    &&& !(thread.source is ThreadSpawn && thread.source->agent_path is Some)
        && thread.parent_thread_id is None ==> info.agent_path == Some("/root"@)
    &&& thread.name is Some ==> info.summary == Some(thread.name->0@)
}

/// Whether one of the threads that were read is told as `info` and was spawned by
/// `parent`.
pub open spec fn tells_a_read(
    info: ThreadInfo,
    reads: Seq<Result<Thread, String>>,
    parent: Option<Seq<char>>,
) -> bool {
    exists|k: int|
        0 <= k < reads.len() && is_told(info, (#[trigger] reads[k])->Ok_0)
            && reads[k]->Ok_0.parent_thread_id.deep_view() == parent
}

/// Whether one of `trees` is that of `thread`.
pub open spec fn is_in(thread: Thread, trees: Seq<crate::agent_tree::Tree>) -> bool {
    exists|i: int| 0 <= i < trees.len() && is_told((#[trigger] trees[i]).thread, thread)
}

/// Whether `trees` are those of the threads that were read and that `parent` spawned, all
/// of them and no others, by path and id.
pub open spec fn holds_reads(
    trees: Seq<crate::agent_tree::Tree>,
    reads: Seq<Result<Thread, String>>,
    parent: Option<Seq<char>>,
) -> bool {
    &&& forall|i: int|
        0 <= i < trees.len() ==> tells_a_read((#[trigger] trees[i]).thread, reads, parent)
    &&& forall|k: int|
        0 <= k < reads.len() && (
        #[trigger] reads[k])->Ok_0.parent_thread_id.deep_view() == parent ==> is_in(
            reads[k]->Ok_0,
            trees,
        )
    &&& forall|i: int, j: int|
        0 <= i < j < trees.len() ==> crate::agent_tree_laws::stands_ahead(
            (#[trigger] trees[i]).thread,
            (#[trigger] trees[j]).thread,
        )
}

/// Whether `tree` holds the threads that nothing spawned and, below each thread of the
/// tree, however deep, the threads that it spawned.
pub open spec fn nests_threads(
    tree: AgentTreeResponse,
    reads: Seq<Result<Thread, String>>,
) -> bool {
    &&& holds_reads(tree.deep_view(), reads, None)
    &&& forall|path: Seq<int>| #[trigger]
        crate::agent_tree_laws::tree_at(tree.deep_view(), path) is Some ==> holds_reads(
            crate::agent_tree_laws::tree_at(tree.deep_view(), path)->0.children,
            reads,
            Some(crate::agent_tree_laws::tree_at(tree.deep_view(), path)->0.thread.thread_id),
        )
}

proof fn lemma_is_told(info: ThreadInfo, thread: Thread)
    requires
        crate::agent_tree_laws::told_as(info, crate::thread::status_info(thread)),
    ensures
        is_told(info, thread),
{
    lemma_status_words();
}

proof fn lemma_holds_reads(
    trees: Seq<crate::agent_tree::Tree>,
    reads: Seq<Result<Thread, String>>,
    parent: Option<Seq<char>>,
)
    requires
        crate::agent_tree_laws::holds_spawned(trees, read_infos(reads), parent),
    ensures
        holds_reads(trees, reads, parent),
{
    let infos = read_infos(reads);
    assert forall|i: int| 0 <= i < trees.len() implies tells_a_read(
        (#[trigger] trees[i]).thread,
        reads,
        parent,
    ) by {
        assert(crate::agent_tree_laws::tells_a_child(trees[i].thread, infos, parent));
        let k = choose|k: int|
            0 <= k < infos.len() && crate::agent_tree_laws::told_as(
                trees[i].thread,
                #[trigger] infos[k],
            ) && infos[k].parent_thread_id == parent;
        lemma_is_told(trees[i].thread, reads[k]->Ok_0);
    }
    assert forall|k: int| 0 <= k < reads.len() && (
    #[trigger] reads[k])->Ok_0.parent_thread_id.deep_view() == parent implies is_in(
        reads[k]->Ok_0,
        trees,
    ) by {
        assert(infos[k].parent_thread_id == parent);
        assert(crate::agent_tree_laws::is_among(infos[k], trees));
        let i = choose|i: int|
            0 <= i < trees.len() && crate::agent_tree_laws::told_as(
                (#[trigger] trees[i]).thread,
                infos[k],
            );
        lemma_is_told(trees[i].thread, reads[k]->Ok_0);
    }
}

proof fn lemma_nests(tree: AgentTreeResponse, reads: Seq<Result<Thread, String>>)
    requires
        distinct_reads(reads),
        crate::agent_tree::is_agent_tree(tree.deep_view(), read_infos(reads)),
    ensures
        nests_threads(tree, reads),
{
    let infos = read_infos(reads);
    let forest = tree.deep_view();
    assert(crate::agent_tree_laws::distinct_ids(infos)) by {
        assert forall|i: int, j: int| 0 <= i < j < infos.len() implies (
        #[trigger] infos[i]).thread_id != (#[trigger] infos[j]).thread_id by {
            assert(reads[i]->Ok_0.id@ != reads[j]->Ok_0.id@);
        }
    }
    crate::agent_tree_laws::lemma_threads_stand_below_their_spawner(forest, infos, seq![]);
    lemma_holds_reads(forest, reads, None);
    assert forall|path: Seq<int>| #[trigger]
        crate::agent_tree_laws::tree_at(forest, path) is Some implies holds_reads(
        crate::agent_tree_laws::tree_at(forest, path)->0.children,
        reads,
        Some(crate::agent_tree_laws::tree_at(forest, path)->0.thread.thread_id),
    ) by {
        let at = crate::agent_tree_laws::tree_at(forest, path)->0;
        crate::agent_tree_laws::lemma_threads_stand_below_their_spawner(forest, infos, path);
        lemma_holds_reads(at.children, reads, Some(at.thread.thread_id));
    }
}

proof fn lemma_replies(
    end: StatusEnd,
    query: StatusQuery,
    metadata: StatusMetadata,
    ids: Seq<String>,
    reads: Seq<Result<Thread, String>>,
)
    requires
        crate::status_request::answers_query(end, query, metadata, ids, reads),
    ensures
        replies(end, query, metadata, ids, reads),
{
    match query {
        StatusQuery::Summary => {
            lemma_summarizes(end->Reply_0->Summary_0, metadata, ids, reads);
        },
        StatusQuery::LoadedList => {},
        StatusQuery::ThreadRead => {
            if reads[0] is Ok {
                lemma_info_tells(end->Reply_0->Thread_0, reads[0]->Ok_0);
            }
        },
        StatusQuery::AgentTree => {
            if distinct_reads(reads) {
                let infos = read_infos(reads);
                assert(crate::agent_tree_laws::distinct_ids(infos)) by {
                    assert forall|i: int, j: int| 0 <= i < j < infos.len() implies (
                    #[trigger] infos[i]).thread_id != (#[trigger] infos[j]).thread_id by {
                        assert(reads[i]->Ok_0.id@ != reads[j]->Ok_0.id@);
                    }
                }
                crate::agent_tree_laws::lemma_distinct_ids_have_agent_tree(infos);
                lemma_nests(end->Reply_0->Tree_0, reads);
            }
        },
    }
}

/// The tree of threads with distinct ids that could all be read; where one could not be
/// read, the first failure is told.
pub proof fn lemma_tree_of_reads(
    reads: Vec<Result<Thread, String>>,
    tree: Result<Option<AgentTreeResponse>, String>,
    i: int,
)
    requires
        call_ensures(agent_tree, (reads,), tree),
    ensures
        (forall|k: int| 0 <= k < reads@.len() ==> (#[trigger] reads@[k]) is Ok) ==> tree is Ok,
        tree is Ok ==> forall|k: int| 0 <= k < reads@.len() ==> (#[trigger] reads@[k]) is Ok,
        tree is Ok && distinct_reads(reads@) ==> tree->Ok_0 is Some && nests_threads(
            tree->Ok_0->0,
            reads@,
        ),
        0 <= i < reads@.len() && reads@[i] is Err && (forall|k: int|
            0 <= k < i ==> (#[trigger] reads@[k]) is Ok) ==> tree is Err && tree->Err_0@
            == "thread/read failed: "@ + reads@[i]->Err_0@,
{
    if tree is Ok && distinct_reads(reads@) {
        let infos = read_infos(reads@);
        assert(crate::agent_tree_laws::distinct_ids(infos)) by {
            assert forall|i: int, j: int| 0 <= i < j < infos.len() implies (
            #[trigger] infos[i]).thread_id != (#[trigger] infos[j]).thread_id by {
                assert(reads@[i]->Ok_0.id@ != reads@[j]->Ok_0.id@);
            }
        }
        crate::agent_tree_laws::lemma_distinct_ids_have_agent_tree(infos);
        lemma_nests(tree->Ok_0->0, reads@);
    }
    if tree is Err {
        let at = choose|at: int|
            0 <= at < reads@.len() && all_read(reads@.take(at)) && (#[trigger] reads@[at]) is Err
                && tree->Err_0@ == "thread/read failed: "@ + reads@[at]->Err_0@;
        if 0 <= i < at {
            assert(reads@.take(at)[i] is Ok);
        }
    }
}

/// How an answer begins: a request for one thread reads it, where the request names one;
/// every other request lists the loaded threads first.
pub proof fn lemma_answer_begins(
    query: StatusQuery,
    params: Result<ThreadReadStatusParams, String>,
    turn: StatusTurn,
)
    requires
        call_ensures(StatusRun::begin, (query, params), turn),
    ensures
        query is ThreadRead && params is Err ==> turn is End && turn->End_0 is Error
            && turn->End_0->Error_0@ == "invalid thread/read params: "@ + params->Err_0@,
        query is ThreadRead && params is Ok ==> turn is Ask && turn->Ask_0.query == query
            && turn->Ask_0.progress is Reading && turn->Ask_0.progress->ids@.len() == 1
            && turn->Ask_0.progress->ids@[0] == params->Ok_0.thread_id
            && turn->Ask_0.progress->reads@.len() == 0,
        !(query is ThreadRead) ==> turn is Ask && turn->Ask_0.query == query
            && turn->Ask_0.progress is Listing && turn->Ask_0.progress->Listing_0.ids@.len() == 0
            && turn->Ask_0.progress->Listing_0.cursor is None,
{
}

/// Each thread that is read is kept with those before it, until all of them are there;
/// then the client is answered. A tree is refused as soon as one cannot be read.
pub proof fn lemma_threads_are_read(
    run: StatusRun,
    read: Result<Thread, String>,
    metadata: &StatusMetadata,
    turn: StatusTurn,
)
    requires
        run.wf(),
        run.progress is Reading,
        call_ensures(StatusRun::read, (run, read, metadata), turn),
    ensures
        ({
            let ids = run.progress->ids@;
            let reads = run.progress->reads@.push(read);
            &&& run.query is AgentTree && read is Err ==> turn is End && turn->End_0 is Error
                && turn->End_0->Error_0@ == "thread/read failed: "@ + read->Err_0@
            &&& !(run.query is AgentTree && read is Err) && reads.len() < ids.len() ==> turn is Ask
                && turn->Ask_0.query == run.query && turn->Ask_0.progress is Reading
                && turn->Ask_0.progress->ids@ == ids && turn->Ask_0.progress->reads@ == reads
            &&& !(run.query is AgentTree && read is Err) && reads.len() >= ids.len() ==> turn is End
                && replies(turn->End_0, run.query, *metadata, ids, reads)
        }),
{
    let ids = run.progress->ids@;
    let reads = run.progress->reads@.push(read);
    if !(run.query is AgentTree && read is Err) && reads.len() >= ids.len() {
        lemma_replies(turn->End_0, run.query, *metadata, ids, reads);
    }
}

/// Whether a list of loaded threads leads to `turn`: a client that asked for it is told
/// it; another one waits until the threads are read, where there are any.
pub open spec fn goes_on_with(
    turn: StatusTurn,
    query: StatusQuery,
    metadata: StatusMetadata,
    ids: Seq<String>,
) -> bool {
    &&& query is LoadedList || ids.len() == 0 ==> turn is End && replies(
        turn->End_0,
        query,
        metadata,
        ids,
        Seq::empty(),
    )
    &&& !(query is LoadedList) && ids.len() > 0 ==> turn is Ask && turn->Ask_0.query == query
        && turn->Ask_0.progress is Reading && turn->Ask_0.progress->ids@ == ids
        && turn->Ask_0.progress->reads@.len() == 0
}

/// Pages of loaded threads are asked for until there are no more; then the answer goes on
/// with all ids, sorted, each of them once.
pub proof fn lemma_threads_are_listed(
    run: StatusRun,
    page: Result<LoadedPage, String>,
    metadata: &StatusMetadata,
    turn: StatusTurn,
)
    requires
        run.wf(),
        run.progress is Listing,
        call_ensures(StatusRun::listed, (run, page, metadata), turn),
    ensures
        ({
            let loaded = run.progress->Listing_0;
            &&& page is Err ==> turn is End && turn->End_0 is Error && turn->End_0->Error_0@
                == "thread/loaded/list failed: "@ + page->Err_0@
            &&& page is Ok && page->Ok_0.next_cursor is Some ==> turn is Ask && turn->Ask_0.query
                == run.query && turn->Ask_0.progress is Listing
                && turn->Ask_0.progress->Listing_0.cursor == page->Ok_0.next_cursor
                && turn->Ask_0.progress->Listing_0.ids@ == loaded.ids@ + page->Ok_0.data@
            &&& page is Ok && page->Ok_0.next_cursor is None ==> exists|ids: Vec<String>|
                lists_both(ids@, loaded.ids@, page->Ok_0.data@) && #[trigger] goes_on_with(
                    turn,
                    run.query,
                    *metadata,
                    ids@,
                )
        }),
{
    let loaded = run.progress->Listing_0;
    if page is Ok && page->Ok_0.next_cursor is None {
        let data = page->Ok_0.data;
        let ids = choose|ids: Vec<String>|
            {
                &&& crate::order::increasing(ids.deep_view())
                &&& ids.deep_view().to_set() == (loaded.ids.deep_view()
                    + data.deep_view()).to_set()
                &&& #[trigger] crate::status_request::all_listed(turn, run.query, *metadata, ids)
            };
        lemma_lists_both(ids, loaded.ids, data);
        if run.query is LoadedList || ids@.len() == 0 {
            lemma_replies(turn->End_0, run.query, *metadata, ids@, Seq::empty());
        }
        assert(goes_on_with(turn, run.query, *metadata, ids@));
    }
}

/// Where the parts of the interface begin, and what they say where something is wrong.
pub proof fn lemma_beginnings_and_failures(
    ids: RequestIds,
    loaded: LoadedThreads,
    home: &str,
    dir: String,
    method: &str,
    allowed: bool,
    params: Result<ThreadReadStatusParams, String>,
    target: Result<String, String>,
    path: &str,
    err: &str,
    message: String,
)
    requires
        call_ensures(RequestIds::new, (), ids),
        call_ensures(LoadedThreads::new, (), loaded),
        call_ensures(status_dir, (home,), dir),
        call_ensures(is_read_only_method, (method,), allowed),
        call_ensures(thread_read_target, (params,), target),
        call_ensures(invalid_metadata_message, (path, err), message),
        home@.len() > 0,
        home@.last() != '/',
    ensures
        ids.next == 10 * 1_000_000_000,
        loaded.ids@.len() == 0 && loaded.cursor is None,
        dir@ == home@ + "/tui-status"@,
        allowed <==> method@ == "status/summary"@ || method@ == "thread/loaded/list"@ || method@
            == "thread/read"@ || method@ == "agent/tree"@,
        params is Ok ==> target is Ok && target->Ok_0 == params->Ok_0.thread_id,
        params is Err ==> target is Err && target->Err_0@ == "invalid thread/read params: "@
            + params->Err_0@,
        message@ == "invalid TUI status metadata "@ + path@ + ": "@ + err@,
{
    reveal_strlit("tui-status");
    reveal_strlit("/tui-status");
    reveal_strlit("/");
    assert(home@ + "/"@ + "tui-status"@ =~= home@ + "/tui-status"@);
}

} // verus!
