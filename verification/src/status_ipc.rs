//! The read-only status interface of a running terminal session.

use vstd::prelude::*;

use crate::agent_tree::{
    has_agent_tree, is_agent_tree, try_build_agent_tree, AgentTreeResponse, ThreadInfo,
    ThreadStatusView,
};
use crate::order::{increasing, sort_and_dedup};
use crate::paths::{join_path, joined_path};
use crate::text::{copy_opt, decimal, decimal_text, glue, glue3, glue4, same_text};
use crate::thread::{
    is_active_thread_status, status_info, thread_status_view_from_thread, Thread,
};

verus! {

/// `serde_json::Value`, which requests and responses carry.
#[verifier::external_type_specification]
#[verifier::external_body]
pub struct ExValue(serde_json::Value);

pub const METHOD_STATUS_SUMMARY: &'static str = "status/summary";

pub const METHOD_THREAD_LOADED_LIST: &'static str = "thread/loaded/list";

pub const METHOD_THREAD_READ: &'static str = "thread/read";

pub const METHOD_AGENT_TREE: &'static str = "agent/tree";

/// The directory of the status files, below the home directory of `codexx`.
pub const STATUS_DIR_NAME: &'static str = "tui-status";

/// The permissions of the status directory.
pub const STATUS_DIR_MODE: u32 = 0o700;

/// The permissions of the status files.
pub const STATUS_FILE_MODE: u32 = 0o600;

/// How long either side of the interface waits for the other.
pub const IPC_TIMEOUT_MS: u64 = 750;

/// How long the server waits between looks for a client.
pub const ACCEPT_SLEEP_MS: u64 = 25;

/// The first id that the interface gives to a request of its own.
pub const REQUEST_ID_START: i64 = 10_000_000_000;

/// How many threads are asked for at a time.
pub const LOADED_LIST_LIMIT: u32 = 100;

/// The status files of one process.
#[derive(Debug, Clone, PartialEq, Eq)]
pub struct StatusIpcPaths {
    pub dir: String,
    pub metadata_path: String,
    pub socket_path: String,
}

/// What the metadata file of a process tells.
#[derive(Debug, Clone, PartialEq, Eq)]
pub struct StatusMetadata {
    pub pid: u32,
    pub cwd: String,
    pub root_thread_id: Option<String>,
    pub session_id: Option<String>,
    pub socket_path: String,
    pub started_at: i64,
    pub version: String,
}

/// What a process tells of its session.
#[derive(Debug, PartialEq, Eq)]
pub struct StatusSummary {
    pub pid: u32,
    pub cwd: String,
    pub root_thread_id: Option<String>,
    pub session_id: Option<String>,
    pub alive: bool,
    pub loaded_thread_count: usize,
    pub active_thread_count: usize,
    pub started_at: i64,
    pub version: String,
}

impl Clone for StatusSummary {
    fn clone(&self) -> (copy: Self)
        ensures
            copy == *self,
    {
        StatusSummary {
            pid: self.pid,
            cwd: self.cwd.clone(),
            root_thread_id: copy_opt(&self.root_thread_id),
            session_id: copy_opt(&self.session_id),
            alive: self.alive,
            loaded_thread_count: self.loaded_thread_count,
            active_thread_count: self.active_thread_count,
            started_at: self.started_at,
            version: self.version.clone(),
        }
    }
}

/// The ids of the loaded threads.
#[derive(Debug, Clone, PartialEq, Eq)]
pub struct ThreadLoadedListStatusResponse {
    pub thread_ids: Vec<String>,
}

/// Which thread to read.
#[derive(Debug, Clone, PartialEq, Eq)]
pub struct ThreadReadStatusParams {
    pub thread_id: String,
}

/// A request of a client.
#[derive(Debug, PartialEq)]
pub struct StatusIpcRequest {
    pub method: String,
    pub params: serde_json::Value,
}

/// What a client is answered.
#[derive(Debug, PartialEq)]
pub struct StatusIpcResponse {
    pub ok: bool,
    pub result: Option<serde_json::Value>,
    pub error: Option<String>,
}

/// Whether `response` carries the result that serialising gave, or says why there
/// is none.
pub open spec fn answers(
    response: StatusIpcResponse,
    serialized: Result<serde_json::Value, String>,
) -> bool {
    match serialized {
        Ok(value) => response.ok && response.result == Some(value) && response.error is None,
        Err(err) => !response.ok && response.result is None && response.error is Some
            && response.error->0@ == "failed to serialize status response: "@ + err@,
    }
}

/// Whether `result` is what `response` tells a client.
pub open spec fn reads_as(
    response: StatusIpcResponse,
    result: Result<serde_json::Value, String>,
) -> bool {
    if !response.ok {
        result is Err && match response.error {
            Some(error) => result->Err_0 == error,
            None => result->Err_0@ == "status IPC request failed"@,
        }
    } else {
        match response.result {
            Some(value) => result == Ok::<serde_json::Value, String>(value),
            None => result is Err && result->Err_0@ == "status IPC response omitted result"@,
        }
    }
}

impl StatusIpcResponse {
    /// The answer that carries a result, which serialising may have failed to
    /// produce.
    pub fn ok(serialized: Result<serde_json::Value, String>) -> (response: Self)
        ensures
            answers(response, serialized),
    {
        match serialized {
            Ok(result) => StatusIpcResponse { ok: true, result: Some(result), error: None },
            Err(err) => StatusIpcResponse::error(
                glue("failed to serialize status response: ", err.as_str()),
            ),
        }
    }

    /// The answer that says what went wrong.
    pub fn error(error: String) -> (response: Self)
        ensures
            !response.ok,
            response.result is None,
            response.error == Some(error),
    {
        StatusIpcResponse { ok: false, result: None, error: Some(error) }
    }

    /// The result that an answer carries.
    pub fn into_result(self) -> (result: Result<serde_json::Value, String>)
        ensures
            reads_as(self, result),
    {
        if !self.ok {
            return Err(
                match self.error {
                    Some(error) => error,
                    None => "status IPC request failed".to_string(),
                },
            );
        }
        match self.result {
            Some(value) => Ok(value),
            None => Err("status IPC response omitted result".to_string()),
        }
    }
}

/// A client reads the result that the server sent, and the message where the
/// server sent an error.
pub proof fn lemma_response_round_trip(
    serialized: Result<serde_json::Value, String>,
    response: StatusIpcResponse,
    read: Result<serde_json::Value, String>,
)
    requires
        answers(response, serialized),
        reads_as(response, read),
    ensures
        match serialized {
            Ok(value) => read == Ok::<serde_json::Value, String>(value),
            Err(err) => read is Err && read->Err_0@ == "failed to serialize status response: "@
                + err@,
        },
{
}

/// The path of the metadata file of the process `pid`.
pub open spec fn metadata_path(codex_home: Seq<char>, pid: u32) -> Seq<char> {
    joined_path(joined_path(codex_home, STATUS_DIR_NAME@), decimal(pid as nat) + ".json"@)
}

/// The path of the socket of the process `pid`.
pub open spec fn socket_path(codex_home: Seq<char>, pid: u32) -> Seq<char> {
    joined_path(joined_path(codex_home, STATUS_DIR_NAME@), decimal(pid as nat) + ".sock"@)
}

/// The directory of the status files.
pub fn status_dir(codex_home: &str) -> (dir: String)
    ensures
        dir@ == joined_path(codex_home@, STATUS_DIR_NAME@),
{
    join_path(codex_home, STATUS_DIR_NAME)
}

/// The status files of the process `pid`.
pub fn status_paths(codex_home: &str, pid: u32) -> (paths: StatusIpcPaths)
    ensures
        paths.dir@ == joined_path(codex_home@, STATUS_DIR_NAME@),
        paths.metadata_path@ == metadata_path(codex_home@, pid),
        paths.socket_path@ == socket_path(codex_home@, pid),
{
    let dir = status_dir(codex_home);
    let number = decimal_text(pid as u64);
    StatusIpcPaths {
        metadata_path: join_path(dir.as_str(), glue(number.as_str(), ".json").as_str()),
        socket_path: join_path(dir.as_str(), glue(number.as_str(), ".sock").as_str()),
        dir,
    }
}

proof fn lemma_status_file(codex_home: Seq<char>, pid: u32, suffix: Seq<char>)
    ensures
        joined_path(joined_path(codex_home, STATUS_DIR_NAME@), decimal(pid as nat) + suffix)
            == joined_path(codex_home, STATUS_DIR_NAME@) + "/"@ + decimal(pid as nat) + suffix,
{
    reveal_strlit("tui-status");
    reveal_strlit("/");
    let dir = joined_path(codex_home, STATUS_DIR_NAME@);
    assert(dir.len() > 0 && dir.last() != '/');
    crate::text::lemma_decimal_plain(pid as nat);
    let number = decimal(pid as nat);
    assert(number.len() > 0);
    assert((number + suffix)[0] == number[0]);
    assert(dir + "/"@ + (number + suffix) =~= dir + "/"@ + number + suffix);
}

/// Two processes share no status file, and the metadata file of one is never the
/// socket of another.
pub proof fn lemma_status_paths_distinct(codex_home: Seq<char>, p: u32, q: u32)
    ensures
        metadata_path(codex_home, p) == metadata_path(codex_home, q) ==> p == q,
        socket_path(codex_home, p) == socket_path(codex_home, q) ==> p == q,
        metadata_path(codex_home, p) != socket_path(codex_home, q),
{
    reveal_strlit(".json");
    reveal_strlit(".sock");
    let head = joined_path(codex_home, STATUS_DIR_NAME@) + "/"@;
    let m = decimal(p as nat);
    let n = decimal(q as nat);
    lemma_status_file(codex_home, p, ".json"@);
    lemma_status_file(codex_home, q, ".json"@);
    lemma_status_file(codex_home, p, ".sock"@);
    lemma_status_file(codex_home, q, ".sock"@);
    if metadata_path(codex_home, p) == metadata_path(codex_home, q) {
        let a = head + m + ".json"@;
        let b = head + n + ".json"@;
        assert(m =~= a.subrange(head.len() as int, a.len() - 5));
        assert(n =~= b.subrange(head.len() as int, b.len() - 5));
        crate::text::lemma_decimal_injective(p as nat, q as nat);
    }
    if socket_path(codex_home, p) == socket_path(codex_home, q) {
        let a = head + m + ".sock"@;
        let b = head + n + ".sock"@;
        assert(m =~= a.subrange(head.len() as int, a.len() - 5));
        assert(n =~= b.subrange(head.len() as int, b.len() - 5));
        crate::text::lemma_decimal_injective(p as nat, q as nat);
    }
    assert((head + m + ".json"@).last() == 'n');
    assert((head + n + ".sock"@).last() == 'k');
}

/// Whether the interface serves `method`.
pub open spec fn read_only(method: Seq<char>) -> bool {
    ||| method == METHOD_STATUS_SUMMARY@
    ||| method == METHOD_THREAD_LOADED_LIST@
    ||| method == METHOD_THREAD_READ@
    ||| method == METHOD_AGENT_TREE@
}

/// Whether the interface serves `method`.
pub fn is_read_only_method(method: &str) -> (allowed: bool)
    ensures
        allowed == read_only(method@),
{
    same_text(method, METHOD_STATUS_SUMMARY) || same_text(method, METHOD_THREAD_LOADED_LIST)
        || same_text(method, METHOD_THREAD_READ) || same_text(method, METHOD_AGENT_TREE)
}

/// What a client can ask.
#[derive(Debug, Clone, Copy, PartialEq, Eq, Structural)]
pub enum StatusQuery {
    Summary,
    LoadedList,
    ThreadRead,
    AgentTree,
}

/// The method by which a client asks.
pub open spec fn method_of(query: StatusQuery) -> Seq<char> {
    match query {
        StatusQuery::Summary => METHOD_STATUS_SUMMARY@,
        StatusQuery::LoadedList => METHOD_THREAD_LOADED_LIST@,
        StatusQuery::ThreadRead => METHOD_THREAD_READ@,
        StatusQuery::AgentTree => METHOD_AGENT_TREE@,
    }
}

/// A method asks one thing only.
pub proof fn lemma_methods_distinct(a: StatusQuery, b: StatusQuery)
    requires
        method_of(a) == method_of(b),
    ensures
        a == b,
{
    reveal_strlit("status/summary");
    reveal_strlit("thread/loaded/list");
    reveal_strlit("thread/read");
    reveal_strlit("agent/tree");
    assert(METHOD_STATUS_SUMMARY@.len() == 14 && METHOD_THREAD_LOADED_LIST@.len() == 18);
    assert(METHOD_THREAD_READ@.len() == 11 && METHOD_AGENT_TREE@.len() == 10);
}

/// What a request asks; a request for anything else is refused.
pub fn dispatch_status_request(request: &StatusIpcRequest) -> (query: Result<
    StatusQuery,
    StatusIpcResponse,
>)
    ensures
        match query {
            Ok(query) => request.method@ == method_of(query),
            Err(refusal) => {
                &&& !read_only(request.method@)
                &&& !refusal.ok
                &&& refusal.result is None
                &&& refusal.error is Some
                &&& refusal.error->0@ == "method `"@ + request.method@
                    + "` is not available on read-only status IPC"@
            },
        },
        query is Ok == read_only(request.method@),
{
    let method = request.method.as_str();
    if !is_read_only_method(method) {
        return Err(
            StatusIpcResponse::error(
                glue3("method `", method, "` is not available on read-only status IPC"),
            ),
        );
    }
    if same_text(method, METHOD_STATUS_SUMMARY) {
        Ok(StatusQuery::Summary)
    } else if same_text(method, METHOD_THREAD_LOADED_LIST) {
        Ok(StatusQuery::LoadedList)
    } else if same_text(method, METHOD_THREAD_READ) {
        Ok(StatusQuery::ThreadRead)
    } else {
        Ok(StatusQuery::AgentTree)
    }
}

/// The answer to a line that is no request.
pub fn invalid_request_response(err: &str) -> (response: StatusIpcResponse)
    ensures
        !response.ok,
        response.result is None,
        response.error is Some,
        response.error->0@ == "invalid status IPC request: "@ + err@,
{
    StatusIpcResponse::error(glue("invalid status IPC request: ", err))
}

/// What the interface asks the app server: it only lists and reads.
#[derive(Debug, PartialEq, Eq)]
pub enum ServerRequest {
    ThreadLoadedList { request_id: i64, cursor: Option<String>, limit: Option<u32> },
    ThreadRead { request_id: i64, thread_id: String, include_turns: bool },
}

/// The ids of the requests that the interface makes.
#[derive(Debug, PartialEq, Eq)]
pub struct RequestIds {
    pub next: i64,
}

/// The number behind `n`, which wraps around at the end of the range.
pub open spec fn successor(n: i64) -> int {
    if n == i64::MAX {
        i64::MIN as int
    } else {
        n + 1
    }
}

impl RequestIds {
    pub fn new() -> (ids: Self)
        ensures
            ids.next == REQUEST_ID_START,
    {
        RequestIds { next: REQUEST_ID_START }
    }

    /// An id for the next request.
    pub fn next_status_request_id(&mut self) -> (id: i64)
        ensures
            id == old(self).next,
            final(self).next == successor(old(self).next),
    {
        let id: i64 = self.next;
        self.next = if id == i64::MAX {
            i64::MIN
        } else {
            id + 1
        };
        id
    }

    /// The request for the next page of loaded threads.
    pub fn loaded_list_request(&mut self, loaded: &LoadedThreads) -> (request: ServerRequest)
        ensures
            request == (ServerRequest::ThreadLoadedList {
                request_id: old(self).next,
                cursor: loaded.cursor,
                limit: Some(LOADED_LIST_LIMIT),
            }),
            final(self).next == successor(old(self).next),
    {
        ServerRequest::ThreadLoadedList {
            request_id: self.next_status_request_id(),
            cursor: copy_opt(&loaded.cursor),
            limit: Some(LOADED_LIST_LIMIT),
        }
    }

    /// The request for one thread.
    pub fn thread_read_request(&mut self, thread_id: String) -> (request: ServerRequest)
        ensures
            request == (ServerRequest::ThreadRead {
                request_id: old(self).next,
                thread_id,
                include_turns: false,
            }),
            final(self).next == successor(old(self).next),
    {
        ServerRequest::ThreadRead {
            request_id: self.next_status_request_id(),
            thread_id,
            include_turns: false,
        }
    }
}

/// The loaded threads, as far as they have been listed.
#[derive(Debug, PartialEq, Eq)]
pub struct LoadedThreads {
    pub ids: Vec<String>,
    pub cursor: Option<String>,
}

/// One page of loaded threads.
#[derive(Debug, PartialEq, Eq)]
pub struct LoadedPage {
    pub data: Vec<String>,
    pub next_cursor: Option<String>,
}

/// What follows from a page.
#[derive(Debug, PartialEq, Eq)]
pub enum LoadedStep {
    /// There are more pages.
    More(LoadedThreads),
    /// All ids, sorted, each of them once.
    Complete(Vec<String>),
    /// The threads cannot be listed.
    Failed(String),
}

impl LoadedThreads {
    pub fn new() -> (loaded: Self)
        ensures
            loaded.ids@.len() == 0,
            loaded.cursor is None,
    {
        LoadedThreads { ids: Vec::new(), cursor: None }
    }

    /// Takes in the answer to the request for the next page.
    pub fn load_all_thread_ids(self, page: Result<LoadedPage, String>) -> (step: LoadedStep)
        ensures
            match page {
                Err(err) => step is Failed && step->Failed_0@ == "thread/loaded/list failed: "@
                    + err@,
                Ok(page) => match page.next_cursor {
                    Some(cursor) => {
                        &&& step is More
                        &&& step->More_0.ids@ == self.ids@ + page.data@
                        &&& step->More_0.cursor == Some(cursor)
                    },
                    None => {
                        &&& step is Complete
                        &&& increasing(step->Complete_0.deep_view())
                        &&& step->Complete_0.deep_view().to_set() == (self.ids.deep_view()
                            + page.data.deep_view()).to_set()
                    },
                },
            },
    {
        let page = match page {
            Ok(page) => page,
            Err(err) => {
                return LoadedStep::Failed(glue("thread/loaded/list failed: ", err.as_str()));
            },
        };
        let mut ids = self.ids;
        let mut data = page.data;
        let ghost before = ids@;
        let ghost more = data@;
        ids.append(&mut data);
        match page.next_cursor {
            Some(cursor) => LoadedStep::More(LoadedThreads { ids, cursor: Some(cursor) }),
            None => {
                proof {
                    assert(ids.deep_view() =~= self.ids.deep_view() + page.data.deep_view());
                }
                LoadedStep::Complete(sort_and_dedup(ids))
            },
        }
    }
}

/// How many of the threads that could be read are active.
pub open spec fn active_count(reads: Seq<Result<Thread, String>>) -> nat
    decreases reads.len(),
{
    if reads.len() == 0 {
        0
    } else {
        active_count(reads.drop_last()) + match reads.last() {
            Ok(thread) => if thread.status is Active {
                1nat
            } else {
                0nat
            },
            Err(_) => 0nat,
        }
    }
}

/// The first thread, among those that could be read, that nothing spawned.
pub open spec fn first_parentless(reads: Seq<Result<Thread, String>>) -> Option<Thread>
    decreases reads.len(),
{
    if reads.len() == 0 {
        None
    } else {
        match first_parentless(reads.drop_last()) {
            Some(thread) => Some(thread),
            None => match reads.last() {
                Ok(thread) => if thread.parent_thread_id is None {
                    Some(thread)
                } else {
                    None
                },
                Err(_) => None,
            },
        }
    }
}

/// The first thread, among those that could be read, with the id `id`.
pub open spec fn first_with_id(reads: Seq<Result<Thread, String>>, id: Seq<char>) -> Option<Thread>
    decreases reads.len(),
{
    if reads.len() == 0 {
        None
    } else {
        match first_with_id(reads.drop_last(), id) {
            Some(thread) => Some(thread),
            None => match reads.last() {
                Ok(thread) => if thread.id@ == id {
                    Some(thread)
                } else {
                    None
                },
                Err(_) => None,
            },
        }
    }
}

/// The root thread: the one that the metadata names, or else the first thread
/// that nothing spawned.
pub open spec fn summary_root(
    metadata: StatusMetadata,
    reads: Seq<Result<Thread, String>>,
) -> Option<Seq<char>> {
    match metadata.root_thread_id {
        Some(root) => Some(root@),
        None => match first_parentless(reads) {
            Some(thread) => Some(thread.id@),
            None => None,
        },
    }
}

/// The session: the one that the metadata names, or else the session of the root
/// thread.
pub open spec fn summary_session(
    metadata: StatusMetadata,
    reads: Seq<Result<Thread, String>>,
) -> Option<Seq<char>> {
    let root_thread = match metadata.root_thread_id {
        Some(root) => first_with_id(reads, root@),
        None => first_parentless(reads),
    };
    match metadata.session_id {
        Some(session) => Some(session@),
        None => match root_thread {
            Some(thread) => Some(thread.session_id@),
            None => None,
        },
    }
}

/// Whether `summary` is what a process tells of its session, from what reading each
/// of its loaded threads gave. A thread that cannot be read counts as loaded only.
pub open spec fn summarizes(
    summary: StatusSummary,
    metadata: StatusMetadata,
    ids: Seq<String>,
    reads: Seq<Result<Thread, String>>,
) -> bool {
    &&& summary.pid == metadata.pid
    &&& summary.cwd == metadata.cwd
    &&& summary.root_thread_id.deep_view() == summary_root(metadata, reads)
    &&& summary.session_id.deep_view() == summary_session(metadata, reads)
    &&& summary.alive
    &&& summary.loaded_thread_count == ids.len()
    &&& summary.active_thread_count == active_count(reads)
    &&& summary.started_at == metadata.started_at
    &&& summary.version == metadata.version
}

/// What a process tells of its session, from what reading each of its loaded
/// threads gave.
pub fn status_summary(
    metadata: &StatusMetadata,
    ids: &Vec<String>,
    reads: &Vec<Result<Thread, String>>,
) -> (summary: StatusSummary)
    requires
        reads@.len() == ids@.len(),
    ensures
        summarizes(summary, *metadata, ids@, reads@),
{
    let mut active_thread_count: usize = 0;
    let mut root_thread_id = copy_opt(&metadata.root_thread_id);
    let mut session_id = copy_opt(&metadata.session_id);
    let mut i: usize = 0;
    proof {
        assert(reads@.take(0) =~= Seq::empty());
    }
    while i < reads.len()
        invariant
            i <= reads@.len(),
            active_thread_count <= i,
            active_thread_count == active_count(reads@.take(i as int)),
            root_thread_id.deep_view() == summary_root(*metadata, reads@.take(i as int)),
            session_id.deep_view() == summary_session(*metadata, reads@.take(i as int)),
        decreases reads@.len() - i,
    {
        proof {
            assert(reads@.take(i + 1).drop_last() =~= reads@.take(i as int));
            assert(reads@.take(i + 1).last() == reads@[i as int]);
        }
        if let Ok(thread) = &reads[i] {
            if is_active_thread_status(&thread.status) {
                active_thread_count += 1;
            }
            if root_thread_id.is_none() && thread.parent_thread_id.is_none() {
                root_thread_id = Some(thread.id.clone());
            }
            let is_root = match &root_thread_id {
                Some(root) => same_text(root.as_str(), thread.id.as_str()),
                None => false,
            };
            proof {
                if metadata.root_thread_id is None {
                    lemma_first_parentless(reads@.take(i as int));
                }
            }
            if session_id.is_none() && is_root {
                session_id = Some(thread.session_id.clone());
            }
        }
        i += 1;
    }
    proof {
        assert(reads@.take(i as int) =~= reads@);
    }
    StatusSummary {
        pid: metadata.pid,
        cwd: metadata.cwd.clone(),
        root_thread_id,
        session_id,
        alive: true,
        loaded_thread_count: ids.len(),
        active_thread_count,
        started_at: metadata.started_at,
        version: metadata.version.clone(),
    }
}

proof fn lemma_first_parentless(reads: Seq<Result<Thread, String>>)
    ensures
        first_parentless(reads) is Some ==> first_parentless(reads)->0.parent_thread_id is None,
    decreases reads.len(),
{
    if reads.len() > 0 {
        lemma_first_parentless(reads.drop_last());
    }
}

/// Whether no read failed.
pub open spec fn all_read(reads: Seq<Result<Thread, String>>) -> bool {
    forall|i: int| 0 <= i < reads.len() ==> (#[trigger] reads[i]) is Ok
}

/// What the status interface tells of each thread that was read.
pub open spec fn read_infos(reads: Seq<Result<Thread, String>>) -> Seq<ThreadInfo> {
    reads.map_values(|read: Result<Thread, String>| status_info(read->Ok_0))
}

/// The tree of the loaded threads, from what reading each of them gave, up to
/// the first failure. There is none where a thread hangs below itself.
pub fn agent_tree(reads: Vec<Result<Thread, String>>) -> (tree: Result<
    Option<AgentTreeResponse>,
    String,
>)
    ensures
        match tree {
            Ok(Some(tree)) => all_read(reads@) && is_agent_tree(
                tree.deep_view(),
                read_infos(reads@),
            ),
            Ok(None) => all_read(reads@) && !has_agent_tree(read_infos(reads@)),
            Err(message) => exists|i: int|
                0 <= i < reads@.len() && all_read(reads@.take(i)) && (#[trigger] reads@[i]) is Err
                    && message@ == "thread/read failed: "@ + reads@[i]->Err_0@,
        },
{
    let mut threads: Vec<ThreadStatusView> = Vec::new();
    let mut i: usize = 0;
    while i < reads.len()
        invariant
            i <= reads@.len(),
            threads@.len() == i,
            forall|k: int| 0 <= k < i ==> (#[trigger] reads@[k]) is Ok,
            forall|k: int|
                0 <= k < i ==> (#[trigger] threads@[k]).deep_view() == status_info(reads@[k]->Ok_0),
        decreases reads@.len() - i,
    {
        match &reads[i] {
            Ok(thread) => {
                threads.push(thread_status_view_from_thread(thread));
            },
            Err(err) => {
                proof {
                    assert(all_read(reads@.take(i as int)));
                    assert(reads@[i as int] is Err);
                }
                return Err(glue("thread/read failed: ", err.as_str()));
            },
        }
        i += 1;
    }
    proof {
        assert(threads.deep_view() =~= read_infos(reads@));
    }
    Ok(try_build_agent_tree(threads))
}

/// The thread that a `thread/read` request asks for.
pub fn thread_read_target(parsed: Result<ThreadReadStatusParams, String>) -> (target: Result<
    String,
    String,
>)
    ensures
        match parsed {
            Ok(params) => target == Ok::<String, String>(params.thread_id),
            Err(err) => target is Err && target->Err_0@ == "invalid thread/read params: "@ + err@,
        },
{
    match parsed {
        Ok(params) => Ok(params.thread_id),
        Err(err) => Err(glue("invalid thread/read params: ", err.as_str())),
    }
}

/// What a `thread/read` request is told of the thread that was read for it.
pub fn thread_read_result(read: Result<Thread, String>) -> (result: Result<
    ThreadStatusView,
    String,
>)
    ensures
        match read {
            Ok(thread) => result is Ok && result->Ok_0.deep_view() == status_info(thread),
            Err(err) => result is Err && result->Err_0@ == "thread/read failed: "@ + err@,
        },
{
    match read {
        Ok(thread) => Ok(thread_status_view_from_thread(&thread)),
        Err(err) => Err(glue("thread/read failed: ", err.as_str())),
    }
}

/// Why a metadata file cannot be used.
pub fn invalid_metadata_message(path: &str, err: &str) -> (message: String)
    ensures
        message@ == "invalid TUI status metadata "@ + path@ + ": "@ + err@,
{
    glue4("invalid TUI status metadata ", path, ": ", err)
}

/// What a server is started with.
#[derive(Debug, PartialEq, Eq)]
pub struct StatusIpcServerArgs {
    pub codex_home: String,
    pub cwd: String,
    pub root_thread_id: Option<String>,
    pub session_id: Option<String>,
    pub version: String,
}

/// The status files and the metadata of the server of the process `pid`.
pub fn server_metadata(args: StatusIpcServerArgs, pid: u32, started_at: i64) -> (server: (
    StatusIpcPaths,
    StatusMetadata,
))
    ensures
        server.0.dir@ == joined_path(args.codex_home@, STATUS_DIR_NAME@),
        server.0.metadata_path@ == metadata_path(args.codex_home@, pid),
        server.0.socket_path@ == socket_path(args.codex_home@, pid),
        server.1 == (StatusMetadata {
            pid,
            cwd: args.cwd,
            root_thread_id: args.root_thread_id,
            session_id: args.session_id,
            socket_path: server.0.socket_path,
            started_at,
            version: args.version,
        }),
{
    let paths = status_paths(args.codex_home.as_str(), pid);
    let metadata = StatusMetadata {
        pid,
        cwd: args.cwd,
        root_thread_id: args.root_thread_id,
        session_id: args.session_id,
        socket_path: paths.socket_path.clone(),
        started_at,
        version: args.version,
    };
    (paths, metadata)
}

/// What came of a look for a client.
#[derive(Debug, Clone, Copy, PartialEq, Eq, Structural)]
pub enum AcceptOutcome {
    Client,
    WouldBlock,
    Failed,
}

/// What the server does next.
#[derive(Debug, Clone, Copy, PartialEq, Eq, Structural)]
pub enum ServeStep {
    /// Serve the client.
    Serve,
    /// Wait before the next look.
    Sleep,
    /// Stop serving.
    Stop,
}

/// What the server does after a look for a client; `shutdown` tells whether it
/// has been asked to stop by then.
pub fn serve_step(outcome: AcceptOutcome, shutdown: bool) -> (step: ServeStep)
    ensures
        step == match outcome {
            AcceptOutcome::Client => if shutdown {
                ServeStep::Stop
            } else {
                ServeStep::Serve
            },
            AcceptOutcome::WouldBlock => ServeStep::Sleep,
            AcceptOutcome::Failed => ServeStep::Stop,
        },
{
    match outcome {
        AcceptOutcome::Client => if shutdown {
            ServeStep::Stop
        } else {
            ServeStep::Serve
        },
        AcceptOutcome::WouldBlock => ServeStep::Sleep,
        AcceptOutcome::Failed => ServeStep::Stop,
    }
}

} // verus!
