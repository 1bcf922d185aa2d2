//! What `codexx status` shows, whatever sessions there are.

use vstd::prelude::*;

use crate::agent_tree::{AgentTreeNode, ThreadInfo, Tree};
use crate::agent_tree_laws::{preorder, tree_at};
use crate::order::{lemma_ordered, lemma_ordered_contains, Ranked};
use crate::paths::file_extension;
use crate::status_command::{
    collect_rows, live_status_sessions, metadata_files, metadata_names, pid_exists, row_states,
    session_rows, session_work, session_work_state, stale_files, stale_of,
    thread_work_state, triage_metadata, work_state, work_states, write_status_json,
    LiveStatusSession, ProbedFile, StatusDir, StatusJsonOutput, StatusJsonThread,
    StatusRow, StatusScan, Triage,
};
use crate::status_ipc::{StatusMetadata, StatusSummary};

verus! {

/// Whether a status is one that a thread can have.
pub open spec fn is_a_status(state: Seq<char>) -> bool {
    ||| state == "not_loaded"@
    ||| state == "idle"@
    ||| state == "system_error"@
    ||| state == "active"@
}

/// Whether a thread works: it is active and waits for nothing.
pub open spec fn works(state: Seq<char>, flags: Seq<Seq<char>>) -> bool {
    state == "active"@ && flags.len() == 0
}

/// Whether an active thread waits for what the flag `flag` says.
pub open spec fn waits_on(state: Seq<char>, flags: Seq<Seq<char>>, flag: Seq<char>) -> bool {
    state == "active"@ && exists|i: int| 0 <= i < flags.len() && #[trigger] flags[i] == flag
}

proof fn lemma_words()
    ensures
        "active"@ != "idle"@,
        "active"@ != "not_loaded"@,
        "active"@ != "system_error"@,
        "working"@ != "waiting_approval"@,
        "working"@ != "waiting_input"@,
        "working"@ != "waiting"@,
        "waiting"@ != "waiting_approval"@,
        "waiting"@ != "waiting_input"@,
        "waiting_approval"@ != "waiting_input"@,
        "idle"@ != "working"@,
        "idle"@ != "waiting"@,
        "idle"@ != "waiting_approval"@,
        "idle"@ != "waiting_input"@,
        "not_loaded"@ != "working"@,
        "not_loaded"@ != "waiting"@,
        "not_loaded"@ != "waiting_approval"@,
        "not_loaded"@ != "waiting_input"@,
        "system_error"@ != "working"@,
        "system_error"@ != "waiting"@,
        "system_error"@ != "waiting_approval"@,
        "system_error"@ != "waiting_input"@,
        "waiting_on_approval"@ != "waiting_on_user_input"@,
{
    reveal_strlit("active");
    reveal_strlit("idle");
    reveal_strlit("not_loaded");
    reveal_strlit("system_error");
    reveal_strlit("working");
    reveal_strlit("waiting");
    reveal_strlit("waiting_approval");
    reveal_strlit("waiting_input");
    reveal_strlit("waiting_on_approval");
    reveal_strlit("waiting_on_user_input");
    assert("active"@.len() == 6 && "idle"@.len() == 4 && "not_loaded"@.len() == 10
        && "system_error"@.len() == 12);
    assert("working"@[1] == 'o' && "waiting"@[1] == 'a');
    assert("waiting_approval"@[1] == 'a' && "waiting_input"@[1] == 'a');
    assert("waiting"@.len() == 7 && "waiting_approval"@.len() == 16 && "waiting_input"@.len()
        == 13);
    assert("idle"@[0] == 'i' && "not_loaded"@[0] == 'n' && "system_error"@[0] == 's');
    assert("working"@[0] == 'w' && "waiting"@[0] == 'w' && "waiting_approval"@[0] == 'w'
        && "waiting_input"@[0] == 'w');
    assert("waiting_on_approval"@.len() == 19 && "waiting_on_user_input"@.len() == 21);
}

/// Whether `work` is the work state of a thread: it works, or waits for an approval, for
/// input or for something else, an approval first; one that is not active has its status.
pub open spec fn is_work_of(work: Seq<char>, state: Seq<char>, flags: Seq<Seq<char>>) -> bool {
    &&& state != "active"@ ==> work == state
    &&& works(state, flags) ==> work == "working"@
    &&& waits_on(state, flags, "waiting_on_approval"@) ==> work == "waiting_approval"@
    &&& waits_on(state, flags, "waiting_on_user_input"@) && !waits_on(
        state,
        flags,
        "waiting_on_approval"@,
    ) ==> work == "waiting_input"@
    &&& state == "active"@ && flags.len() > 0 && !waits_on(state, flags, "waiting_on_approval"@)
        && !waits_on(state, flags, "waiting_on_user_input"@) ==> work == "waiting"@
}

proof fn lemma_work(state: Seq<char>, flags: Seq<Seq<char>>)
    ensures
        is_work_of(work_state(state, flags), state, flags),
{
    if waits_on(state, flags, "waiting_on_approval"@) {
        let i = choose|i: int| 0 <= i < flags.len() && #[trigger] flags[i]
            == "waiting_on_approval"@;
        assert(flags.contains(flags[i]));
    }
    if waits_on(state, flags, "waiting_on_user_input"@) {
        let i = choose|i: int| 0 <= i < flags.len() && #[trigger] flags[i]
            == "waiting_on_user_input"@;
        assert(flags.contains(flags[i]));
    }
}

/// The work state of a thread.
pub proof fn lemma_thread_work(state: &str, flags: &Vec<String>, work: String)
    requires
        call_ensures(thread_work_state, (state, flags), work),
    ensures
        is_work_of(work@, state@, flags.deep_view()),
{
    lemma_work(state@, flags.deep_view());
}

/// Whether one of `threads`, given by its status and its flags, works.
pub open spec fn some_works(threads: Seq<(Seq<char>, Seq<Seq<char>>)>) -> bool {
    exists|i: int| 0 <= i < threads.len() && works((#[trigger] threads[i]).0, threads[i].1)
}

/// Whether one of `threads` waits for what the flag `flag` says.
pub open spec fn some_waits_on(
    threads: Seq<(Seq<char>, Seq<Seq<char>>)>,
    flag: Seq<char>,
) -> bool {
    exists|i: int|
        0 <= i < threads.len() && waits_on((#[trigger] threads[i]).0, threads[i].1, flag)
}

/// Whether one of `threads` is active.
pub open spec fn some_active(threads: Seq<(Seq<char>, Seq<Seq<char>>)>) -> bool {
    exists|i: int| 0 <= i < threads.len() && (#[trigger] threads[i]).0 == "active"@
}

/// Whether `work` is the work state of a session with `threads`, of which it counts
/// `count` as active: it works where one of them works; else an approval is waited for
/// where one of them waits for one; else input; and only a session without an active
/// thread is idle.
pub open spec fn is_work_of_session(
    work: Seq<char>,
    count: nat,
    threads: Seq<(Seq<char>, Seq<Seq<char>>)>,
) -> bool {
    &&& some_works(threads) ==> work == "working"@
    &&& !some_works(threads) && some_waits_on(threads, "waiting_on_approval"@) ==> work
        == "waiting_approval"@
    &&& !some_works(threads) && !some_waits_on(threads, "waiting_on_approval"@) && some_waits_on(
        threads,
        "waiting_on_user_input"@,
    ) ==> work == "waiting_input"@
    &&& !some_works(threads) && !some_waits_on(threads, "waiting_on_approval"@) && !some_waits_on(
        threads,
        "waiting_on_user_input"@,
    ) && some_active(threads) ==> work == "waiting"@
    &&& !some_active(threads) && count > 0 ==> work == "working"@
    &&& !some_active(threads) && count == 0 ==> work == "idle"@
    &&& some_active(threads) || count > 0 ==> work != "idle"@
}

proof fn lemma_session(
    count: nat,
    threads: Seq<(Seq<char>, Seq<Seq<char>>)>,
    states: Seq<Seq<char>>,
)
    requires
        states.len() == threads.len(),
        forall|i: int| 0 <= i < threads.len() ==> is_a_status((#[trigger] threads[i]).0),
        forall|i: int|
            0 <= i < threads.len() ==> (#[trigger] states[i]) == work_state(
                threads[i].0,
                threads[i].1,
            ),
    ensures
        is_work_of_session(session_work(count, states), count, threads),
{
    lemma_words();
    assert forall|i: int| 0 <= i < threads.len() implies is_work_of(
        #[trigger] states[i],
        threads[i].0,
        threads[i].1,
    ) && is_a_status(threads[i].0) by {
        lemma_work(threads[i].0, threads[i].1);
    }
    if some_works(threads) {
        let i = choose|i: int|
            0 <= i < threads.len() && works((#[trigger] threads[i]).0, threads[i].1);
        assert(states[i] == "working"@);
        assert(states.contains(states[i]));
    } else {
        assert(!states.contains("working"@)) by {
            if states.contains("working"@) {
                let i = states.index_of("working"@);
                assert(states[i] == "working"@);
                assert(works(threads[i].0, threads[i].1));
            }
        }
        if some_waits_on(threads, "waiting_on_approval"@) {
            let i = choose|i: int|
                0 <= i < threads.len() && waits_on(
                    (#[trigger] threads[i]).0,
                    threads[i].1,
                    "waiting_on_approval"@,
                );
            assert(states[i] == "waiting_approval"@);
            assert(states.contains(states[i]));
        } else {
            assert(!states.contains("waiting_approval"@)) by {
                if states.contains("waiting_approval"@) {
                    let i = states.index_of("waiting_approval"@);
                    assert(states[i] == "waiting_approval"@);
                    assert(!waits_on(threads[i].0, threads[i].1, "waiting_on_approval"@));
                }
            }
            if some_waits_on(threads, "waiting_on_user_input"@) {
                let i = choose|i: int|
                    0 <= i < threads.len() && waits_on(
                        (#[trigger] threads[i]).0,
                        threads[i].1,
                        "waiting_on_user_input"@,
                    );
                assert(!waits_on(threads[i].0, threads[i].1, "waiting_on_approval"@));
                assert(states[i] == "waiting_input"@);
                assert(states.contains(states[i]));
            } else {
                assert(!states.contains("waiting_input"@)) by {
                    if states.contains("waiting_input"@) {
                        let i = states.index_of("waiting_input"@);
                        assert(states[i] == "waiting_input"@);
                        assert(!waits_on(threads[i].0, threads[i].1, "waiting_on_approval"@));
                        assert(!waits_on(threads[i].0, threads[i].1, "waiting_on_user_input"@));
                    }
                }
                if some_active(threads) {
                    let i = choose|i: int|
                        0 <= i < threads.len() && (#[trigger] threads[i]).0 == "active"@;
                    assert(!works(threads[i].0, threads[i].1));
                    assert(!waits_on(threads[i].0, threads[i].1, "waiting_on_approval"@));
                    assert(!waits_on(threads[i].0, threads[i].1, "waiting_on_user_input"@));
                    assert(states[i] == "waiting"@);
                    assert(states.contains(states[i]));
                } else {
                    assert(!states.contains("waiting"@)) by {
                        if states.contains("waiting"@) {
                            let i = states.index_of("waiting"@);
                            assert(states[i] == "waiting"@);
                            assert(threads[i].0 != "active"@);
                        }
                    }
                }
            }
        }
    }
    if !some_active(threads) {
        if some_works(threads) {
            let i = choose|i: int|
                0 <= i < threads.len() && works((#[trigger] threads[i]).0, threads[i].1);
            assert(threads[i].0 == "active"@);
        }
        if some_waits_on(threads, "waiting_on_approval"@) {
            let i = choose|i: int|
                0 <= i < threads.len() && waits_on(
                    (#[trigger] threads[i]).0,
                    threads[i].1,
                    "waiting_on_approval"@,
                );
            assert(threads[i].0 == "active"@);
        }
        if some_waits_on(threads, "waiting_on_user_input"@) {
            let i = choose|i: int|
                0 <= i < threads.len() && waits_on(
                    (#[trigger] threads[i]).0,
                    threads[i].1,
                    "waiting_on_user_input"@,
                );
            assert(threads[i].0 == "active"@);
        }
    }
}

/// The status and the flags of each row.
pub open spec fn states_of_rows(rows: Seq<StatusRow>) -> Seq<(Seq<char>, Seq<Seq<char>>)> {
    rows.map_values(|row: StatusRow| (row.thread_state@, row.active_flags.deep_view()))
}

/// The status and the flags of each thread.
pub open spec fn states_of(threads: Seq<ThreadInfo>) -> Seq<(Seq<char>, Seq<Seq<char>>)> {
    threads.map_values(|thread: ThreadInfo| (thread.status, thread.active_flags))
}

/// The work state of a thread, from what is told of it.
pub(crate) proof fn lemma_work_of_thread(thread: ThreadInfo)
    ensures
        is_work_of(
            work_state(thread.status, thread.active_flags),
            thread.status,
            thread.active_flags,
        ),
{
    lemma_work(thread.status, thread.active_flags);
}

/// The work state of a session, from what is told of its threads.
pub(crate) proof fn lemma_work_of_threads(count: nat, threads: Seq<ThreadInfo>)
    requires
        forall|m: int| 0 <= m < threads.len() ==> is_a_status((#[trigger] threads[m]).status),
    ensures
        is_work_of_session(session_work(count, work_states(threads)), count, states_of(threads)),
{
    let states = states_of(threads);
    assert forall|m: int| 0 <= m < states.len() implies is_a_status((#[trigger] states[m]).0) by {
        assert(is_a_status(threads[m].status));
    }
    lemma_session(count, states, work_states(threads));
}

/// The work state of a session.
pub proof fn lemma_session_state(summary: &StatusSummary, rows: &Vec<StatusRow>, work: String)
    requires
        forall|i: int| 0 <= i < rows@.len() ==> is_a_status((#[trigger] rows@[i]).thread_state@),
        call_ensures(session_work_state, (summary, rows), work),
    ensures
        is_work_of_session(
            work@,
            summary.active_thread_count as nat,
            states_of_rows(rows@),
        ),
{
    let threads = states_of_rows(rows@);
    assert forall|i: int| 0 <= i < threads.len() implies is_a_status((#[trigger] threads[i]).0) by {
        assert(is_a_status(rows@[i].thread_state@));
    }
    lemma_session(summary.active_thread_count as nat, threads, row_states(rows@));
}

/// Whether a row is that of a node: each column shows the field of its name.
pub open spec fn is_row_of(row: StatusRow, pid: u32, node: AgentTreeNode) -> bool {
    &&& row.pid == pid
    &&& row.thread_state@ == node.status@
    &&& row.active_flags.deep_view() == node.active_flags.deep_view()
    &&& row.thread_id@ == node.thread_id@
    &&& row.agent_path.deep_view() == node.agent_path.deep_view()
    &&& row.task_name.deep_view() == node.task_name.deep_view()
    &&& row.agent_type.deep_view() == node.agent_type.deep_view()
    &&& row.nickname.deep_view() == node.agent_nickname.deep_view()
    &&& row.summary.deep_view() == node.summary.deep_view()
}

/// A node appends its own row first; the rows that were there stay.
pub proof fn lemma_node_comes_first(pid: u32, node: &AgentTreeNode)
    ensures
        forall|rows: &mut Vec<StatusRow>| #[trigger]
            call_ensures(collect_rows, (pid, node, rows), ()) ==> final(rows)@.len()
                > rows@.len() && is_row_of(final(rows)@[rows@.len() as int], pid, *node) && (
            forall|i: int| 0 <= i < rows@.len() ==> #[trigger] final(rows)@[i] == rows@[i]),
{
    assert forall|rows: &mut Vec<StatusRow>| #[trigger]
        call_ensures(collect_rows, (pid, node, rows), ()) implies final(rows)@.len() > rows@.len()
        && is_row_of(final(rows)@[rows@.len() as int], pid, *node) && (forall|i: int|
        0 <= i < rows@.len() ==> #[trigger] final(rows)@[i] == rows@[i]) by {
        let n = rows@.len() as int;
        let after = final(rows)@;
        let all = seq![node.tree().thread] + preorder(node.tree().children);
        assert(after.skip(n)[0] == after[n]);
        assert(after.skip(n)[0].shows(pid, all[0]));
        assert forall|i: int| 0 <= i < n implies #[trigger] after[i] == rows@[i] by {
            assert(after.take(n)[i] == after[i]);
        }
    }
}

/// The threads of several trees come tree by tree, and those of one tree begin with its
/// own thread.
pub proof fn lemma_preorder(a: Seq<Tree>, b: Seq<Tree>, tree: Tree)
    ensures
        preorder(a + b) == preorder(a) + preorder(b),
        preorder(seq![tree]) == seq![tree.thread] + preorder(tree.children),
    decreases b.len(),
{
    assert(seq![tree].drop_last() =~= Seq::empty());
    assert(preorder(Seq::<Tree>::empty()) =~= Seq::empty());
    assert(preorder(seq![tree]) =~= seq![tree.thread] + preorder(tree.children));
    if b.len() > 0 {
        lemma_preorder(a, b.drop_last(), tree);
        assert((a + b).drop_last() =~= a + b.drop_last());
        assert((a + b).last() == b.last());
        assert(preorder(a + b) =~= preorder(a) + preorder(b));
    } else {
        assert(a + b =~= a);
        assert(preorder(a) + preorder(b) =~= preorder(a));
    }
}

/// Every thread of a tree, however deep, is among its threads.
pub proof fn lemma_every_thread_is_shown(trees: Seq<Tree>, path: Seq<int>)
    requires
        tree_at(trees, path) is Some,
    ensures
        preorder(trees).contains(tree_at(trees, path)->0.thread),
    decreases path.len(),
{
    let i = path[0];
    let tree = trees[i];
    let x = tree_at(trees, path)->0.thread;
    let before = trees.take(i);
    let after = trees.skip(i + 1);
    assert(trees =~= before + (seq![tree] + after));
    lemma_preorder(before, seq![tree] + after, tree);
    lemma_preorder(seq![tree], after, tree);
    let own = seq![tree.thread] + preorder(tree.children);
    assert(own.contains(x)) by {
        if path.len() == 1 {
            assert(own[0] == x);
        } else {
            lemma_every_thread_is_shown(tree.children, path.drop_first());
            let k = preorder(tree.children).index_of(x);
            assert(own[k + 1] == x);
        }
    }
    let k = own.index_of(x);
    assert((own + preorder(after))[k] == x);
    assert((preorder(before) + (own + preorder(after)))[preorder(before).len() + k] == x);
}

/// The rows of a session show its threads, each field in its column.
pub proof fn lemma_rows_of_session(session: &LiveStatusSession, rows: Vec<StatusRow>, i: int)
    requires
        call_ensures(session_rows, (session,), rows),
    ensures
        rows@.len() == preorder(session.tree.deep_view()).len(),
        0 <= i < rows@.len() ==> ({
            let thread = preorder(session.tree.deep_view())[i];
            let row = rows@[i];
            &&& row.pid == session.summary.pid
            &&& row.thread_state@ == thread.status
            &&& row.active_flags.deep_view() == thread.active_flags
            &&& row.thread_id@ == thread.thread_id
            &&& row.agent_path.deep_view() == thread.agent_path
            &&& row.task_name.deep_view() == thread.task_name
            &&& row.agent_type.deep_view() == thread.agent_type
            &&& row.nickname.deep_view() == thread.agent_nickname
            &&& row.summary.deep_view() == thread.summary
        }),
{
    if 0 <= i < rows@.len() {
        assert(rows@[i].shows(session.summary.pid, preorder(session.tree.deep_view())[i]));
    }
}

/// What is printed as JSON: the sessions in order, each alive, with its own process,
/// summary, tree and work state, and with each of its threads complete and not cut.
pub proof fn lemma_json_tells_sessions(
    sessions: &Vec<LiveStatusSession>,
    output: StatusJsonOutput,
    i: int,
    k: int,
)
    requires
        call_ensures(write_status_json, (sessions,), output),
    ensures
        output.sessions@.len() == sessions@.len(),
        0 <= i < sessions@.len() ==> ({
            let entry = output.sessions@[i];
            let session = sessions@[i];
            let threads = preorder(session.tree.deep_view());
            &&& entry.pid == session.summary.pid
            &&& entry.tui_state@ == "alive"@
            &&& entry.summary == session.summary
            &&& entry.agent_tree.deep_view() == session.tree.deep_view()
            &&& entry.threads@.len() == threads.len()
            &&& (forall|m: int|
                0 <= m < threads.len() ==> is_a_status((#[trigger] threads[m]).status))
                ==> is_work_of_session(
                entry.tui_work@,
                session.summary.active_thread_count as nat,
                states_of(threads),
            )
            &&& 0 <= k < threads.len() ==> ({
                let told = entry.threads@[k];
                &&& told.pid == session.summary.pid
                &&& is_work_of(told.thread_work@, threads[k].status, threads[k].active_flags)
                &&& told.thread_state@ == threads[k].status
                &&& told.active_flags.deep_view() == threads[k].active_flags
                &&& told.thread_id@ == threads[k].thread_id
                &&& told.agent_path.deep_view() == threads[k].agent_path
                &&& told.task_name.deep_view() == threads[k].task_name
                &&& told.agent_type.deep_view() == threads[k].agent_type
                &&& told.nickname.deep_view() == threads[k].agent_nickname
                &&& told.summary.deep_view() == threads[k].summary
            })
        }),
{
    if 0 <= i < sessions@.len() {
        let entry = output.sessions@[i];
        let session = sessions@[i];
        assert(entry.shows(session));
        let threads = preorder(session.tree.deep_view());
        if forall|m: int| 0 <= m < threads.len() ==> is_a_status((#[trigger] threads[m]).status) {
            let states = states_of(threads);
            assert forall|m: int| 0 <= m < states.len() implies is_a_status(
                (#[trigger] states[m]).0,
            ) by {
                assert(is_a_status(threads[m].status));
            }
            lemma_session(
                session.summary.active_thread_count as nat,
                states,
                work_states(threads),
            );
        }
        if 0 <= k < threads.len() {
            assert(entry.threads@[k].shows(entry.pid, threads[k]));
            lemma_work(threads[k].status, threads[k].active_flags);
        }
    }
}

/// A row as JSON keeps every field.
pub proof fn lemma_json_of_row(row: &StatusRow, entry: StatusJsonThread)
    requires
        call_ensures(StatusJsonThread::from_row, (row,), entry),
    ensures
        entry.pid == row.pid,
        is_work_of(entry.thread_work@, row.thread_state@, row.active_flags.deep_view()),
        entry.thread_state@ == row.thread_state@,
        entry.active_flags@ == row.active_flags@,
        entry.thread_id@ == row.thread_id@,
        entry.agent_path == row.agent_path,
        entry.task_name == row.task_name,
        entry.agent_type == row.agent_type,
        entry.nickname == row.nickname,
        entry.summary == row.summary,
{
    lemma_work(row.thread_state@, row.active_flags.deep_view());
}

/// A file is removed where it is no metadata file; where its process is gone it is
/// removed together with the socket; and the socket of a running process is asked.
pub proof fn lemma_triage(
    path: String,
    metadata: Result<StatusMetadata, String>,
    runs: bool,
    triage: Triage,
)
    requires
        call_ensures(triage_metadata, (path, metadata, runs), triage),
    ensures
        triage is Ask <==> metadata is Ok && runs,
        triage is Ask ==> triage->Ask_0 == metadata->Ok_0.socket_path,
        metadata is Err ==> triage->Remove_0@.len() == 1 && triage->Remove_0@[0] == path,
        metadata is Ok && !runs ==> triage->Remove_0@.len() == 2 && triage->Remove_0@[0] == path
            && triage->Remove_0@[1] == metadata->Ok_0.socket_path,
{
}

/// A process runs where it can be signalled, or where signalling it is not permitted.
pub proof fn lemma_process_runs(result: i32, errno: Option<i32>, eperm: i32, runs: bool)
    requires
        call_ensures(pid_exists, (result, errno, eperm), runs),
    ensures
        result == 0 ==> runs,
        errno == Some(eperm) ==> runs,
        result != 0 && errno is None ==> !runs,
        result != 0 && errno is Some && errno->0 != eperm ==> !runs,
{
}

/// Whether a name ends in `.json` behind something else, with no dot behind that.
pub open spec fn is_json_name(name: Seq<char>) -> bool {
    exists|stem: Seq<char>| stem.len() > 0 && name == #[trigger] (stem + ".json"@)
}

proof fn lemma_json_name(name: Seq<char>)
    ensures
        file_extension(name) == Some("json"@) <==> is_json_name(name),
{
    reveal_strlit("json");
    reveal_strlit(".json");
    reveal_strlit("..");
    if is_json_name(name) {
        let stem = choose|stem: Seq<char>| stem.len() > 0 && name == #[trigger] (stem + ".json"@);
        assert(stem + ".json"@ =~= stem.push('.') + "json"@);
        assert(name.len() >= 6);
        crate::text_laws::lemma_file_name(stem, "json"@);
        assert(name != seq!['.', '.']) by {
            assert(seq!['.', '.'].len() == 2);
        }
    }
    if file_extension(name) == Some("json"@) {
        let at = crate::paths::last_dot(name)->0;
        lemma_last_dot_is_dot(name);
        let stem = name.take(at);
        assert(name =~= stem + ".json"@) by {
            assert(name.skip(at + 1) == "json"@);
            assert("json"@.len() == 4 && name.skip(at + 1).len() == name.len() - at - 1);
            assert(name.len() == at + 5);
            assert forall|i: int| 0 <= i < name.len() implies name[i] == (stem + ".json"@)[i] by {
                if i > at {
                    assert(name.skip(at + 1)[i - at - 1] == name[i]);
                }
            }
        }
    }
}

proof fn lemma_last_dot_is_dot(name: Seq<char>)
    ensures
        crate::paths::last_dot(name) is Some ==> 0 <= crate::paths::last_dot(name)->0 < name.len()
            && name[crate::paths::last_dot(name)->0] == '.',
    decreases name.len(),
{
    if name.len() > 0 && name.last() != '.' {
        lemma_last_dot_is_dot(name.drop_last());
    }
}

/// The files that are looked at are those of the directory whose names end in `.json`,
/// all of them, in the order of their names; without a directory there are none, and one
/// that cannot be read is told.
pub proof fn lemma_files_to_look_at(
    dir: StatusDir,
    files: Result<Vec<String>, String>,
    name: Seq<char>,
)
    requires
        call_ensures(metadata_files, (dir,), files),
    ensures
        dir is Missing ==> files is Ok && files->Ok_0@.len() == 0,
        dir is Unreadable ==> files is Err && files->Err_0@
            == "failed to read TUI status directory"@,
        dir is Entries ==> files is Ok && (files->Ok_0.deep_view().contains(name)
            <==> dir->Entries_0.deep_view().contains(name) && is_json_name(name)),
        dir is Entries ==> forall|i: int, j: int|
            0 <= i < j < files->Ok_0@.len() ==> !crate::text::lex_less(
                (#[trigger] files->Ok_0.deep_view()[j]),
                (#[trigger] files->Ok_0.deep_view()[i]),
            ),
{
    broadcast use vstd::seq_lib::group_filter_ensures;

    if let StatusDir::Entries(names) = dir {
        let all = names.deep_view();
        let pred = |name: Seq<char>| file_extension(name) == Some("json"@);
        let chosen = all.filter(pred);
        assert(metadata_names(all) =~= chosen);
        lemma_json_name(name);
        lemma_ordered::<String>(chosen, name);
        lemma_ordered_contains::<String>(chosen, name);
        if chosen.contains(name) {
            let i = chosen.index_of(name);
            assert(pred(chosen[i]));
            all.lemma_filter_contains_rev(pred, name);
        }
        if all.contains(name) && pred(name) {
            let i = all.index_of(name);
            assert(chosen.contains(all[i]));
        }
        let told = files->Ok_0.deep_view();
        assert forall|i: int, j: int| 0 <= i < j < told.len() implies !crate::text::lex_less(
            #[trigger] told[j],
            #[trigger] told[i],
        ) by {
            assert(!(<String as Ranked>::ranks_before(told[j], told[i])));
        }
    }
}

/// Whether a probe found `file` stale: it is no metadata file, or it or its socket is
/// that of a process that is gone.
pub open spec fn found_stale(probe: ProbedFile, file: String) -> bool {
    ||| probe.metadata is Err && file == probe.metadata_path
    ||| probe.metadata is Ok && !probe.process_runs && (file == probe.metadata_path || file
        == probe.metadata->Ok_0.socket_path)
}

proof fn lemma_stale(probes: Seq<ProbedFile>, file: String)
    ensures
        stale_files(probes).contains(file) <==> exists|i: int|
            0 <= i < probes.len() && found_stale(#[trigger] probes[i], file),
    decreases probes.len(),
{
    if probes.len() > 0 {
        let rest = probes.drop_last();
        let before = stale_files(rest);
        let own = stale_of(probes.last());
        let all = stale_files(probes);
        lemma_stale(rest, file);
        if all.contains(file) {
            let k = all.index_of(file);
            if k < before.len() {
                assert(before[k] == file);
                let i = choose|i: int| 0 <= i < rest.len() && found_stale(#[trigger] rest[i], file);
                assert(probes[i] == rest[i]);
            } else {
                assert(own[k - before.len()] == file);
                assert(found_stale(probes[probes.len() - 1], file));
            }
        }
        if exists|i: int| 0 <= i < probes.len() && found_stale(#[trigger] probes[i], file) {
            let i = choose|i: int| 0 <= i < probes.len() && found_stale(#[trigger] probes[i], file);
            if i < rest.len() {
                assert(rest[i] == probes[i]);
                let k = before.index_of(file);
                assert(all[k] == file);
            } else {
                let probe = probes[i];
                if file == probe.metadata_path {
                    assert(own[0] == file);
                    assert(all[before.len() as int] == file);
                } else {
                    assert(own[1] == file);
                    assert(all[before.len() as int + 1] == file);
                }
            }
        }
    } else {
        assert(stale_files(probes) =~= Seq::empty());
    }
}

/// A scan shows the sessions whose process runs and has answered both requests, all of
/// them and no others, by process, and removes the files that are stale, all of them and
/// no others.
pub proof fn lemma_scan_shows_live_sessions(
    probes: Vec<ProbedFile>,
    scan: StatusScan,
    session: LiveStatusSession,
    file: String,
)
    requires
        call_ensures(live_status_sessions, (probes,), scan),
    ensures
        scan.stale_files@.contains(file) <==> exists|i: int|
            0 <= i < probes@.len() && found_stale(#[trigger] probes@[i], file),
        scan.sessions.deep_view().contains(session.deep_view()) <==> exists|i: int|
            0 <= i < probes@.len() && (#[trigger] probes@[i]).metadata is Ok
                && probes@[i].process_runs && probes@[i].summary is Ok && probes@[i].tree is Ok
                && session.summary == probes@[i].summary->Ok_0 && session.tree.deep_view()
                == probes@[i].tree->Ok_0.deep_view(),
        forall|i: int, j: int|
            0 <= i < j < scan.sessions@.len() ==> (#[trigger] scan.sessions@[i]).summary.pid <= (
            #[trigger] scan.sessions@[j]).summary.pid,
{
    lemma_stale(probes@, file);
    crate::status_command::lemma_sessions_shown(probes@, session.deep_view());
    let told = scan.sessions.deep_view();
    assert forall|i: int, j: int| 0 <= i < j < scan.sessions@.len() implies (
    #[trigger] scan.sessions@[i]).summary.pid <= (#[trigger] scan.sessions@[j]).summary.pid by {
        assert(told[i] == scan.sessions@[i].deep_view() && told[j]
            == scan.sessions@[j].deep_view());
        assert(!(<LiveStatusSession as Ranked>::ranks_before(told[j], told[i])));
    }
}

} // verus!
