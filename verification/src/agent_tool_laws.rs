//! What the agent tools do, whatever agents there are.

use vstd::prelude::*;

use crate::agents::{
    codexx_namespace_spec, matches_kind, resolve_codexx_agent_target, target_by_id,
    target_by_path, unresolved_target, AgentMetadata, AgentStatus, AgentTarget, CodexxTool,
    FunctionCallError, LookupError, RegisterAgentConfigTool, TargetLookup, ToolName, ToolPayload,
    ToolSpec,
};
use crate::list_agents::{
    list_agents, selected, selection, AgentRecord, ListAgentsArgs, ListAgentsResult, ListedAgent,
};
use crate::order::{lemma_ordered, lemma_ordered_contains, ordered, Ranked};
use crate::register_agent::{
    agent_type_of, agent_types, register_agents, resolve_config_path, role_of, spawn_config,
    unique_types, AgentRole, RoleFile,
};
use crate::resume_agent::{
    begin_resume, check_resume_depth, finish_resume, handle_resume_agent,
    next_thread_spawn_depth, path_is_below, resume_scope,
    resume_source, resume_target, start_resume, Restore, RestoreRequest, ResumeAgentArgs,
    ResumeAttempt, ResumeBegin, ResumeReport, ResumeRun, ResumeScope, ResumeStart, ResumeTurn,
    SpawnSource, StoredAgent,
};
use crate::runtime_config::{
    restored_config, role_config, ConfigSnapshot, ConfigSource, RecordedConfig, RestoredConfig,
    RoleSettings, ThreadResume,
};
use crate::text::{contains_text, joined, lex_less, occurs_at, opt_lex_less};
use crate::thread::ThreadId;

verus! {

proof fn lemma_scope_names()
    ensures
        "self"@ != "subtree"@,
        "self"@ != "all"@,
        "subtree"@ != "all"@,
{
    reveal_strlit("self");
    reveal_strlit("subtree");
    reveal_strlit("all");
    assert("self"@.len() == 4 && "subtree"@.len() == 7 && "all"@.len() == 3);
}

/// Each scope has one name, no scope is the agent itself, and nothing else names one.
pub proof fn lemma_scope_is_named(scope: &Option<String>, named: Option<ResumeScope>)
    requires
        call_ensures(resume_scope, (scope,), named),
    ensures
        *scope is None ==> named == Some(ResumeScope::OnlySelf),
        *scope is Some ==> (named == Some(ResumeScope::OnlySelf) <==> scope->0@ == "self"@),
        *scope is Some ==> (named == Some(ResumeScope::Subtree) <==> scope->0@ == "subtree"@),
        *scope is Some ==> (named == Some(ResumeScope::All) <==> scope->0@ == "all"@),
        named is None <==> *scope is Some && scope->0@ != "self"@ && scope->0@ != "subtree"@
            && scope->0@ != "all"@,
{
    lemma_scope_names();
}

/// The agent that a call names is looked up, in the scope that it names; where it names
/// none the caller has to choose; and a scope that there is not is refused.
pub proof fn lemma_how_a_resume_starts(args: ResumeAgentArgs, start: ResumeStart)
    requires
        call_ensures(start_resume, (args,), start),
    ensures
        ({
            let scope = args.resume_scope;
            let known = scope is None || scope->0@ == "self"@ || scope->0@ == "subtree"@
                || scope->0@ == "all"@;
            let none = args.target is None && args.thread_id is None && args.task_name is None
                && args.agent_path is None;
            &&& start is Fail <==> !known
            &&& start is SelectionRequired <==> known && none
            &&& start is Resolve <==> known && !none
            &&& start is Fail ==> start->Fail_0 is RespondToModel
                && start->Fail_0->RespondToModel_0@
                == "resume_scope must be one of self, subtree, or all"@
            &&& start is Resolve && (scope is None || scope->0@ == "self"@) ==> start->scope
                == ResumeScope::OnlySelf
            &&& start is Resolve && scope is Some && scope->0@ == "subtree"@ ==> start->scope
                == ResumeScope::Subtree
            &&& start is Resolve && scope is Some && scope->0@ == "all"@ ==> start->scope
                == ResumeScope::All
            &&& start is Resolve && args.target is Some ==> start->target == args.target->0
            &&& start is Resolve && args.target is None && args.thread_id is Some ==> start->target
                == args.thread_id->0
            &&& start is Resolve && args.target is None && args.thread_id is None
                && args.task_name is Some ==> start->target == args.task_name->0
            &&& start is Resolve && args.target is None && args.thread_id is None
                && args.task_name is None ==> start->target == args.agent_path->0
        }),
{
    lemma_scope_names();
}

/// Whether `path` is that of an agent below the one at `above`.
pub open spec fn lies_below(path: Seq<char>, above: Seq<char>) -> bool {
    exists|rest: Seq<char>| path == #[trigger] (above.push('/') + rest)
}

pub(crate) proof fn lemma_is_below(path: Seq<char>, above: Seq<char>)
    ensures
        crate::resume_agent::is_below(path, above) <==> lies_below(path, above),
{
    reveal_strlit("/");
    let head = above + "/"@;
    assert(head =~= above.push('/'));
    if crate::resume_agent::is_below(path, above) {
        let rest = path.subrange(head.len() as int, path.len() as int);
        assert(path =~= above.push('/') + rest) by {
            assert forall|i: int| 0 <= i < path.len() implies path[i] == (above.push('/')
                + rest)[i] by {
                if i < head.len() {
                    assert(path.subrange(0, head.len() as int)[i] == path[i]);
                }
            }
        }
    }
    if lies_below(path, above) {
        let rest = choose|rest: Seq<char>| path == #[trigger] (above.push('/') + rest);
        assert(path.subrange(0, head.len() as int) =~= head);
    }
}

/// Whether a stored agent is to come back with the one at `above`: it is not loaded, it
/// lies below, and the scope is all, or it is the subtree and the agent was left open.
pub open spec fn comes_back(
    agent: StoredAgent,
    above: Option<String>,
    scope: ResumeScope,
) -> bool {
    &&& agent.status is NotFound
    &&& agent.agent_path is Some
    &&& above is Some
    &&& lies_below(agent.agent_path->0@, above->0@)
    &&& scope == ResumeScope::All || (scope == ResumeScope::Subtree && agent.is_open)
}

/// Whether `config` is what is recorded: the settings of the last turn, or else those of
/// the last snapshot, and the shell environment policy of the snapshot.
pub open spec fn is_own_config(config: RestoredConfig, recorded: RecordedConfig) -> bool {
    &&& recorded.turn_context is Some ==> config.settings == recorded.turn_context
    &&& recorded.turn_context is None && recorded.snapshot is Some ==> config.settings == Some(
        recorded.snapshot->0.settings,
    )
    &&& recorded.turn_context is None && recorded.snapshot is None ==> config.settings is None
    &&& recorded.snapshot is Some ==> config.shell_environment_policy == Some(
        recorded.snapshot->0.shell_environment_policy,
    )
    &&& recorded.snapshot is None ==> config.shell_environment_policy is None
}

/// Whether `request` brings `agent` back where it was and as it was configured.
pub open spec fn brings_back(request: RestoreRequest, agent: StoredAgent) -> bool {
    &&& request.thread_id == agent.thread_id
    &&& request.parent_thread_id == agent.parent_thread_id
    &&& request.depth == agent.depth
    &&& request.agent_path.deep_view() == agent.agent_path.deep_view()
    &&& is_own_config(request.config, agent.config)
}

/// Whether one of `requests` brings `agent` back.
pub open spec fn is_brought_back(agent: StoredAgent, requests: Seq<RestoreRequest>) -> bool {
    exists|r: int| 0 <= r < requests.len() && brings_back(#[trigger] requests[r], agent)
}

/// Whether `request` brings back one of the stored agents that are to come back.
pub open spec fn is_for_one_of(
    request: RestoreRequest,
    stored: Seq<StoredAgent>,
    above: Option<String>,
    scope: ResumeScope,
) -> bool {
    exists|k: int|
        0 <= k < stored.len() && comes_back(#[trigger] stored[k], above, scope) && brings_back(
            request,
            stored[k],
        )
}

proof fn lemma_restored_with(agent: StoredAgent, above: Option<String>, scope: ResumeScope)
    ensures
        crate::resume_agent::restored_with(agent, above.deep_view(), scope) <==> comes_back(
            agent,
            above,
            scope,
        ),
{
    if agent.agent_path is Some && above is Some {
        lemma_is_below(agent.agent_path->0@, above->0@);
    }
}

proof fn lemma_descendants_complete(
    stored: Seq<StoredAgent>,
    above: Option<String>,
    scope: ResumeScope,
)
    ensures
        forall|k: int|
            0 <= k < stored.len() && comes_back(#[trigger] stored[k], above, scope)
                ==> crate::resume_agent::restored_descendants(
                stored,
                above.deep_view(),
                scope,
            ).contains(
                Restore {
                    thread_id: stored[k].thread_id,
                    parent_thread_id: stored[k].parent_thread_id,
                    depth: stored[k].depth,
                    agent_path: stored[k].agent_path.deep_view(),
                    config: crate::runtime_config::own_config(stored[k].config),
                },
            ),
        crate::resume_agent::restored_descendants(stored, above.deep_view(), scope).len()
            == stored.filter(|agent: StoredAgent| comes_back(agent, above, scope)).len(),
    decreases stored.len(),
{
    let pred = |agent: StoredAgent| comes_back(agent, above, scope);
    let all = crate::resume_agent::restored_descendants(stored, above.deep_view(), scope);
    if stored.len() == 0 {
        reveal(Seq::filter);
    } else {
        let rest = stored.drop_last();
        let before = crate::resume_agent::restored_descendants(rest, above.deep_view(), scope);
        lemma_descendants_complete(rest, above, scope);
        lemma_restored_with(stored.last(), above, scope);
        assert(stored =~= rest.push(stored.last()));
        rest.lemma_filter_push(stored.last(), pred);
        assert forall|k: int| 0 <= k < stored.len() && comes_back(
            #[trigger] stored[k],
            above,
            scope,
        ) implies all.contains(
            Restore {
                thread_id: stored[k].thread_id,
                parent_thread_id: stored[k].parent_thread_id,
                depth: stored[k].depth,
                agent_path: stored[k].agent_path.deep_view(),
                config: crate::runtime_config::own_config(stored[k].config),
            },
        ) by {
            let x = Restore {
                thread_id: stored[k].thread_id,
                parent_thread_id: stored[k].parent_thread_id,
                depth: stored[k].depth,
                agent_path: stored[k].agent_path.deep_view(),
                config: crate::runtime_config::own_config(stored[k].config),
            };
            if k < rest.len() {
                assert(rest[k] == stored[k]);
                let m = before.index_of(x);
                assert(all[m] == x);
            } else {
                assert(all[all.len() - 1] == x);
            }
        }
    }
}

/// What a call brings back: the agent itself first, below the session, under its path and
/// with its own configuration, where it is not loaded; then every stored agent that is to
/// come back, in its place and as it was configured, by path; and nothing else. Where there
/// is nothing to bring back the call ends with the status that the agent has.
pub proof fn lemma_what_a_resume_brings_back(
    begin: ResumeBegin,
    config: RecordedConfig,
    session: ThreadId,
    status: AgentStatus,
    scope: ResumeScope,
    stored: Vec<StoredAgent>,
    turn: ResumeTurn,
    k: int,
    r: int,
    s: int,
)
    requires
        call_ensures(
            handle_resume_agent,
            (begin, config, session, status, scope, stored),
            turn,
        ),
    ensures
        ({
            let above = begin.target.agent_path;
            let run = turn->Restore_0;
            let requests = run.requests@;
            let own: int = if status is NotFound {
                1
            } else {
                0
            };
            let some = status is NotFound || exists|m: int|
                0 <= m < stored@.len() && comes_back(#[trigger] stored@[m], above, scope);
            &&& turn is Restore <==> some
            &&& turn is End <==> !some
            &&& turn is End ==> turn->End_0.result == Ok::<AgentStatus, FunctionCallError>(status)
                && turn->End_0.end.status == status && turn->End_0.end.receiver_thread_id
                == begin.target.thread_id && turn->End_0.end.agent_nickname
                == begin.receiver.agent_nickname && turn->End_0.end.agent_role
                == begin.receiver.agent_role
            &&& turn is Restore ==> run.begin == begin && run.done == 0 && run.failure is None
                && run.wf()
            &&& turn is Restore ==> requests.len() == own + stored@.filter(
                |agent: StoredAgent| comes_back(agent, above, scope),
            ).len()
            &&& status is NotFound ==> requests[0].thread_id == begin.target.thread_id
                && requests[0].parent_thread_id == session && requests[0].depth
                == begin.child_depth && requests[0].agent_path.deep_view() == above.deep_view()
                && is_own_config(requests[0].config, config)
            &&& 0 <= k < stored@.len() && comes_back(stored@[k], above, scope) ==> is_brought_back(
                stored@[k],
                requests,
            )
            &&& turn is Restore && own <= r < requests.len() ==> is_for_one_of(
                requests[r],
                stored@,
                above,
                scope,
            )
            &&& turn is Restore && own <= r < s < requests.len() ==> !lex_less(
                requests[s].agent_path->0@,
                requests[r].agent_path->0@,
            )
        }),
{
    let above = begin.target.agent_path;
    let path = above.deep_view();
    let list = crate::resume_agent::restore_list(
        begin.target,
        config,
        session,
        begin.child_depth,
        status,
        scope,
        stored@,
    );
    let below = crate::resume_agent::restored_descendants(stored@, path, scope);
    let sorted = ordered::<RestoreRequest>(below);
    let own: int = if status is NotFound {
        1
    } else {
        0
    };
    let pred = |agent: StoredAgent| comes_back(agent, above, scope);
    lemma_ordered::<RestoreRequest>(below, arbitrary());
    lemma_descendants_complete(stored@, above, scope);
    crate::resume_agent::lemma_restore_list(
        begin.target,
        config,
        session,
        begin.child_depth,
        status,
        scope,
        stored@,
    );
    assert(list.len() == own + stored@.filter(pred).len());
    let some = status is NotFound || exists|m: int|
        0 <= m < stored@.len() && comes_back(#[trigger] stored@[m], above, scope);
    assert(list.len() > 0 <==> some) by {
        if exists|m: int|
            0 <= m < stored@.len() && comes_back(#[trigger] stored@[m], above, scope) {
            let m = choose|m: int|
                0 <= m < stored@.len() && comes_back(#[trigger] stored@[m], above, scope);
            assert(below.len() > 0);
        }
        if list.len() > own {
            assert(crate::resume_agent::restores_one_of(list[own], stored@, path, scope));
            let m = choose|m: int|
                0 <= m < stored@.len() && crate::resume_agent::restored_with(
                    stored@[m],
                    path,
                    scope,
                ) && crate::resume_agent::restores(list[own], #[trigger] stored@[m]);
            lemma_restored_with(stored@[m], above, scope);
            assert(comes_back(stored@[m], above, scope));
        }
    }
    if turn is Restore {
        let requests = turn->Restore_0.requests;
        let told = requests.deep_view();
        assert(told.len() == requests@.len());
        assert forall|m: int| 0 <= m < requests@.len() implies told[m]
            == (#[trigger] requests@[m]).deep_view() by {}
        if status is NotFound {
            assert(told[0] == list[0]);
            assert(requests@[0].deep_view() == list[0]);
        }
        if 0 <= k < stored@.len() && comes_back(stored@[k], above, scope) {
            let x = Restore {
                thread_id: stored@[k].thread_id,
                parent_thread_id: stored@[k].parent_thread_id,
                depth: stored@[k].depth,
                agent_path: stored@[k].agent_path.deep_view(),
                config: crate::runtime_config::own_config(stored@[k].config),
            };
            lemma_ordered_contains::<RestoreRequest>(below, x);
            let m = sorted.index_of(x);
            assert(list[own + m] == x);
            assert(requests@[own + m].deep_view() == x);
            assert(brings_back(requests@[own + m], stored@[k]));
        }
        assert forall|m: int| own <= m < requests@.len() implies is_for_one_of(
            #[trigger] requests@[m],
            stored@,
            above,
            scope,
        ) by {
            assert(crate::resume_agent::restores_one_of(list[m], stored@, path, scope));
            let j = choose|j: int|
                0 <= j < stored@.len() && crate::resume_agent::restored_with(
                    stored@[j],
                    path,
                    scope,
                ) && crate::resume_agent::restores(list[m], #[trigger] stored@[j]);
            lemma_restored_with(stored@[j], above, scope);
            assert(told[m] == list[m]);
            assert(brings_back(requests@[m], stored@[j]));
        }
        if own <= r < s < requests@.len() {
            assert(is_for_one_of(requests@[r], stored@, above, scope));
            assert(is_for_one_of(requests@[s], stored@, above, scope));
            assert(told[r] == sorted[r - own] && told[s] == sorted[s - own]);
            assert(!(<RestoreRequest as Ranked>::ranks_before(sorted[s - own], sorted[r - own])));
            assert(!opt_lex_less(told[s].agent_path, told[r].agent_path));
        }
    }
}

/// An agent is brought back in the place and with the configuration of its request.
pub proof fn lemma_next_agent_back(
    run: &ResumeRun,
    next: (ThreadId, SpawnSource, &RestoredConfig),
)
    requires
        run.wf(),
        call_ensures(ResumeRun::next_restore, (run,), next),
    ensures
        ({
            let request = run.requests@[run.done as int];
            &&& next.0 == request.thread_id
            &&& next.1.parent_thread_id == request.parent_thread_id
            &&& next.1.depth == request.depth
            &&& next.1.agent_path == request.agent_path
            &&& next.1.agent_nickname is None
            &&& next.1.agent_role is None
            &&& *next.2 == request.config
        }),
{
}

/// Agents are brought back one after the other; the first that cannot be ends it, and
/// after the last one the agent that was asked for is looked at.
pub proof fn lemma_one_after_the_other(
    run: ResumeRun,
    outcome: Result<(), FunctionCallError>,
    turn: ResumeTurn,
)
    requires
        run.wf(),
        call_ensures(ResumeRun::restored, (run, outcome), turn),
    ensures
        turn is Restore <==> outcome is Ok && run.done + 1 < run.requests@.len(),
        turn is Restore ==> turn->Restore_0.done == run.done + 1 && turn->Restore_0.requests
            == run.requests && turn->Restore_0.begin == run.begin && turn->Restore_0.failure
            is None,
        !(turn is Restore) ==> turn is Look && turn->Look_0.begin == run.begin,
        outcome is Ok && turn is Look ==> turn->Look_0.failure is None,
        outcome is Err ==> turn->Look_0.failure == Some(outcome->Err_0),
{
    assert(run.requests.len() == run.requests@.len());
}

/// The call ends with the status that the agent has then, or with the failure; the agent
/// is announced as it is known then, and as before where it failed.
pub proof fn lemma_how_a_resume_ends(
    run: ResumeRun,
    status: AgentStatus,
    metadata: Option<AgentMetadata>,
    report: ResumeReport,
)
    requires
        call_ensures(ResumeRun::looked, (run, status, metadata), report),
    ensures
        report.end.receiver_thread_id == run.begin.target.thread_id,
        report.end.status == status,
        run.failure is None ==> report.result == Ok::<AgentStatus, FunctionCallError>(status),
        run.failure is Some ==> report.result == Err::<AgentStatus, FunctionCallError>(
            run.failure->0,
        ),
        run.failure is None && metadata is Some ==> report.end.agent_nickname
            == metadata->0.agent_nickname && report.end.agent_role == metadata->0.agent_role,
        run.failure is Some || metadata is None ==> report.end.agent_nickname
            == run.begin.receiver.agent_nickname && report.end.agent_role
            == run.begin.receiver.agent_role,
{
}

/// What a call comes to, with and without an attempt to bring the agent back.
pub proof fn lemma_resume_report(
    id: ThreadId,
    before: AgentMetadata,
    status: AgentStatus,
    attempt: Option<ResumeAttempt>,
    report: ResumeReport,
)
    requires
        call_ensures(finish_resume, (id, before, status, attempt), report),
    ensures
        report.end.receiver_thread_id == id,
        attempt is None ==> report.result == Ok::<AgentStatus, FunctionCallError>(status)
            && report.end.status == status,
        attempt is Some ==> report.end.status == attempt->0.status && (report.result is Ok
            <==> attempt->0.outcome is Ok),
        attempt is Some && attempt->0.outcome is Err ==> report.result->Err_0
            == attempt->0.outcome->Err_0,
        attempt is Some && attempt->0.outcome is Ok ==> report.result->Ok_0 == attempt->0.status,
        attempt is Some && attempt->0.outcome is Ok && attempt->0.metadata is Some
            ==> report.end.agent_nickname == attempt->0.metadata->0.agent_nickname
            && report.end.agent_role == attempt->0.metadata->0.agent_role,
        attempt is None || attempt->0.outcome is Err || attempt->0.metadata is None
            ==> report.end.agent_nickname == before.agent_nickname && report.end.agent_role
            == before.agent_role,
{
}

/// An agent comes back one level below the agent that calls, the main thread being at
/// none; where that is too deep, or the agent was not found, it does not.
pub proof fn lemma_depth_of_a_resume(
    target: Result<AgentTarget, FunctionCallError>,
    metadata: Option<AgentMetadata>,
    depth: Option<i32>,
    max_depth: i32,
    begin: Result<ResumeBegin, FunctionCallError>,
    child_depth: i32,
)
    requires
        call_ensures(begin_resume, (target, metadata, depth, max_depth), begin),
        call_ensures(next_thread_spawn_depth, (depth,), child_depth),
    ensures
        depth is None ==> child_depth == 1,
        depth is Some && depth->0 < i32::MAX ==> child_depth == depth->0 + 1,
        depth == Some(i32::MAX) ==> child_depth == i32::MAX,
        begin is Ok <==> target is Ok && child_depth <= max_depth,
        begin is Ok ==> begin->Ok_0.target == target->Ok_0 && begin->Ok_0.child_depth
            == child_depth,
        begin is Ok && metadata is Some ==> begin->Ok_0.receiver == metadata->0,
        begin is Ok && metadata is None ==> begin->Ok_0.receiver.agent_path is None
            && begin->Ok_0.receiver.agent_nickname is None && begin->Ok_0.receiver.agent_role
            is None,
        target is Err ==> begin->Err_0 == target->Err_0,
        target is Ok && child_depth > max_depth ==> begin->Err_0 is RespondToModel
            && begin->Err_0->RespondToModel_0@
            == "Agent depth limit reached. Solve the task yourself."@,
{
}

/// What is recorded of an agent is what it comes back with; and a thread of an agent is
/// resumed with what is stored with it.
pub proof fn lemma_recorded_config_is_kept(
    recorded: RecordedConfig,
    config: RestoredConfig,
    id: ThreadId,
    resume: ThreadResume,
)
    requires
        call_ensures(restored_config, (recorded,), config),
        call_ensures(ThreadResume::of_agent, (id,), resume),
    ensures
        is_own_config(config, recorded),
        resume.thread_id == id,
        resume.config == ConfigSource::Stored,
{
}

/// Whether an agent is the one that a filter on its thread id, its task name and its path
/// asks for.
pub open spec fn is_asked_for(args: ListAgentsArgs, agent: AgentRecord) -> bool {
    &&& args.thread_id is Some ==> agent.thread_id == args.thread_id->0@
    &&& args.task_name is Some ==> agent.task_name == Some(args.task_name->0@)
    &&& args.agent_path is Some ==> agent.agent_path == Some(args.agent_path->0@)
}

/// Whether `text` holds `query`.
pub open spec fn holds_query(text: Seq<char>, query: Seq<char>) -> bool {
    exists|a: Seq<char>, b: Seq<char>| text == #[trigger] (a + query + b)
}

/// Whether one of the columns that are searched holds `query`: the task name, the path,
/// the thread id, the type, the nickname or the summary.
pub open spec fn is_found(agent: AgentRecord, query: Seq<char>) -> bool {
    ||| agent.task_name is Some && holds_query(agent.task_name->0, query)
    ||| agent.agent_path is Some && holds_query(agent.agent_path->0, query)
    ||| holds_query(agent.thread_id, query)
    ||| agent.agent_type is Some && holds_query(agent.agent_type->0, query)
    ||| agent.nickname is Some && holds_query(agent.nickname->0, query)
    ||| holds_query(agent.summary, query)
}

proof fn lemma_holds_query(text: Seq<char>, query: Seq<char>)
    ensures
        contains_text(text, query) <==> holds_query(text, query),
{
    if contains_text(text, query) {
        let at = choose|at: int| occurs_at(text, query, at);
        let a = text.take(at);
        let b = text.skip(at + query.len());
        assert(text =~= a + text.subrange(at, at + query.len()) + b);
        assert(text == a + query + b);
    }
    if holds_query(text, query) {
        let (a, b) = choose|a: Seq<char>, b: Seq<char>| text == #[trigger] (a + query + b);
        assert(text.subrange(a.len() as int, (a.len() + query.len()) as int) =~= query);
        assert(occurs_at(text, query, a.len() as int));
    }
}

proof fn lemma_selected(args: ListAgentsArgs, agent: AgentRecord)
    ensures
        selected(args, agent) <==> is_asked_for(args, agent) && (args.query is Some ==> is_found(
            agent,
            args.query->0@,
        )),
{
    if args.query is Some {
        let query = args.query->0@;
        if agent.task_name is Some {
            lemma_holds_query(agent.task_name->0, query);
        }
        if agent.agent_path is Some {
            lemma_holds_query(agent.agent_path->0, query);
        }
        lemma_holds_query(agent.thread_id, query);
        if agent.agent_type is Some {
            lemma_holds_query(agent.agent_type->0, query);
        }
        if agent.nickname is Some {
            lemma_holds_query(agent.nickname->0, query);
        }
        lemma_holds_query(agent.summary, query);
    }
}

/// Without a limit, the list holds the agents that are asked for and found, all of them
/// and no others, by path and thread id, and is not cut.
pub proof fn lemma_list_holds_what_is_asked_for(
    args: &ListAgentsArgs,
    agents: Vec<ListedAgent>,
    required: bool,
    result: ListAgentsResult,
    agent: ListedAgent,
)
    requires
        args.limit is None,
        call_ensures(list_agents, (args, agents, required), result),
    ensures
        result.agents.deep_view().contains(agent.deep_view()) <==> agents.deep_view().contains(
            agent.deep_view(),
        ) && is_asked_for(*args, agent.deep_view()) && (args.query is Some ==> is_found(
            agent.deep_view(),
            args.query->0@,
        )),
        args.thread_id is Some && result.agents.deep_view().contains(agent.deep_view())
            ==> agent.thread_id@ == args.thread_id->0@,
        args.task_name is Some && result.agents.deep_view().contains(agent.deep_view())
            ==> agent.task_name is Some && agent.task_name->0@ == args.task_name->0@,
        args.agent_path is Some && result.agents.deep_view().contains(agent.deep_view())
            ==> agent.agent_path is Some && agent.agent_path->0@ == args.agent_path->0@,
        args.query is None && (args.thread_id is Some ==> agent.thread_id@ == args.thread_id->0@)
            && (args.task_name is Some ==> agent.task_name is Some && agent.task_name->0@
            == args.task_name->0@) && (args.agent_path is Some ==> agent.agent_path is Some
            && agent.agent_path->0@ == args.agent_path->0@) && agents.deep_view().contains(
            agent.deep_view(),
        ) ==> result.agents.deep_view().contains(agent.deep_view()),
        !result.truncated,
        result.selection_required == required,
        forall|i: int, j: int|
            0 <= i < j < result.agents@.len() ==> ({
                let a = #[trigger] result.agents.deep_view()[i];
                let b = #[trigger] result.agents.deep_view()[j];
                &&& !opt_lex_less(b.agent_path, a.agent_path)
                &&& a.agent_path == b.agent_path ==> !lex_less(b.thread_id, a.thread_id)
            }),
{
    let given = agents.deep_view();
    let all = selection(*args, given);
    let record = agent.deep_view();
    crate::list_agents::lemma_selection(*args, given, record);
    lemma_selected(*args, record);
    assert(all.take(all.len() as int) =~= all);
    let told = result.agents.deep_view();
    assert(told == all);
    assert forall|i: int, j: int| 0 <= i < j < result.agents@.len() implies ({
        let a = #[trigger] told[i];
        let b = #[trigger] told[j];
        &&& !opt_lex_less(b.agent_path, a.agent_path)
        &&& a.agent_path == b.agent_path ==> !lex_less(b.thread_id, a.thread_id)
    }) by {
        assert(!(<ListedAgent as Ranked>::ranks_before(told[j], told[i])));
    }
}

/// A limit keeps the beginning of the list, and says whether anything was cut off.
pub proof fn lemma_limit_keeps_the_beginning(
    args: &ListAgentsArgs,
    unlimited: &ListAgentsArgs,
    agents: Vec<ListedAgent>,
    required: bool,
    result: ListAgentsResult,
    whole: ListAgentsResult,
)
    requires
        args.limit is Some,
        *unlimited == (ListAgentsArgs { limit: None, ..*args }),
        call_ensures(list_agents, (args, agents, required), result),
        call_ensures(list_agents, (unlimited, agents, required), whole),
    ensures
        args.limit->0 <= whole.agents@.len() ==> result.agents@.len() == args.limit->0,
        args.limit->0 >= whole.agents@.len() ==> result.agents@.len() == whole.agents@.len(),
        forall|i: int|
            0 <= i < result.agents@.len() ==> #[trigger] result.agents.deep_view()[i]
                == whole.agents.deep_view()[i],
        result.truncated <==> args.limit->0 < whole.agents@.len(),
{
    let given = agents.deep_view();
    assert forall|agent: AgentRecord| selected(*args, agent) == selected(*unlimited, agent) by {}
    assert((|agent: AgentRecord| selected(*args, agent)) =~= (|agent: AgentRecord|
        selected(*unlimited, agent)));
    let all = selection(*args, given);
    assert(all == selection(*unlimited, given));
    assert(all.take(all.len() as int) =~= all);
    assert(result.agents.deep_view().len() == result.agents@.len());
    assert(whole.agents.deep_view().len() == whole.agents@.len());
}

/// The line of an agent in the table: its columns in order, a dash where it has none.
pub open spec fn line_of(agent: AgentRecord) -> Seq<char> {
    let dash = |text: Option<Seq<char>>|
        if text is Some {
            text->0
        } else {
            "-"@
        };
    dash(agent.task_name) + " | "@ + dash(agent.agent_path) + " | "@ + agent.thread_id + " | "@
        + dash(agent.agent_type) + " | "@ + dash(agent.nickname) + " | "@ + agent.live_status
        + " | "@ + agent.summary
}

proof fn lemma_join_seven(cells: Seq<Seq<char>>, separator: Seq<char>)
    requires
        cells.len() == 7,
    ensures
        joined(cells, separator) == cells[0] + separator + cells[1] + separator + cells[2]
            + separator + cells[3] + separator + cells[4] + separator + cells[5] + separator
            + cells[6],
{
    reveal_with_fuel(joined, 8);
    assert(cells.drop_last().drop_last().drop_last().drop_last().drop_last().drop_last().len()
        == 1);
}

/// The table holds the names of the columns and then a line for each agent of the list,
/// in its order.
pub proof fn lemma_table_of_agents(
    args: &ListAgentsArgs,
    agents: Vec<ListedAgent>,
    required: bool,
    result: ListAgentsResult,
)
    requires
        call_ensures(list_agents, (args, agents, required), result),
    ensures
        result.table@ == joined(
            seq![
                "TASK"@ + " | "@ + "AGENT PATH"@ + " | "@ + "THREAD ID"@ + " | "@ + "AGENT TYPE"@
                    + " | "@ + "NICKNAME"@ + " | "@ + "STATUS"@ + " | "@ + "SUMMARY"@,
            ] + result.agents.deep_view().map_values(|agent: AgentRecord| line_of(agent)),
            "\n"@,
        ),
{
    let shown = result.agents.deep_view();
    let head = crate::list_agents::table_head();
    lemma_join_seven(head, " | "@);
    assert forall|agent: AgentRecord| #[trigger]
        joined(crate::list_agents::agent_cells(agent), " | "@) == line_of(agent) by {
        lemma_join_seven(crate::list_agents::agent_cells(agent), " | "@);
    }
    assert(crate::list_agents::table_lines(shown) =~= seq![
        "TASK"@ + " | "@ + "AGENT PATH"@ + " | "@ + "THREAD ID"@ + " | "@ + "AGENT TYPE"@ + " | "@
            + "NICKNAME"@ + " | "@ + "STATUS"@ + " | "@ + "SUMMARY"@,
    ] + shown.map_values(|agent: AgentRecord| line_of(agent)));
}

/// The type of a role is the name that its file gives, or else the stem of the name of the
/// file; a path of a call leads where it leads from the working directory.
pub proof fn lemma_type_of_a_role(
    file: &RoleFile,
    agent_type: String,
    stem: Seq<char>,
    cwd: &str,
    path: &str,
    resolved: String,
)
    requires
        call_ensures(agent_type_of, (file,), agent_type),
        call_ensures(resolve_config_path, (cwd, path), resolved),
        stem.len() > 0,
    ensures
        file.name is Some && file.name->0@.len() > 0 ==> agent_type@ == file.name->0@,
        (file.name is None || file.name->0@.len() == 0) && file.file_name@ == stem + ".toml"@
            ==> agent_type@ == stem,
        path@.len() > 0 && path@[0] == '/' ==> resolved@ == path@,
        !(path@.len() > 0 && path@[0] == '/') && cwd@.len() > 0 && cwd@.last() != '/' ==> resolved@
            == cwd@.push('/') + path@,
{
    reveal_strlit("toml");
    reveal_strlit(".toml");
    reveal_strlit("/");
    let name = stem.push('.') + "toml"@;
    assert(stem + ".toml"@ =~= name);
    assert(name.len() >= 6);
    assert(name != seq!['.', '.']) by {
        assert(seq!['.', '.'].len() == 2);
    }
    crate::text_laws::lemma_file_name(stem, "toml"@);
    assert(cwd@ + "/"@ + path@ =~= cwd@.push('/') + path@);
}

/// Whether the file at `i` is the last of `files` that registers its type.
pub open spec fn is_last_of_type(files: Seq<RoleFile>, i: int) -> bool {
    &&& 0 <= i < files.len()
    &&& forall|j: int|
        i < j < files.len() ==> crate::register_agent::type_of(#[trigger] files[j])
            != crate::register_agent::type_of(files[i])
}

/// Whether `roles` holds the role that `file` registers.
pub open spec fn holds_role_of(roles: Seq<AgentRole>, file: RoleFile) -> bool {
    exists|r: int|
        0 <= r < roles.len() && (#[trigger] roles[r]).agent_type@
            == crate::register_agent::type_of(file) && roles[r].description == file.description
            && roles[r].nickname_candidates == file.nickname_candidates && roles[r].settings
            == file.settings
}

proof fn lemma_last_file(files: Seq<RoleFile>, i: int)
    requires
        is_last_of_type(files, i),
    ensures
        crate::register_agent::last_file(files, crate::register_agent::type_of(files[i])) == Some(
            files[i],
        ),
    decreases files.len(),
{
    if i < files.len() - 1 {
        assert(crate::register_agent::type_of(files[files.len() - 1])
            != crate::register_agent::type_of(files[i]));
        let rest = files.drop_last();
        assert(rest[i] == files[i]);
        assert forall|j: int| i < j < rest.len() implies crate::register_agent::type_of(
            #[trigger] rest[j],
        ) != crate::register_agent::type_of(rest[i]) by {
            assert(rest[j] == files[j]);
        }
        lemma_last_file(rest, i);
    }
}

proof fn lemma_no_file(files: Seq<RoleFile>, agent_type: Seq<char>)
    requires
        forall|j: int|
            0 <= j < files.len() ==> crate::register_agent::type_of(#[trigger] files[j])
                != agent_type,
    ensures
        crate::register_agent::last_file(files, agent_type) is None,
    decreases files.len(),
{
    if files.len() > 0 {
        let rest = files.drop_last();
        assert(crate::register_agent::type_of(files[files.len() - 1]) != agent_type);
        assert forall|j: int| 0 <= j < rest.len() implies crate::register_agent::type_of(
            #[trigger] rest[j],
        ) != agent_type by {
            assert(rest[j] == files[j]);
        }
        lemma_no_file(rest, agent_type);
    }
}

proof fn lemma_role_of(roles: Seq<AgentRole>, agent_type: Seq<char>)
    ensures
        role_of(roles, agent_type) is Some ==> roles.contains(role_of(roles, agent_type)->0)
            && role_of(roles, agent_type)->0.agent_type@ == agent_type,
        role_of(roles, agent_type) is None ==> forall|i: int|
            0 <= i < roles.len() ==> (#[trigger] roles[i]).agent_type@ != agent_type,
    decreases roles.len(),
{
    if roles.len() > 0 {
        let rest = roles.drop_last();
        lemma_role_of(rest, agent_type);
        if roles.last().agent_type@ == agent_type {
            assert(roles[roles.len() - 1] == roles.last());
        } else if role_of(rest, agent_type) is Some {
            let i = rest.index_of(role_of(rest, agent_type)->0);
            assert(roles[i] == rest[i]);
        } else {
            assert forall|i: int| 0 <= i < roles.len() implies (#[trigger] roles[i]).agent_type@
                != agent_type by {
                if i < rest.len() {
                    assert(rest[i] == roles[i]);
                }
            }
        }
    }
}

proof fn lemma_role_unique(roles: Seq<AgentRole>, i: int)
    requires
        unique_types(roles),
        0 <= i < roles.len(),
    ensures
        role_of(roles, roles[i].agent_type@) == Some(roles[i]),
{
    let agent_type = roles[i].agent_type@;
    lemma_role_of(roles, agent_type);
    assert(role_of(roles, agent_type) is Some);
    let k = roles.index_of(role_of(roles, agent_type)->0);
    if k < i {
        assert(roles[k].agent_type@ != roles[i].agent_type@);
    } else if k > i {
        assert(roles[i].agent_type@ != roles[k].agent_type@);
    }
}

/// Registering succeeds if and only if every file has a description. Then the last file of
/// each type is registered with its description, nicknames and settings; a type that no
/// file is of stays as it was; and the names that are told are those of all registered
/// types, sorted. Where it fails nothing is registered.
pub proof fn lemma_registering(files: Vec<RoleFile>, i: int, k: int)
    ensures
        forall|roles: &mut Vec<AgentRole>, result: Result<Vec<String>, String>|
            unique_types(roles@) && #[trigger] call_ensures(
                register_agents,
                (roles, files),
                result,
            ) ==> registers_files(roles@, files@, final(roles)@, result, i, k),
{
    assert forall|roles: &mut Vec<AgentRole>, result: Result<Vec<String>, String>|
        unique_types(roles@) && #[trigger] call_ensures(
            register_agents,
            (roles, files),
            result,
        ) implies registers_files(roles@, files@, final(roles)@, result, i, k) by {
        let before = roles@;
        let after = final(roles)@;
        if result is Ok {
            if is_last_of_type(files@, i) {
                lemma_last_file(files@, i);
                let t = crate::register_agent::type_of(files@[i]);
                lemma_role_of(after, t);
                assert(role_of(after, t) is Some);
                let r = after.index_of(role_of(after, t)->0);
                assert(after[r] == role_of(after, t)->0);
                assert(holds_role_of(after, files@[i]));
            }
            if 0 <= k < before.len() && (forall|j: int|
                0 <= j < files@.len() ==> crate::register_agent::type_of(#[trigger] files@[j])
                    != before[k].agent_type@) {
                let t = before[k].agent_type@;
                lemma_no_file(files@, t);
                lemma_role_unique(before, k);
                assert(role_of(after, t) == role_of(before, t));
                lemma_role_of(after, t);
                assert(after.contains(before[k]));
            }
            lemma_type_names(after, result->Ok_0);
        }
    }
}

/// Whether `names` are the names of the types of `roles`, sorted, each of them once.
pub open spec fn names_types(names: Seq<Seq<char>>, roles: Seq<AgentRole>) -> bool {
    &&& forall|i: int, j: int|
        0 <= i < j < names.len() ==> lex_less(#[trigger] names[i], #[trigger] names[j])
    &&& forall|r: int| 0 <= r < roles.len() ==> names.contains((#[trigger] roles[r]).agent_type@)
    &&& forall|i: int| 0 <= i < names.len() ==> is_type_in(#[trigger] names[i], roles)
}

/// Whether one of `roles` has the type `name`.
pub open spec fn is_type_in(name: Seq<char>, roles: Seq<AgentRole>) -> bool {
    exists|r: int| 0 <= r < roles.len() && (#[trigger] roles[r]).agent_type@ == name
}

proof fn lemma_type_names(roles: Seq<AgentRole>, types: Vec<String>)
    requires
        crate::order::increasing(types.deep_view()),
        types.deep_view().to_set() == roles.map_values(
            |role: AgentRole| role.agent_type@,
        ).to_set(),
    ensures
        names_types(types.deep_view(), roles),
{
    let names = types.deep_view();
    let all = roles.map_values(|role: AgentRole| role.agent_type@);
    assert forall|r: int| 0 <= r < roles.len() implies names.contains(
        (#[trigger] roles[r]).agent_type@,
    ) by {
        assert(all[r] == roles[r].agent_type@);
        assert(all.to_set().contains(all[r]));
        assert(names.to_set().contains(all[r]));
    }
    assert forall|i: int| 0 <= i < names.len() implies is_type_in(#[trigger] names[i], roles) by {
        assert(names.to_set().contains(names[i]));
        assert(all.to_set().contains(names[i]));
        let r = all.index_of(names[i]);
        assert(roles[r].agent_type@ == names[i]);
    }
}

/// Whether registering `files` in `before` came to `after` and `result`, seen from the
/// file at `i` and the role that stood at `k`.
pub open spec fn registers_files(
    before: Seq<AgentRole>,
    files: Seq<RoleFile>,
    after: Seq<AgentRole>,
    result: Result<Vec<String>, String>,
    i: int,
    k: int,
) -> bool {
    &&& result is Ok <==> forall|j: int|
        0 <= j < files.len() ==> (#[trigger] files[j]).description is Some
    &&& result is Ok && is_last_of_type(files, i) ==> holds_role_of(after, files[i])
    &&& result is Ok && 0 <= k < before.len() && (forall|j: int|
        0 <= j < files.len() ==> crate::register_agent::type_of(#[trigger] files[j])
            != before[k].agent_type@) ==> after.contains(before[k])
    &&& result is Ok ==> names_types(result->Ok_0.deep_view(), after)
    &&& result is Err ==> after == before
}

/// Whether an agent of a role runs with `config` below a parent that runs with `parent`:
/// what the role sets wins, and what it omits is as the parent has it.
pub open spec fn role_wins(
    config: ConfigSnapshot,
    role: RoleSettings,
    parent: ConfigSnapshot,
) -> bool {
    &&& role.model is Some ==> config.settings.model == role.model->0
    &&& role.model is None ==> config.settings.model == parent.settings.model
    &&& role.reasoning_effort is Some ==> config.settings.reasoning_effort == role.reasoning_effort
    &&& role.reasoning_effort is None ==> config.settings.reasoning_effort
        == parent.settings.reasoning_effort
    &&& role.approval_policy is Some ==> config.settings.approval_policy == role.approval_policy->0
    &&& role.approval_policy is None ==> config.settings.approval_policy
        == parent.settings.approval_policy
    &&& role.permission_profile is Some ==> config.settings.permission_profile
        == role.permission_profile->0
    &&& role.permission_profile is None ==> config.settings.permission_profile
        == parent.settings.permission_profile
    &&& role.cwd is Some ==> config.settings.cwd == role.cwd->0
    &&& role.cwd is None ==> config.settings.cwd == parent.settings.cwd
    &&& role.workspace_roots is Some ==> config.settings.workspace_roots.deep_view()
        == role.workspace_roots->0.deep_view()
    &&& role.workspace_roots is None ==> config.settings.workspace_roots.deep_view()
        == parent.settings.workspace_roots.deep_view()
    &&& role.shell_environment_policy is Some ==> config.shell_environment_policy
        == role.shell_environment_policy->0
    &&& role.shell_environment_policy is None ==> config.shell_environment_policy
        == parent.shell_environment_policy
}

/// An agent is spawned with the settings of the role of its type, which win over those of
/// its parent; of a type that is not registered it has none.
pub proof fn lemma_spawned_agents_have_their_role(
    roles: &Vec<AgentRole>,
    agent_type: &str,
    parent: ConfigSnapshot,
    config: Option<ConfigSnapshot>,
    r: int,
    role: &RoleSettings,
    in_role: ConfigSnapshot,
)
    requires
        unique_types(roles@),
        call_ensures(spawn_config, (roles, agent_type, parent), config),
        call_ensures(role_config, (role, parent), in_role),
    ensures
        0 <= r < roles@.len() && roles@[r].agent_type@ == agent_type@ ==> config is Some
            && role_wins(config->0, roles@[r].settings, parent),
        config is Some ==> is_type_in(agent_type@, roles@),
        role_wins(in_role, *role, parent),
{
    lemma_role_of(roles@, agent_type@);
    if 0 <= r < roles@.len() && roles@[r].agent_type@ == agent_type@ {
        lemma_role_unique(roles@, r);
    }
    if config is Some {
        let k = roles@.index_of(role_of(roles@, agent_type@)->0);
        assert(roles@[k].agent_type@ == agent_type@);
    }
}

/// Each tool is called by its own name, in the namespace of the tools.
pub proof fn lemma_tool_names(tool: &CodexxTool, name: ToolName)
    requires
        call_ensures(CodexxTool::tool_name, (tool,), name),
    ensures
        name.namespace is Some && name.namespace->0@ == "codexx_multi_agent"@,
        *tool is RegisterAgent ==> name.name@ == "register_agent"@,
        *tool is SpawnAgent ==> name.name@ == "spawn_agent"@,
        *tool is ResumeAgent ==> name.name@ == "resume_agent"@,
        *tool is SendMessage ==> name.name@ == "send_message"@,
        *tool is FollowupTask ==> name.name@ == "followup_task"@,
        *tool is WaitAgent ==> name.name@ == "wait_agent"@,
        *tool is WaitAgentStatus ==> name.name@ == "wait_agent_status"@,
        *tool is CloseAgent ==> name.name@ == "close_agent"@,
        *tool is ListAgents ==> name.name@ == "list_agents"@,
{
}

/// The compatibility tools share a name; only the first stands in a namespace and is
/// found by searching.
pub proof fn lemma_compatibility_tools(
    tool: &RegisterAgentConfigTool,
    name: ToolName,
    words: Option<String>,
)
    requires
        call_ensures(RegisterAgentConfigTool::tool_name, (tool,), name),
        call_ensures(RegisterAgentConfigTool::search_info, (tool,), words),
    ensures
        name.name@ == "register_agent_config"@,
        *tool is V1 ==> name.namespace is Some && name.namespace->0@ == "multi_agent_v1"@,
        *tool is V2 ==> name.namespace is None,
        words is Some <==> *tool is V1,
        words is Some ==> words->0@
            == "register_agent_config register agent config config.toml agent_type agents reload role"@,
{
}

/// The tools take function calls only, and the description of a function is moved into
/// their namespace.
pub proof fn lemma_tool_calls<F>(
    payload: &ToolPayload,
    matches: bool,
    spec: ToolSpec<F>,
    description: &str,
    moved: ToolSpec<F>,
)
    requires
        call_ensures(matches_kind, (payload,), matches),
        call_ensures(codexx_namespace_spec::<F>, (spec, description), moved),
    ensures
        matches <==> *payload is Function,
        spec is Function ==> moved is Namespace && moved->name@ == "codexx_multi_agent"@
            && moved->description@ == description@ && moved->tools@.len() == 1 && moved->tools@[0]
            == spec->Function_0,
        !(spec is Function) ==> moved == spec,
{
}

/// A target that is an id is looked up by it, another one by its path, seen from the agent
/// that calls or else from the main thread. It is called by its path, or by its id where it
/// has none.
pub proof fn lemma_targets(
    parsed: Option<ThreadId>,
    current: Option<String>,
    lookup: TargetLookup,
    id: ThreadId,
    metadata: Option<AgentMetadata>,
    by_id: AgentTarget,
    path: String,
    found: Result<ThreadId, LookupError>,
    by_path: Result<AgentTarget, FunctionCallError>,
    message: String,
    error: FunctionCallError,
)
    requires
        call_ensures(resolve_codexx_agent_target, (parsed, current), lookup),
        call_ensures(target_by_id, (id, metadata), by_id),
        call_ensures(target_by_path, (path, found), by_path),
        call_ensures(unresolved_target, (message,), error),
    ensures
        parsed is Some ==> lookup is ById && lookup->ById_0 == parsed->0,
        parsed is None && current is Some ==> lookup is ByPath && lookup->base@ == current->0@,
        parsed is None && current is None ==> lookup is ByPath && lookup->base@ == "/root"@,
        by_id.thread_id == id,
        metadata is Some && metadata->0.agent_path is Some ==> by_id.agent_path
            == metadata->0.agent_path && by_id.label@ == metadata->0.agent_path->0@,
        metadata is None || metadata->0.agent_path is None ==> by_id.agent_path is None
            && by_id.label@ == id.text(),
        found is Ok ==> by_path is Ok && by_path->Ok_0.thread_id == found->Ok_0
            && by_path->Ok_0.agent_path == Some(path) && by_path->Ok_0.label == path,
        found is Err ==> by_path is Err && by_path->Err_0 is RespondToModel,
        found is Err && found->Err_0 is Unsupported ==> by_path->Err_0->RespondToModel_0
            == found->Err_0->Unsupported_0,
        found is Err && found->Err_0 is Other ==> by_path->Err_0->RespondToModel_0
            == found->Err_0->Other_0,
        error is RespondToModel && error->RespondToModel_0 == message,
{
}

/// The contents of an agent of the list, and of a request to bring one back, are its fields.
pub proof fn lemma_agent_contents_are_fields(agent: ListedAgent, request: RestoreRequest)
    ensures
        agent.deep_view().task_name == agent.task_name.deep_view(),
        agent.deep_view().agent_path == agent.agent_path.deep_view(),
        agent.deep_view().thread_id == agent.thread_id@,
        agent.deep_view().agent_type == agent.agent_type.deep_view(),
        agent.deep_view().nickname == agent.nickname.deep_view(),
        agent.deep_view().live_status == agent.live_status@,
        agent.deep_view().summary == agent.summary@,
        request.deep_view().thread_id == request.thread_id,
        request.deep_view().parent_thread_id == request.parent_thread_id,
        request.deep_view().depth == request.depth,
        request.deep_view().agent_path == request.agent_path.deep_view(),
        request.deep_view().config == request.config,
{
}

/// Where a role file has no description, the first such file is named.
pub proof fn lemma_undescribed_role(files: Vec<RoleFile>, i: int)
    requires
        0 <= i < files@.len(),
        files@[i].description is None,
        forall|j: int| 0 <= j < i ==> (#[trigger] files@[j]).description is Some,
    ensures
        forall|roles: &mut Vec<AgentRole>, result: Result<Vec<String>, String>|
            unique_types(roles@) && #[trigger] call_ensures(
                register_agents,
                (roles, files),
                result,
            ) ==> result is Err && result->Err_0@ == "agent role `"@
                + crate::register_agent::type_of(files@[i]) + "` must define a description"@,
{
    assert forall|roles: &mut Vec<AgentRole>, result: Result<Vec<String>, String>|
        unique_types(roles@) && #[trigger] call_ensures(
            register_agents,
            (roles, files),
            result,
        ) implies result is Err && result->Err_0@ == "agent role `"@
        + crate::register_agent::type_of(files@[i]) + "` must define a description"@ by {
        assert(!crate::register_agent::described(files@)) by {
            assert(files@[i].description is None);
        }
        let k = choose|k: int|
            0 <= k < files@.len() && crate::register_agent::described(files@.take(k)) && (
            #[trigger] files@[k]).description is None && result->Err_0@ == "agent role `"@
                + crate::register_agent::type_of(files@[k]) + "` must define a description"@;
        if k < i {
            assert(files@[k].description is Some);
        } else if k > i {
            assert(files@.take(k)[i].description is Some);
        }
    }
}

/// What a call names, how deep an agent may be, and where one stands that comes back.
pub proof fn lemma_parts_of_a_resume(
    args: ResumeAgentArgs,
    target: Option<String>,
    depth: i32,
    max_depth: i32,
    checked: Result<(), FunctionCallError>,
    path: &str,
    above: &str,
    below: bool,
    parent: ThreadId,
    agent_path: Option<String>,
    source: SpawnSource,
    roles: &Vec<AgentRole>,
    types: Vec<String>,
)
    requires
        call_ensures(resume_target, (args,), target),
        call_ensures(check_resume_depth, (depth, max_depth), checked),
        call_ensures(path_is_below, (path, above), below),
        call_ensures(resume_source, (parent, depth, agent_path), source),
        call_ensures(agent_types, (roles,), types),
    ensures
        args.target is Some ==> target == args.target,
        args.target is None && args.thread_id is Some ==> target == args.thread_id,
        args.target is None && args.thread_id is None && args.task_name is Some ==> target
            == args.task_name,
        args.target is None && args.thread_id is None && args.task_name is None ==> target
            == args.agent_path,
        checked is Ok <==> depth <= max_depth,
        below <==> lies_below(path@, above@),
        source.parent_thread_id == parent,
        source.depth == depth,
        source.agent_path == agent_path,
        source.agent_nickname is None && source.agent_role is None,
        names_types(types.deep_view(), roles@),
{
    lemma_is_below(path@, above@);
    lemma_type_names(roles@, types);
}

/// A call from its arguments to what it brings back: by the scope that it names, every
/// stored agent below the target that is not loaded comes back with `all`, and with
/// `subtree` those of them that were left open; without a scope, and with `self`, only the
/// target does.
pub proof fn lemma_scope_decides_what_comes_back(
    args: ResumeAgentArgs,
    start: ResumeStart,
    begin: ResumeBegin,
    config: RecordedConfig,
    session: ThreadId,
    status: AgentStatus,
    stored: Vec<StoredAgent>,
    turn: ResumeTurn,
    k: int,
)
    requires
        call_ensures(start_resume, (args,), start),
        start is Resolve,
        call_ensures(
            handle_resume_agent,
            (begin, config, session, status, start->scope, stored),
            turn,
        ),
        status is NotFound,
        begin.target.agent_path is Some,
        0 <= k < stored@.len(),
        stored@[k].status is NotFound,
        stored@[k].agent_path is Some,
        lies_below(stored@[k].agent_path->0@, begin.target.agent_path->0@),
    ensures
        turn is Restore,
        turn->Restore_0.requests@[0].thread_id == begin.target.thread_id,
        args.resume_scope is Some && args.resume_scope->0@ == "all"@ ==> is_brought_back(
            stored@[k],
            turn->Restore_0.requests@,
        ),
        args.resume_scope is Some && args.resume_scope->0@ == "subtree"@ && stored@[k].is_open
            ==> is_brought_back(stored@[k], turn->Restore_0.requests@),
        args.resume_scope is None || args.resume_scope->0@ == "self"@
            ==> turn->Restore_0.requests@.len() == 1,
{
    lemma_how_a_resume_starts(args, start);
    lemma_what_a_resume_brings_back(
        begin,
        config,
        session,
        status,
        start->scope,
        stored,
        turn,
        k,
        0,
        0,
    );
    if args.resume_scope is None || args.resume_scope->0@ == "self"@ {
        let above = begin.target.agent_path;
        let scope = start->scope;
        let pred = |agent: StoredAgent| comes_back(agent, above, scope);
        lemma_none_chosen(stored@, pred);
    }
}

proof fn lemma_none_chosen(stored: Seq<StoredAgent>, pred: spec_fn(StoredAgent) -> bool)
    requires
        forall|agent: StoredAgent| !#[trigger] pred(agent),
    ensures
        stored.filter(pred).len() == 0,
    decreases stored.len(),
{
    if stored.len() == 0 {
        reveal(Seq::filter);
    } else {
        let rest = stored.drop_last();
        lemma_none_chosen(rest, pred);
        assert(stored =~= rest.push(stored.last()));
        rest.lemma_filter_push(stored.last(), pred);
    }
}

} // verus!
