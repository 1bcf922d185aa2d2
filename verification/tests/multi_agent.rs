use codexx::agents::{
    codexx_namespace_spec, matches_kind, resolve_codexx_agent_target, target_by_id, target_by_path,
    unresolved_target, AgentMetadata, AgentStatus, AgentTarget, CodexxTool, FunctionCallError,
    LookupError, RegisterAgentConfigTool, TargetLookup, ToolName, ToolPayload, ToolSpec,
};
use codexx::list_agents::{list_agents, ListAgentsArgs, ListedAgent};
use codexx::register_agent::{
    agent_type_of, register_agents, resolve_config_path, spawn_config, AgentRole, RoleFile,
};
use codexx::resume_agent::{
    begin_resume, finish_resume, handle_resume_agent, next_thread_spawn_depth, resume_source,
    start_resume, ResumeAgentArgs, ResumeAttempt, ResumeBegin, ResumeRun, ResumeScope,
    ResumeStart, ResumeTurn, StoredAgent,
};
use codexx::runtime_config::{
    restored_config, ConfigSnapshot, RecordedConfig, RestoredConfig, RoleSettings, RuntimeSettings,
};
use codexx::thread::ThreadId;
use codexx::wait_agent::{
    handle_wait_agent_status, wait_for_final_status, wait_timeout, Poll, Subscription, WaitAction,
    WaitEvent, WaitTarget, WaitTimeouts, WaitTurn, WatchEvent,
};

fn text(s: &str) -> String {
    s.to_string()
}

fn id(bits: u128) -> ThreadId {
    ThreadId { bits }
}

fn told(message: &str) -> FunctionCallError {
    FunctionCallError::RespondToModel(text(message))
}

const TIMEOUTS: WaitTimeouts = WaitTimeouts {
    default_ms: 30_000,
    min_ms: 10_000,
    max_ms: 3_600_000,
};

fn wait_target(bits: u128, label: &str) -> Result<WaitTarget, FunctionCallError> {
    Ok(WaitTarget {
        target: AgentTarget {
            thread_id: id(bits),
            agent_path: None,
            label: text(label),
        },
        metadata: None,
    })
}

fn running() -> Subscription {
    Subscription::Watching {
        status: AgentStatus::Other(text("running")),
        is_final: false,
    }
}

#[test]
fn wait_agent_rejects_non_positive_timeout() {
    let begun = handle_wait_agent_status(vec![wait_target(1, "a")], Some(0), &TIMEOUTS);
    assert_eq!(
        begun.unwrap_err(),
        told("timeout_ms must be greater than zero")
    );
}

#[test]
fn wait_agent_rejects_empty_targets() {
    let begun = handle_wait_agent_status(Vec::new(), None, &TIMEOUTS);
    assert_eq!(begun.unwrap_err(), told("agent ids must be non-empty"));
}

#[test]
fn a_wait_is_refused_for_a_target_that_cannot_be_resolved() {
    let begun = handle_wait_agent_status(
        vec![wait_target(1, "a"), Err(told("no such agent"))],
        Some(0),
        &TIMEOUTS,
    );
    assert_eq!(begun.unwrap_err(), told("no such agent"));
}

#[test]
fn wait_agent_clamps_short_timeouts_to_minimum() {
    assert_eq!(wait_timeout(Some(10), &TIMEOUTS), Ok(10_000));
    assert_eq!(wait_timeout(Some(20_000), &TIMEOUTS), Ok(20_000));
    assert_eq!(wait_timeout(Some(i64::MAX), &TIMEOUTS), Ok(3_600_000));
    assert_eq!(wait_timeout(None, &TIMEOUTS), Ok(30_000));
}

#[test]
fn wait_agent_returns_not_found_for_missing_agents() {
    let run = handle_wait_agent_status(
        vec![wait_target(1, "a"), wait_target(2, "b")],
        Some(10_000),
        &TIMEOUTS,
    )
    .unwrap();
    assert_eq!(run.next_action(), WaitAction::Subscribe(id(1)));
    let WaitTurn::Continue(run) = run.subscribed(Subscription::NotFound) else {
        panic!("the second agent is still to be subscribed to");
    };
    assert_eq!(run.next_action(), WaitAction::Subscribe(id(2)));
    let WaitTurn::End(end) = run.subscribed(Subscription::NotFound) else {
        panic!("both agents have come to an end");
    };
    let result = end.result.unwrap();
    assert!(!result.timed_out);
    assert_eq!(
        result.status,
        vec![
            (text("a"), AgentStatus::NotFound),
            (text("b"), AgentStatus::NotFound)
        ]
    );
    assert_eq!(end.statuses.get(id(2)), Some(&AgentStatus::NotFound));
}

#[test]
fn wait_agent_times_out_when_status_is_not_final() {
    let run =
        handle_wait_agent_status(vec![wait_target(1, "a")], Some(10_000), &TIMEOUTS).unwrap();
    let WaitTurn::Continue(run) = run.subscribed(running()) else {
        panic!("the agent is still running");
    };
    assert_eq!(
        run.next_action(),
        WaitAction::Watch {
            poll: Poll::UntilDeadline,
            timeout_ms: 10_000,
        }
    );
    let WaitTurn::End(end) = run.waited(WaitEvent::Over) else {
        panic!("the time is over");
    };
    let result = end.result.unwrap();
    assert!(result.timed_out);
    assert!(result.status.is_empty());
}

#[test]
fn wait_agent_returns_final_status_without_timeout() {
    let run =
        handle_wait_agent_status(vec![wait_target(1, "a"), wait_target(2, "b")], None, &TIMEOUTS)
            .unwrap();
    let WaitTurn::Continue(run) = run.subscribed(running()) else {
        panic!("the second agent is still to be subscribed to");
    };
    let WaitTurn::Continue(run) = run.subscribed(running()) else {
        panic!("the agents are still running");
    };
    let WaitTurn::Continue(run) = run.waited(WaitEvent::Nothing) else {
        panic!("nothing has come in");
    };
    let WaitTurn::Continue(run) = run.waited(WaitEvent::Final(id(2), AgentStatus::Shutdown)) else {
        panic!("what is there already is still taken in");
    };
    assert_eq!(
        run.next_action(),
        WaitAction::Watch {
            poll: Poll::Ready,
            timeout_ms: 30_000,
        }
    );
    let WaitTurn::End(end) = run.waited(WaitEvent::Over) else {
        panic!("nothing more is there");
    };
    let result = end.result.unwrap();
    assert!(!result.timed_out);
    assert_eq!(result.status, vec![(text("b"), AgentStatus::Shutdown)]);
}

#[test]
fn a_wait_that_cannot_watch_an_agent_fails() {
    let run = handle_wait_agent_status(vec![wait_target(1, "a")], None, &TIMEOUTS).unwrap();
    let WaitTurn::End(end) = run.subscribed(Subscription::Failed {
        error: told("broken"),
        status: AgentStatus::Other(text("errored")),
    }) else {
        panic!("the agent cannot be watched");
    };
    assert_eq!(end.result.unwrap_err(), told("broken"));
    assert_eq!(
        end.statuses.get(id(1)),
        Some(&AgentStatus::Other(text("errored")))
    );
}

#[test]
fn one_agent_named_twice_is_told_under_its_later_label() {
    let run = handle_wait_agent_status(
        vec![wait_target(1, "first"), wait_target(1, "second")],
        None,
        &TIMEOUTS,
    )
    .unwrap();
    assert_eq!(run.plan.receivers, vec![id(1), id(1)]);
    let WaitTurn::Continue(run) = run.subscribed(Subscription::NotFound) else {
        panic!("the agent is subscribed to twice");
    };
    let WaitTurn::End(end) = run.subscribed(Subscription::NotFound) else {
        panic!("the agent has come to an end");
    };
    assert_eq!(
        end.result.unwrap().status,
        vec![(text("second"), AgentStatus::NotFound)]
    );
}

#[test]
fn codexx_wait_agent_status_resolves_task_name_and_returns_final_status() {
    let target = target_by_path(text("/root/status_target"), Ok(id(5))).unwrap();
    let run = handle_wait_agent_status(
        vec![Ok(WaitTarget {
            target,
            metadata: Some(AgentMetadata {
                agent_path: Some(text("/root/status_target")),
                agent_nickname: Some(text("Ada")),
                agent_role: None,
            }),
        })],
        Some(10_000),
        &TIMEOUTS,
    )
    .unwrap();
    assert_eq!(run.plan.agents[0].agent_nickname.as_deref(), Some("Ada"));
    let WaitTurn::End(end) = run.subscribed(Subscription::NotFound) else {
        panic!("the agent is gone");
    };
    let result = end.result.unwrap();
    assert_eq!(
        result.status,
        vec![(text("/root/status_target"), AgentStatus::NotFound)]
    );
    assert!(!result.timed_out);
}

#[test]
fn a_watch_ends_with_a_final_status() {
    assert_eq!(
        wait_for_final_status(WatchEvent::Changed {
            status: AgentStatus::Completed(Some(text("done"))),
            is_final: true,
        }),
        Some(AgentStatus::Completed(Some(text("done"))))
    );
    assert_eq!(
        wait_for_final_status(WatchEvent::Changed {
            status: AgentStatus::Other(text("running")),
            is_final: false,
        }),
        None
    );
    assert_eq!(
        wait_for_final_status(WatchEvent::Closed {
            status: AgentStatus::NotFound,
        }),
        Some(AgentStatus::NotFound)
    );
}

fn no_args() -> ResumeAgentArgs {
    ResumeAgentArgs {
        target: None,
        thread_id: None,
        task_name: None,
        agent_path: None,
        resume_scope: None,
    }
}

fn target(bits: u128, path: &str) -> AgentTarget {
    AgentTarget {
        thread_id: id(bits),
        agent_path: Some(text(path)),
        label: text(path),
    }
}

fn nothing_recorded() -> RecordedConfig {
    RecordedConfig {
        turn_context: None,
        snapshot: None,
    }
}

fn settings(model: &str, effort: &str, cwd: &str) -> RuntimeSettings {
    RuntimeSettings {
        model: text(model),
        reasoning_effort: Some(text(effort)),
        approval_policy: text("never"),
        permission_profile: text("disabled"),
        cwd: text(cwd),
        workspace_roots: vec![text(cwd)],
    }
}

fn stored(bits: u128, path: &str, is_open: bool, status: AgentStatus) -> StoredAgent {
    StoredAgent {
        thread_id: id(bits),
        parent_thread_id: id(2),
        depth: 3,
        agent_path: Some(text(path)),
        is_open,
        status,
        config: RecordedConfig {
            turn_context: Some(settings(path, "low", path)),
            snapshot: None,
        },
    }
}

fn begun(bits: u128, path: &str) -> ResumeBegin {
    ResumeBegin {
        target: target(bits, path),
        child_depth: 2,
        receiver: AgentMetadata {
            agent_path: None,
            agent_nickname: Some(text("old")),
            agent_role: Some(text("role")),
        },
    }
}

fn restored(turn: ResumeTurn) -> Vec<u128> {
    match turn {
        ResumeTurn::Restore(run) => run.requests.iter().map(|r| r.thread_id.bits).collect(),
        other => panic!("nothing is brought back: {other:?}"),
    }
}

#[test]
fn resume_names_its_target_in_one_of_four_ways() {
    assert_eq!(start_resume(no_args()), ResumeStart::SelectionRequired);
    let by_task = ResumeAgentArgs {
        task_name: Some(text("worker")),
        agent_path: Some(text("/root/other")),
        resume_scope: Some(text("all")),
        ..no_args()
    };
    assert_eq!(
        start_resume(by_task),
        ResumeStart::Resolve {
            target: text("worker"),
            scope: ResumeScope::All,
        }
    );
    let by_id = ResumeAgentArgs {
        thread_id: Some(text("t")),
        resume_scope: Some(text("self")),
        ..no_args()
    };
    assert_eq!(
        start_resume(by_id),
        ResumeStart::Resolve {
            target: text("t"),
            scope: ResumeScope::OnlySelf,
        }
    );
    let odd = ResumeAgentArgs {
        target: Some(text("t")),
        resume_scope: Some(text("half")),
        ..no_args()
    };
    assert_eq!(
        start_resume(odd),
        ResumeStart::Fail(told("resume_scope must be one of self, subtree, or all"))
    );
}

#[test]
fn resume_agent_rejects_when_depth_limit_exceeded() {
    assert_eq!(next_thread_spawn_depth(None), 1);
    assert_eq!(next_thread_spawn_depth(Some(i32::MAX)), i32::MAX);
    let begun = begin_resume(Ok(target(1, "/root/a")), None, Some(2), 2);
    assert_eq!(
        begun.unwrap_err(),
        told("Agent depth limit reached. Solve the task yourself.")
    );
    let begun = begin_resume(Ok(target(1, "/root/a")), None, Some(1), 2).unwrap();
    assert_eq!(begun.child_depth, 2);
    assert_eq!(begun.receiver, AgentMetadata::default());
    let failed = begin_resume(Err(told("unknown")), None, None, 0);
    assert_eq!(failed.unwrap_err(), told("unknown"));
}

#[test]
fn resume_agent_noops_for_active_agent() {
    let turn = handle_resume_agent(
        begun(1, "/root/a"),
        nothing_recorded(),
        id(9),
        AgentStatus::Other(text("running")),
        ResumeScope::OnlySelf,
        Vec::new(),
    );
    let ResumeTurn::End(report) = turn else {
        panic!("the agent runs");
    };
    assert_eq!(report.result, Ok(AgentStatus::Other(text("running"))));
    assert_eq!(report.end.receiver_thread_id, id(1));
}

#[test]
fn codexx_resume_agent_defaults_to_self_and_subtree_scope_restores_descendants() {
    let records = || {
        vec![
            stored(3, "/root/parent/child", true, AgentStatus::NotFound),
            stored(4, "/root/parent/closed", false, AgentStatus::NotFound),
            stored(5, "/root/parental", true, AgentStatus::NotFound),
            stored(6, "/root/parent/alive", true, AgentStatus::Shutdown),
        ]
    };
    let resume = |scope| {
        restored(handle_resume_agent(
            begun(2, "/root/parent"),
            nothing_recorded(),
            id(9),
            AgentStatus::NotFound,
            scope,
            records(),
        ))
    };
    assert_eq!(resume(ResumeScope::OnlySelf), vec![2]);
    assert_eq!(resume(ResumeScope::Subtree), vec![2, 3]);
    assert_eq!(resume(ResumeScope::All), vec![2, 3, 4]);
}

#[test]
fn codexx_resume_agent_all_scope_restores_root_descendants() {
    let records = vec![
        stored(8, "/root/beta", true, AgentStatus::Other(text("running"))),
        stored(9, "/root/beta/deep", true, AgentStatus::NotFound),
        stored(7, "/root/alpha", true, AgentStatus::NotFound),
    ];
    let turn = handle_resume_agent(
        begun(1, "/root"),
        nothing_recorded(),
        id(9),
        AgentStatus::Other(text("running")),
        ResumeScope::All,
        records,
    );
    assert_eq!(restored(turn), vec![7, 9]);
}

fn resumes(records: Vec<StoredAgent>) -> ResumeRun {
    match handle_resume_agent(
        begun(2, "/root/parent"),
        nothing_recorded(),
        id(9),
        AgentStatus::NotFound,
        ResumeScope::All,
        records,
    ) {
        ResumeTurn::Restore(run) => run,
        other => panic!("nothing is brought back: {other:?}"),
    }
}

#[test]
fn agents_are_brought_back_from_the_top() {
    let records = vec![
        stored(5, "/root/parent/a/b", true, AgentStatus::NotFound),
        stored(4, "/root/parent/a", true, AgentStatus::NotFound),
    ];
    let run = resumes(records);
    let ids: Vec<u128> = run.requests.iter().map(|r| r.thread_id.bits).collect();
    assert_eq!(ids, vec![2, 4, 5]);
}

#[test]
fn agents_are_brought_back_one_after_the_other() {
    let records = vec![stored(3, "/root/parent/child", true, AgentStatus::NotFound)];
    let run = resumes(records);
    let (thread_id, source, config) = run.next_restore();
    assert_eq!(thread_id, id(2));
    assert_eq!(
        *config,
        RestoredConfig {
            settings: None,
            shell_environment_policy: None,
        }
    );
    assert_eq!(source, resume_source(id(9), 2, Some(text("/root/parent"))));
    let ResumeTurn::Restore(run) = run.restored(Ok(())) else {
        panic!("the descendant is still to be brought back");
    };
    let (thread_id, source, config) = run.next_restore();
    assert_eq!(thread_id, id(3));
    assert_eq!(
        config.settings,
        Some(settings("/root/parent/child", "low", "/root/parent/child"))
    );
    assert_eq!(source.parent_thread_id, id(2));
    assert_eq!(source.depth, 3);
    assert_eq!(source.agent_path.as_deref(), Some("/root/parent/child"));
    assert_eq!(source.agent_nickname, None);
    let ResumeTurn::Look(run) = run.restored(Ok(())) else {
        panic!("all agents are back");
    };
    let report = run.looked(
        AgentStatus::Other(text("idle")),
        Some(AgentMetadata {
            agent_path: None,
            agent_nickname: Some(text("new")),
            agent_role: None,
        }),
    );
    assert_eq!(report.result, Ok(AgentStatus::Other(text("idle"))));
    assert_eq!(report.end.agent_nickname.as_deref(), Some("new"));
    assert_eq!(report.end.agent_role, None);
}

#[test]
fn a_failed_resume_reports_what_was_known_before() {
    let records = vec![stored(3, "/root/parent/child", true, AgentStatus::NotFound)];
    let failure = || told("agent with id x not found");
    let ResumeTurn::Look(run) = resumes(records).restored(Err(failure())) else {
        panic!("the first failure ends it");
    };
    let report = run.looked(AgentStatus::NotFound, Some(AgentMetadata::default()));
    assert_eq!(report.result, Err(failure()));
    assert_eq!(report.end.agent_nickname.as_deref(), Some("old"));
    assert_eq!(report.end.status, AgentStatus::NotFound);

    let report = finish_resume(
        id(1),
        AgentMetadata::default(),
        AgentStatus::NotFound,
        Some(ResumeAttempt {
            outcome: Ok(()),
            status: AgentStatus::Shutdown,
            metadata: None,
        }),
    );
    assert_eq!(report.result, Ok(AgentStatus::Shutdown));
}

#[test]
fn codexx_resume_agent_resolves_task_name_and_preserves_child_model_and_effort() {
    let by_name = ResumeAgentArgs {
        target: Some(text("resume_target")),
        ..no_args()
    };
    assert_eq!(
        start_resume(by_name),
        ResumeStart::Resolve {
            target: text("resume_target"),
            scope: ResumeScope::OnlySelf,
        }
    );
    let ran = || settings("gpt-5.4", "low", "/child");
    let shell_policy = r#"{"inherit":"none","set":{"CODEXX_CHILD_ENV":"child"}}"#;
    let recorded = RecordedConfig {
        turn_context: Some(ran()),
        snapshot: Some(ConfigSnapshot {
            settings: ran(),
            shell_environment_policy: text(shell_policy),
        }),
    };
    let turn = handle_resume_agent(
        begun(2, "/root/resume_target"),
        recorded,
        id(9),
        AgentStatus::NotFound,
        ResumeScope::OnlySelf,
        Vec::new(),
    );
    let ResumeTurn::Restore(run) = turn else {
        panic!("the agent is not loaded");
    };
    let (thread_id, source, config) = run.next_restore();
    assert_eq!(thread_id, id(2));
    assert_eq!(source.agent_path.as_deref(), Some("/root/resume_target"));
    let kept = config.settings.as_ref().unwrap();
    assert_eq!(kept.model, "gpt-5.4");
    assert_eq!(kept.reasoning_effort.as_deref(), Some("low"));
    assert_eq!(kept.approval_policy, "never");
    assert_eq!(kept.permission_profile, "disabled");
    assert_eq!(kept.cwd, "/child");
    assert_eq!(kept.workspace_roots, vec![text("/child")]);
    assert_eq!(config.shell_environment_policy.as_deref(), Some(shell_policy));
    let ResumeTurn::Look(run) = run.restored(Ok(())) else {
        panic!("the agent is back");
    };
    let report = run.looked(AgentStatus::Other(text("idle")), None);
    assert_ne!(report.result, Ok(AgentStatus::NotFound));
}

#[test]
fn the_last_turn_counts_before_the_snapshot() {
    let snapshot = || ConfigSnapshot {
        settings: settings("old", "high", "/old"),
        shell_environment_policy: text("policy"),
    };
    let both = restored_config(RecordedConfig {
        turn_context: Some(settings("new", "low", "/new")),
        snapshot: Some(snapshot()),
    });
    assert_eq!(both.settings, Some(settings("new", "low", "/new")));
    assert_eq!(both.shell_environment_policy.as_deref(), Some("policy"));
    let without_turns = restored_config(RecordedConfig {
        turn_context: None,
        snapshot: Some(snapshot()),
    });
    assert_eq!(without_turns.settings, Some(settings("old", "high", "/old")));
    let without_snapshot = restored_config(RecordedConfig {
        turn_context: Some(settings("new", "low", "/new")),
        snapshot: None,
    });
    assert_eq!(
        without_snapshot,
        RestoredConfig {
            settings: Some(settings("new", "low", "/new")),
            shell_environment_policy: None,
        }
    );
}

#[test]
fn targets_are_called_by_their_path() {
    assert_eq!(
        target_by_id(id(1), None).label,
        "00000000-0000-0000-0000-000000000001"
    );
    let known = target_by_id(
        id(1),
        Some(AgentMetadata {
            agent_path: Some(text("/root/a")),
            agent_nickname: None,
            agent_role: None,
        }),
    );
    assert_eq!(known.label, "/root/a");
    assert_eq!(known.agent_path.as_deref(), Some("/root/a"));
    assert_eq!(
        target_by_path(text("/root/b"), Err(LookupError::Unsupported(text("no db")))),
        Err(told("no db"))
    );
    assert_eq!(
        target_by_path(text("/root/b"), Err(LookupError::Other(text("gone")))),
        Err(told("gone"))
    );
    assert_eq!(unresolved_target(text("bad path")), told("bad path"));
    assert_eq!(
        resolve_codexx_agent_target(Some(id(3)), None),
        TargetLookup::ById(id(3))
    );
    assert_eq!(
        resolve_codexx_agent_target(None, None),
        TargetLookup::ByPath { base: text("/root") }
    );
    assert_eq!(
        resolve_codexx_agent_target(None, Some(text("/root/a"))),
        TargetLookup::ByPath {
            base: text("/root/a"),
        }
    );
}

#[test]
fn the_tools_stand_in_their_namespace() {
    let names: Vec<String> = [
        CodexxTool::RegisterAgent,
        CodexxTool::SpawnAgent,
        CodexxTool::ResumeAgent,
        CodexxTool::SendMessage,
        CodexxTool::FollowupTask,
        CodexxTool::WaitAgent,
        CodexxTool::WaitAgentStatus,
        CodexxTool::CloseAgent,
        CodexxTool::ListAgents,
    ]
    .iter()
    .map(|tool| {
        let name = tool.tool_name();
        assert_eq!(name.namespace.as_deref(), Some("codexx_multi_agent"));
        name.name
    })
    .collect();
    assert_eq!(
        names,
        vec![
            "register_agent",
            "spawn_agent",
            "resume_agent",
            "send_message",
            "followup_task",
            "wait_agent",
            "wait_agent_status",
            "close_agent",
            "list_agents"
        ]
    );
    let v1 = RegisterAgentConfigTool::V1;
    assert_eq!(
        v1.tool_name(),
        ToolName::namespaced("multi_agent_v1", "register_agent_config")
    );
    assert!(v1.search_info().unwrap().ends_with("agents reload role"));
    let v2 = RegisterAgentConfigTool::V2;
    assert_eq!(v2.tool_name(), ToolName::plain("register_agent_config"));
    assert_eq!(v2.search_info(), None);
    assert!(matches_kind(&ToolPayload::Function {
        arguments: String::new(),
    }));
    assert!(!matches_kind(&ToolPayload::Other));
    assert_eq!(
        codexx_namespace_spec(ToolSpec::Function(7), "tools"),
        ToolSpec::Namespace {
            name: text("codexx_multi_agent"),
            description: text("tools"),
            tools: vec![7],
        }
    );
    assert_eq!(
        codexx_namespace_spec(ToolSpec::<u8>::Other, "tools"),
        ToolSpec::Other
    );
}

fn listed(task: &str, thread_id: &str, summary: &str) -> ListedAgent {
    ListedAgent {
        task_name: Some(text(task)),
        agent_path: Some(format!("/root/{task}")),
        thread_id: text(thread_id),
        agent_type: None,
        nickname: Some(text("Nick")),
        live_status: text("not_found"),
        summary: text(summary),
    }
}

fn all_agents() -> ListAgentsArgs {
    ListAgentsArgs {
        thread_id: None,
        task_name: None,
        agent_path: None,
        query: None,
        limit: None,
    }
}

#[test]
fn codexx_list_agents_reads_historical_state_db_and_filters() {
    let records = || {
        vec![
            listed("beta", "id-b", "Beta summary from the second task"),
            listed("alpha", "id-a", "Alpha summary from the first task"),
        ]
    };
    let result = list_agents(&all_agents(), records(), false);
    let rows: Vec<(Option<String>, String)> = result
        .agents
        .iter()
        .map(|agent| (agent.task_name.clone(), agent.summary.clone()))
        .collect();
    assert_eq!(
        rows,
        vec![
            (
                Some(text("alpha")),
                text("Alpha summary from the first task")
            ),
            (
                Some(text("beta")),
                text("Beta summary from the second task")
            ),
        ]
    );
    assert!(!result.truncated);
    assert!(!result.selection_required);
    assert!(result.table.contains("TASK"));
    assert!(result.table.contains("THREAD ID"));
    assert!(result.table.contains("/root/alpha"));
    assert!(result.table.contains("Alpha summary from the first task"));
    assert_eq!(
        result.table.lines().nth(1),
        Some("alpha | /root/alpha | id-a | - | Nick | not_found | Alpha summary from the first task")
    );

    let by_query = ListAgentsArgs {
        query: Some(text("second task")),
        ..all_agents()
    };
    let found = list_agents(&by_query, records(), false);
    assert_eq!(found.agents.len(), 1);
    assert_eq!(found.agents[0].task_name.as_deref(), Some("beta"));

    let by_path = ListAgentsArgs {
        agent_path: Some(text("/root/alpha")),
        ..all_agents()
    };
    let found = list_agents(&by_path, records(), false);
    assert_eq!(found.agents.len(), 1);
    assert_eq!(found.agents[0].thread_id, "id-a");

    let by_id = ListAgentsArgs {
        thread_id: Some(text("id-b")),
        ..all_agents()
    };
    let found = list_agents(&by_id, records(), false);
    assert_eq!(found.agents.len(), 1);
    assert_eq!(found.agents[0].agent_path.as_deref(), Some("/root/beta"));

    let limited = ListAgentsArgs {
        limit: Some(1),
        ..all_agents()
    };
    let found = list_agents(&limited, records(), true);
    assert_eq!(found.agents.len(), 1);
    assert!(found.truncated);
    assert!(found.selection_required);

    let by_task = ListAgentsArgs {
        task_name: Some(text("gamma")),
        ..all_agents()
    };
    assert!(list_agents(&by_task, records(), false).agents.is_empty());
}

fn role_file(file_name: &str, name: Option<&str>, description: Option<&str>) -> RoleFile {
    RoleFile {
        file_name: text(file_name),
        name: name.map(text),
        description: description.map(text),
        nickname_candidates: None,
        settings: no_settings(),
    }
}

fn no_settings() -> RoleSettings {
    RoleSettings {
        model: None,
        reasoning_effort: None,
        approval_policy: None,
        permission_profile: None,
        cwd: None,
        workspace_roots: None,
        shell_environment_policy: None,
    }
}

fn parent_config() -> ConfigSnapshot {
    ConfigSnapshot {
        settings: RuntimeSettings {
            approval_policy: text("on-request"),
            permission_profile: text("read-only"),
            ..settings("gpt-parent", "high", "/project")
        },
        shell_environment_policy: text("parent"),
    }
}

#[test]
fn codexx_register_agent_registers_agents_and_spawn_uses_them_without_restart() {
    let mut roles: Vec<AgentRole> = Vec::new();
    assert_eq!(spawn_config(&roles, "fresh", parent_config()), None);
    let types = register_agents(
        &mut roles,
        vec![RoleFile {
            nickname_candidates: Some(vec![text("Freshy")]),
            settings: RoleSettings {
                model: Some(text("gpt-5.4")),
                reasoning_effort: Some(text("minimal")),
                ..no_settings()
            },
            ..role_file("fresh.toml", None, Some("Fresh project role"))
        }],
    );
    assert_eq!(types, Ok(vec![text("fresh")]));
    assert_eq!(roles[0].description.as_deref(), Some("Fresh project role"));
    assert_eq!(roles[0].nickname_candidates, Some(vec![text("Freshy")]));
    let spawned = spawn_config(&roles, "fresh", parent_config()).unwrap();
    assert_eq!(spawned.settings.model, "gpt-5.4");
    assert_eq!(spawned.settings.reasoning_effort.as_deref(), Some("minimal"));
}

#[test]
fn codexx_spawn_agent_role_permissions_override_parent_runtime_permissions() {
    let mut roles: Vec<AgentRole> = Vec::new();
    let types = register_agents(
        &mut roles,
        vec![RoleFile {
            settings: RoleSettings {
                approval_policy: Some(text("never")),
                permission_profile: Some(text("disabled")),
                ..no_settings()
            },
            ..role_file("privileged.toml", None, Some("Privileged role"))
        }],
    );
    assert_eq!(types, Ok(vec![text("privileged")]));
    let spawned = spawn_config(&roles, "privileged", parent_config()).unwrap();
    assert_eq!(spawned.settings.approval_policy, "never");
    assert_eq!(spawned.settings.permission_profile, "disabled");
    assert_eq!(spawned.settings.model, "gpt-parent");
    assert_eq!(spawned.settings.cwd, "/project");
    assert_eq!(spawned.shell_environment_policy, "parent");
}

#[test]
fn codexx_register_agent_accepts_relative_agent_directory() {
    assert_eq!(
        resolve_config_path("/project", ".codex/agents"),
        "/project/.codex/agents"
    );
    let mut roles: Vec<AgentRole> = Vec::new();
    let types = register_agents(
        &mut roles,
        vec![role_file("surveyor.toml", None, Some("Surveyor role"))],
    );
    assert_eq!(types, Ok(vec!["surveyor".to_string()]));
}

#[test]
fn later_role_files_override_earlier_ones() {
    let mut roles: Vec<AgentRole> = Vec::new();
    let types = register_agents(
        &mut roles,
        vec![
            role_file("surveyor.toml", None, Some("first")),
            role_file("other.toml", Some("researcher"), Some("second")),
            role_file("third.toml", Some("surveyor"), Some("third")),
        ],
    );
    assert_eq!(types, Ok(vec![text("researcher"), text("surveyor")]));
    assert_eq!(roles.len(), 2);
    assert_eq!(roles[0].description.as_deref(), Some("third"));
}

#[test]
fn a_role_file_needs_a_description() {
    let mut roles: Vec<AgentRole> = Vec::new();
    let result = register_agents(
        &mut roles,
        vec![
            role_file("a.toml", None, Some("fine")),
            role_file("b.toml", None, None),
        ],
    );
    assert_eq!(
        result,
        Err(text("agent role `b` must define a description"))
    );
    assert!(roles.is_empty());
}

#[test]
fn an_agent_type_is_the_name_or_the_file_stem() {
    assert_eq!(agent_type_of(&role_file("a.toml", Some("x"), None)), "x");
    assert_eq!(agent_type_of(&role_file("a.toml", Some(""), None)), "a");
    assert_eq!(agent_type_of(&role_file("a.b.toml", None, None)), "a.b");
    assert_eq!(agent_type_of(&role_file("plain", None, None)), "plain");
    assert_eq!(
        resolve_config_path("/work", ".codex/agents"),
        "/work/.codex/agents"
    );
    assert_eq!(resolve_config_path("/work", "/abs/a.toml"), "/abs/a.toml");
}
