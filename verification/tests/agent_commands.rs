use color_eyre::Report;

use codexx::app_state::{AgentLabel, AgentNavigationState, App, ChatWidget};
use codexx::id_map::IdMap;
use codexx::lifecycle::{
    fresh_session_config, resume_target_session, start_fresh_session_with_summary_hint,
    AdjacentStep, FreshOutcome, LoadedSubagent, ResolveCwdOutcome, ResumeSessionEnd,
    ResumeSessionRun, ResumeSessionTurn, ResumeSessionWait, SessionConfig, SessionSummary,
    SessionTarget, StartupStep, SummaryLine,
};
use codexx::new_agent::{
    agent_roles_from_startup_config, parse_agent_new_prompt, show_agent_new_params_prompt,
    spawn_agent_from_prompt, spawn_notice, AgentRoleConfig, AgentRoleSummary, NewAgentPicker,
    Notice, SpawnStep,
};
use codexx::picker::{
    open_agent_resume_picker, open_agent_resume_scope_picker, resume_all_recoverable_agent_threads,
    thread_to_select, AgentPicker, AppEvent, ResumePicker,
};
use codexx::recoverable::{
    loaded_thread_ids, thread_is_descendant_of_primary, SortDirection, ThreadListParams,
    ThreadPages, ThreadPagesStep, ThreadSortKey, ThreadSourceKind,
};
use codexx::runtime_config::{ConfigSource, ThreadResume};
use codexx::selection::{
    viewport_top, AttachStep, Keep, SelectEnd, SelectRun, SelectTurn, SelectWait,
};
use codexx::thread::{SessionSource, Thread, ThreadId, ThreadStatus};

fn text(s: &str) -> String {
    s.to_string()
}

fn id(bits: u128) -> ThreadId {
    ThreadId { bits }
}

fn widget() -> ChatWidget {
    ChatWidget {
        last_terminal_title: None,
        remote_connection: None,
        collab_agent_metadata: IdMap::new(),
        active_agent_label: None,
        pending_thread_approvals: Vec::new(),
    }
}

fn app() -> App {
    App {
        agent_navigation: AgentNavigationState::new(),
        thread_details: IdMap::new(),
        thread_event_channels: IdMap::new(),
        side_threads: IdMap::new(),
        active_thread_id: None,
        has_active_receiver: false,
        primary_thread_id: None,
        last_subagent_backfill_attempt: None,
        primary_session_configured: false,
        pending_primary_events: Vec::new(),
        pending_app_server_requests: Vec::new(),
        pending_startup_thread_start: false,
        chat_widget: widget(),
    }
}

fn agent(bits: u128, parent: u128, path: &str) -> Thread {
    Thread {
        id: id(bits).to_text(),
        thread_id: Some(id(bits)),
        session_id: text("session"),
        parent_thread_id: None,
        parent: None,
        status: ThreadStatus::Idle,
        cwd: text("/w"),
        path: None,
        name: None,
        preview: text("do it"),
        agent_nickname: Some(text("Ada")),
        agent_role: Some(text("surveyor")),
        source: SessionSource::ThreadSpawn {
            parent_thread_id: id(parent),
            agent_path: Some(text(path)),
        },
    }
}

fn gone() -> Report {
    Report::msg("thread/read failed: thread not loaded: x")
}

#[test]
fn errors_are_found_anywhere_in_the_chain() {
    let wrapped = Report::msg("thread not loaded: x").wrap_err("while looking");
    assert!(App::is_terminal_thread_read_error(&wrapped));
    let other = Report::msg("broken pipe").wrap_err("while looking");
    assert!(!App::is_terminal_thread_read_error(&other));
    assert!(!App::can_fallback_from_include_turns_error(&other));
    assert!(App::closed_state_for_thread_read_error(&other, Some(true)));
    assert!(!App::closed_state_for_thread_read_error(&other, Some(false)));
}

#[test]
fn the_picker_the_chat_and_the_footer_call_an_agent_alike() {
    let mut app = app();
    app.active_thread_id = Some(id(1));
    app.upsert_agent_picker_thread(id(1), Some(text("Ada")), Some(text("surveyor")), false);
    let label = AgentLabel {
        agent_nickname: Some(text("Ada")),
        agent_role: Some(text("surveyor")),
    };
    assert_eq!(
        app.chat_widget.collab_agent_metadata.get(id(1)),
        Some(&label)
    );
    assert_eq!(app.chat_widget.active_agent_label, Some(label));
    app.upsert_agent_picker_thread(id(1), Some(text("Bea")), None, false);
    assert_eq!(
        app.chat_widget.active_agent_label.as_ref().unwrap().agent_nickname.as_deref(),
        Some("Bea")
    );
}

#[test]
fn closing_a_thread_keeps_its_place() {
    let mut app = app();
    app.upsert_agent_picker_thread(id(2), None, None, false);
    app.upsert_agent_picker_thread(id(1), None, None, false);
    app.mark_agent_picker_thread_closed(id(2));
    assert_eq!(app.agent_navigation.threads.ids(), vec![id(2), id(1)]);
    assert!(app.agent_navigation.threads.get(id(2)).unwrap().is_closed);
    assert!(!app.agent_navigation.threads.get(id(1)).unwrap().is_closed);
    app.mark_agent_picker_thread_closed(id(3));
    assert!(app.agent_navigation.threads.get(id(3)).is_none());
}

#[test]
fn reading_a_thread_refreshes_what_is_known_of_it() {
    let mut app = app();
    app.upsert_agent_picker_thread(id(1), Some(text("Old")), Some(text("role")), true);
    let mut read = agent(1, 9, "/root/a");
    read.agent_role = None;
    assert!(app.refresh_agent_picker_thread_liveness(id(1), Ok(read)));
    let entry = app.agent_navigation.threads.get(id(1)).unwrap();
    assert_eq!(entry.agent_nickname.as_deref(), Some("Ada"));
    assert_eq!(entry.agent_role.as_deref(), Some("role"));
    assert!(!entry.is_closed);
    let details = app.thread_details.get(id(1)).unwrap();
    assert_eq!(details.agent_path.as_deref(), Some("/root/a"));
    assert_eq!(details.summary.as_deref(), Some("do it"));

    let mut unloaded = agent(1, 9, "/root/a");
    unloaded.status = ThreadStatus::NotLoaded;
    assert!(app.refresh_agent_picker_thread_liveness(id(1), Ok(unloaded)));
    assert!(app.agent_navigation.threads.get(id(1)).unwrap().is_closed);
}

#[test]
fn a_thread_that_is_gone_is_forgotten_unless_its_events_are_kept() {
    let mut app = app();
    app.upsert_agent_picker_thread(id(1), None, None, false);
    assert!(!app.refresh_agent_picker_thread_liveness(id(1), Err(gone())));
    assert!(app.agent_navigation.threads.get(id(1)).is_none());

    app.ensure_thread_channel(id(2));
    assert!(app.refresh_agent_picker_thread_liveness(id(2), Err(gone())));
    assert!(app.agent_navigation.threads.get(id(2)).unwrap().is_closed);

    let transient = Report::msg("broken pipe");
    assert!(app.refresh_agent_picker_thread_liveness(id(3), Err(transient)));
    assert!(!app.agent_navigation.threads.get(id(3)).unwrap().is_closed);
}

#[test]
fn a_new_chat_goes_on_with_title_connection_and_labels() {
    let mut app = app();
    app.chat_widget.last_terminal_title = Some(text("title"));
    app.chat_widget.remote_connection = Some(text("remote"));
    app.upsert_agent_picker_thread(id(1), Some(text("Ada")), None, false);
    app.replace_chat_widget(widget());
    assert_eq!(app.chat_widget.last_terminal_title.as_deref(), Some("title"));
    assert_eq!(app.chat_widget.remote_connection.as_deref(), Some("remote"));
    assert_eq!(
        app.chat_widget
            .collab_agent_metadata
            .get(id(1))
            .unwrap()
            .agent_nickname
            .as_deref(),
        Some("Ada")
    );
    let mut titled = widget();
    titled.last_terminal_title = Some(text("new"));
    app.replace_chat_widget(titled);
    assert_eq!(app.chat_widget.last_terminal_title.as_deref(), Some("new"));
}

#[test]
fn resetting_forgets_all_threads() {
    let mut app = app();
    app.primary_thread_id = Some(id(1));
    app.active_thread_id = Some(id(1));
    app.ensure_thread_channel(id(1));
    app.upsert_agent_picker_thread(id(1), None, None, false);
    app.pending_startup_thread_start = true;
    app.reset_thread_event_state();
    assert!(app.agent_navigation.is_empty());
    assert!(app.thread_event_channels.ids().is_empty());
    assert_eq!(app.active_thread_id, None);
    assert_eq!(app.primary_thread_id, None);
    assert!(!app.pending_startup_thread_start);
    assert_eq!(app.chat_widget.active_agent_label, None);
}

#[test]
fn the_picker_looks_at_known_threads_but_not_at_side_threads() {
    let mut app = app();
    app.upsert_agent_picker_thread(id(1), None, None, false);
    app.upsert_agent_picker_thread(id(2), None, None, false);
    app.ensure_thread_channel(id(2));
    app.ensure_thread_channel(id(3));
    app.side_threads.insert(id(1), ());
    assert_eq!(app.picker_thread_ids(), vec![id(2), id(3)]);
}

#[test]
fn the_picker_asks_for_agents_to_be_enabled_or_tells_that_there_are_none() {
    let mut app = app();
    assert_eq!(
        app.open_agent_picker(false, text("sub")),
        AgentPicker::EnablePrompt
    );
    assert_eq!(
        app.open_agent_picker(true, text("sub")),
        AgentPicker::Info(text("No agents available yet."))
    );
    app.primary_thread_id = Some(id(1));
    app.upsert_agent_picker_thread(id(1), None, None, false);
    assert_eq!(
        app.open_agent_picker(false, text("sub")),
        AgentPicker::EnablePrompt
    );
}

#[test]
fn codexx_agent_picker_rows_are_sorted_by_path() {
    let mut app = app();
    app.active_thread_id = Some(id(2));
    assert!(app.refresh_agent_picker_thread_liveness(id(1), Ok(agent(1, 9, "/root/zeta"))));
    assert!(app.refresh_agent_picker_thread_liveness(id(2), Ok(agent(2, 9, "/root/alpha"))));
    let AgentPicker::Show(view) = app.open_agent_picker(true, text("sub")) else {
        panic!("there are agents");
    };
    assert_eq!(view.title, "Subagents");
    assert_eq!(view.initial_selected_idx, Some(0));
    assert_eq!(
        view.items[0].name,
        "open      alpha             /root/alpha               00000000  surveyor      Ada             do it"
    );
    assert!(view.items[0].is_current);
    assert_eq!(view.items[0].event, AppEvent::SelectAgentThread(id(2)));
    assert_eq!(
        view.items[0].description.as_deref(),
        Some("00000000-0000-0000-0000-000000000002")
    );
    assert_eq!(view.items[1].event, AppEvent::SelectAgentThread(id(1)));
    assert!(!view.items[1].is_current);
}

#[test]
fn a_picker_row_stands_on_one_line() {
    let mut app = app();
    let mut thread = agent(1, 9, "/root/zeta");
    thread.name = Some(text("first line\nsecond line of a summary that goes on"));
    assert!(app.refresh_agent_picker_thread_liveness(id(1), Ok(thread)));
    let AgentPicker::Show(view) = app.open_agent_picker(true, text("sub")) else {
        panic!("there is an agent");
    };
    assert!(!view.items[0].name.contains('\n'));
    assert!(view.items[0].name.ends_with("  first line second line of a s..."));
}

#[test]
fn codexx_agent_picker_lists_recoverable_agents() {
    let mut blank = agent(2, 1, "/root/b");
    blank.agent_nickname = Some(text("  "));
    blank.agent_role = None;
    blank.name = Some(text("named"));
    blank.source = SessionSource::Other;
    let ResumePicker::Show(view) = open_agent_resume_picker(Ok(vec![agent(1, 9, "/root/a"), blank]))
    else {
        panic!("there are agents");
    };
    assert_eq!(view.items[0].name, "Resume all shown agents");
    assert_eq!(
        view.items[0].description.as_deref(),
        Some("2 recoverable agents")
    );
    assert_eq!(view.items[0].event, AppEvent::ResumeAllRecoverableAgents);
    assert!(!view.items[0].is_current);
    assert_eq!(view.items[0].is_closed, None);
    assert_eq!(
        view.items[1].description.as_deref(),
        Some("task=a path=/root/a thread=00000000 summary=do it")
    );
    assert_eq!(
        view.items[1].search_value.as_deref(),
        Some("Ada surveyor a /root/a 00000000-0000-0000-0000-000000000001 do it")
    );
    assert_eq!(view.items[1].event, AppEvent::ChooseAgentResumeScope(id(1)));
    assert_eq!(
        view.items[2].search_value.as_deref(),
        Some("Agent default ? /root/? 00000000-0000-0000-0000-000000000002 named")
    );
    assert_eq!(
        open_agent_resume_picker(Ok(Vec::new())),
        ResumePicker::Info {
            message: text("No recoverable agents found."),
            hint: text("Use /agent to switch among agents already loaded in this session."),
        }
    );
    assert_eq!(
        open_agent_resume_picker(Err(text("down"))),
        ResumePicker::Error(text("Failed to list recoverable agents: down"))
    );
}

#[test]
fn the_second_picker_offers_the_descendants_too() {
    let threads = vec![
        agent(1, 9, "/root/a"),
        agent(2, 1, "/root/a/x"),
        agent(3, 9, "/root/ab"),
        agent(4, 2, "/root/a/x/y"),
    ];
    let view = open_agent_resume_scope_picker(id(1), &threads);
    assert_eq!(view.initial_selected_idx, Some(0));
    assert_eq!(view.items[0].event, AppEvent::ResumeAgentThread(id(1)));
    assert_eq!(
        view.items[1].event,
        AppEvent::ResumeAgentThreads(vec![id(1), id(2), id(4)])
    );
    let unknown = open_agent_resume_scope_picker(id(5), &threads);
    assert_eq!(
        unknown.items[1].event,
        AppEvent::ResumeAgentThreads(vec![id(5)])
    );
}

#[test]
fn the_chosen_thread_is_displayed_once_it_is_back() {
    let ids = vec![id(1), id(2)];
    assert_eq!(thread_to_select(&ids, &vec![true, false]), Some(id(1)));
    assert_eq!(thread_to_select(&ids, &vec![false, true]), None);
    assert_eq!(thread_to_select(&Vec::new(), &Vec::new()), None);
}

#[test]
fn resuming_all_agents_tells_how_many_came_back() {
    assert_eq!(
        resume_all_recoverable_agent_threads(&vec![true, false, true], 4),
        "Resumed 2 of 4 recoverable agents."
    );
}

#[test]
fn recoverable_threads_descend_from_the_primary_one() {
    let mut app = app();
    let all = || {
        vec![
            agent(4, 3, "/root/b/c"),
            agent(3, 1, "/root/b"),
            agent(2, 1, "/root/a"),
            agent(5, 6, "/elsewhere"),
            agent(6, 5, "/elsewhere/too"),
            agent(7, 1, "/root/loaded"),
            agent(8, 1, "/root/known"),
            agent(9, 1, "/root/kept"),
        ]
    };
    assert!(app.recoverable_agent_threads(&Vec::new(), all()).is_empty());
    app.primary_thread_id = Some(id(1));
    app.upsert_agent_picker_thread(id(8), None, None, false);
    app.ensure_thread_channel(id(9));
    let found: Vec<u128> = app
        .recoverable_agent_threads(&vec![id(7)], all())
        .iter()
        .map(|thread| thread.thread_id.unwrap().bits)
        .collect();
    assert_eq!(found, vec![2, 3, 4]);
}

#[test]
fn a_circle_of_spawns_leads_nowhere() {
    let mut parents: IdMap<Option<ThreadId>> = IdMap::new();
    parents.insert(id(2), Some(id(3)));
    parents.insert(id(3), Some(id(2)));
    assert!(!thread_is_descendant_of_primary(
        &agent(4, 2, "/x"),
        id(1),
        &parents
    ));
    parents.insert(id(3), Some(id(1)));
    assert!(thread_is_descendant_of_primary(
        &agent(4, 2, "/x"),
        id(1),
        &parents
    ));
    let mut explicit = agent(4, 2, "/x");
    explicit.parent = Some(id(7));
    assert!(!thread_is_descendant_of_primary(&explicit, id(1), &parents));
}

#[test]
fn threads_are_listed_page_by_page() {
    let asked = |cursor: Option<&str>| ThreadListParams {
        cursor: cursor.map(text),
        limit: Some(100),
        sort_key: Some(ThreadSortKey::CreatedAt),
        sort_direction: Some(SortDirection::Asc),
        model_providers: None,
        source_kinds: Some(vec![ThreadSourceKind::SubAgentThreadSpawn]),
        archived: Some(false),
        cwd: None,
        use_state_db_only: true,
        search_term: None,
    };
    let pages = ThreadPages::new();
    assert_eq!(pages.next_request(), asked(None));
    let ThreadPagesStep::More(pages) = pages.accept(vec![agent(1, 9, "/a")], Some(text("c")))
    else {
        panic!("there is a cursor");
    };
    assert_eq!(pages.next_request(), asked(Some("c")));
    let ThreadPagesStep::Complete(threads) = pages.accept(vec![agent(2, 9, "/b")], None) else {
        panic!("there is no cursor");
    };
    assert_eq!(threads.len(), 2);
    assert_eq!(
        loaded_thread_ids(Some(vec![Some(id(1)), None, Some(id(2))])),
        vec![id(1), id(2)]
    );
    assert!(loaded_thread_ids(None).is_empty());
}

fn role(agent_type: &str, description: Option<&str>, nicknames: Option<Vec<&str>>) -> AgentRoleSummary {
    AgentRoleSummary {
        agent_type: text(agent_type),
        description: description.map(text),
        nickname_candidates: nicknames.map(|names| names.into_iter().map(text).collect()),
    }
}

#[test]
fn the_new_agent_picker_offers_the_types() {
    let mut app = app();
    assert_eq!(
        app.open_agent_new_picker(None, Vec::new()),
        NewAgentPicker::Error(text("/agent new is unavailable before the session starts."))
    );
    app.primary_thread_id = Some(id(1));
    let NewAgentPicker::Show(view) = app.open_agent_new_picker(
        Some(vec![
            role("worker", None, Some(vec!["Wim", "Wes"])),
            role("surveyor", Some("surveys"), Some(vec!["Rob"])),
            role("coder", Some("codes"), Some(vec![])),
            role("plain", None, None),
        ]),
        Vec::new(),
    ) else {
        panic!("the session has started");
    };
    let rows: Vec<(&str, Option<&str>)> = view
        .items
        .iter()
        .map(|item| (item.name.as_str(), item.description.as_deref()))
        .collect();
    assert_eq!(
        rows,
        vec![
            ("default", Some("Spawn without an agent_type override")),
            ("coder", Some("codes")),
            ("plain", None),
            ("surveyor", Some("surveys nicknames=Rob")),
            ("worker", Some("nicknames=Wim, Wes")),
        ]
    );
    assert_eq!(view.items[2].search_value.as_deref(), Some("plain "));
    assert!(view
        .items
        .iter()
        .all(|item| !item.is_current && item.is_closed.is_none()));
    assert_eq!(
        view.items[4].event,
        AppEvent::OpenAgentNewParamsPrompt {
            parent_thread_id: id(1),
            agent_type: Some(text("worker")),
        }
    );
    let configured = agent_roles_from_startup_config(vec![(
        text("tester"),
        AgentRoleConfig {
            description: None,
            nickname_candidates: None,
        },
    )]);
    app.active_thread_id = Some(id(5));
    let NewAgentPicker::Show(view) = app.open_agent_new_picker(None, configured) else {
        panic!("the session has started");
    };
    assert_eq!(view.items[1].name, "tester");
    assert_eq!(
        view.items[0].event,
        AppEvent::OpenAgentNewParamsPrompt {
            parent_thread_id: id(5),
            agent_type: None,
        }
    );
}

#[test]
fn prompts_are_read_up_to_their_first_dashes() {
    assert_eq!(
        parse_agent_new_prompt(" task--a -- b "),
        Ok((text("task"), text("a -- b")))
    );
    assert_eq!(
        parse_agent_new_prompt("task"),
        Err(text("Use task_name -- initial message."))
    );
    assert_eq!(
        parse_agent_new_prompt("-- message"),
        Err(text("Agent task_name must not be empty."))
    );
    assert_eq!(
        parse_agent_new_prompt("task --"),
        Err(text("Agent initial message must not be empty."))
    );
    assert_eq!(
        spawn_agent_from_prompt(id(1), None, text("task -- do")),
        SpawnStep::Spawn {
            parent_thread_id: id(1),
            agent_type: None,
            task_name: text("task"),
            message: text("do"),
        }
    );
    assert_eq!(
        spawn_agent_from_prompt(id(1), Some(text("coder")), text("task")),
        SpawnStep::AskAgain {
            error: text("Use task_name -- initial message."),
            parent_thread_id: id(1),
            agent_type: Some(text("coder")),
        }
    );
    assert_eq!(
        show_agent_new_params_prompt(&Some(text("coder"))).context_label,
        "agent_type: coder"
    );
    let plain = show_agent_new_params_prompt(&None);
    assert_eq!(plain.context_label, "agent_type: default");
    assert_eq!(plain.placeholder, "task_name -- initial message");
}

#[test]
fn spawning_tells_how_it_went() {
    assert_eq!(
        spawn_notice("task", Ok(id(1)), Ok(())),
        Notice::Info(text("Spawned subagent task."))
    );
    assert_eq!(
        spawn_notice("task", Ok(id(1)), Err(text("busy"))),
        Notice::Error(text(
            "Spawned agent 00000000-0000-0000-0000-000000000001, but failed to attach it: busy"
        ))
    );
    assert_eq!(
        spawn_notice("task", Err(text("full")), Ok(())),
        Notice::Error(text("Failed to spawn subagent: full"))
    );
}

#[test]
fn attaching_falls_back_from_resuming_to_reading() {
    let mut app = app();
    assert_eq!(
        app.attach_live_thread_for_selection(id(1)),
        AttachStep::Resume(ThreadResume {
            thread_id: id(1),
            config: ConfigSource::Stored,
        })
    );
    app.ensure_thread_channel(id(1));
    assert_eq!(app.attach_live_thread_for_selection(id(1)), AttachStep::Attached);
    assert_eq!(App::attach_resumed(true), AttachStep::KeepLive);
    assert_eq!(App::attach_resumed(false), AttachStep::ReadWithTurns);
    let unavailable = AttachStep::Fail(text(
        "Agent thread 00000000-0000-0000-0000-000000000001 is not yet available for replay or live attach.",
    ));
    assert_eq!(App::attach_read_with_turns(id(1), Ok(0)), unavailable);
    assert_eq!(App::attach_read_with_turns(id(1), Ok(3)), AttachStep::KeepReplay);
    let no_turns = Report::msg("ephemeral threads do not support includeTurns");
    assert_eq!(
        App::attach_read_with_turns(id(1), Err(&no_turns)),
        AttachStep::ReadWithoutTurns
    );
    assert_eq!(
        App::attach_read_with_turns(id(1), Err(&gone())),
        AttachStep::PassOn
    );
    assert_eq!(App::attach_read_without_turns(id(1), true), unavailable);
    assert_eq!(
        App::attach_read_without_turns(id(1), false),
        AttachStep::PassOn
    );
}

fn waiting(turn: SelectTurn) -> SelectRun {
    match turn {
        SelectTurn::Wait { run, .. } => run,
        SelectTurn::End(end) => panic!("the switch has ended: {end:?}"),
    }
}

fn shown_error(turn: SelectTurn) -> String {
    match turn {
        SelectTurn::End(SelectEnd::Error(message)) => message,
        other => panic!("no error is shown: {other:?}"),
    }
}

#[test]
fn the_displayed_thread_is_left_alone() {
    let mut app = app();
    app.active_thread_id = Some(id(1));
    assert_eq!(
        app.select_agent_thread(id(1)),
        SelectTurn::End(SelectEnd::Unchanged)
    );
    assert_eq!(
        waiting(app.select_agent_thread(id(2))),
        SelectRun {
            thread_id: id(2),
            wait: SelectWait::Read,
        }
    );
}

#[test]
fn a_live_thread_is_resumed_and_displayed_without_a_notice() {
    let mut app = app();
    app.active_thread_id = Some(id(1));
    let run = waiting(app.select_agent_thread(id(2)));
    let run = waiting(app.selection_read(run, Ok(agent(2, 1, "/root/a"))));
    assert_eq!(
        run.wait,
        SelectWait::Resume(ThreadResume {
            thread_id: id(2),
            config: ConfigSource::Stored,
        })
    );
    assert_eq!(app.active_thread_id, Some(id(1)));
    let turn = app.selection_resumed(run, true);
    let SelectTurn::Wait { run, keep } = turn else {
        panic!("the events are still to come");
    };
    assert_eq!(keep, Keep::Live);
    assert_eq!(
        run.wait,
        SelectWait::Activate {
            is_replay_only: false,
            attached_replay_only: false,
            previous: Some(id(1)),
        }
    );
    assert_eq!(app.active_thread_id, None);
    assert_eq!(app.thread_event_channels.ids(), vec![id(2)]);
    assert_eq!(
        app.selection_activated(run, Some(widget())),
        SelectTurn::End(SelectEnd::Displayed {
            resume_restored_queue: true,
            notice: None,
        })
    );
    assert_eq!(app.active_thread_id, Some(id(2)));
    assert!(app.has_active_receiver);
    assert_eq!(
        app.chat_widget
            .active_agent_label
            .as_ref()
            .unwrap()
            .agent_nickname
            .as_deref(),
        Some("Ada")
    );
}

#[test]
fn a_thread_that_cannot_be_resumed_is_replayed() {
    let mut app = app();
    let run = waiting(app.select_agent_thread(id(4)));
    let run = waiting(app.selection_read(run, Ok(agent(4, 1, "/root/a"))));
    let run = waiting(app.selection_resumed(run, false));
    assert_eq!(run.wait, SelectWait::ReadWithTurns);
    let SelectTurn::Wait { run, keep } = app.selection_read_with_turns(run, Ok(3)) else {
        panic!("the events are still to come");
    };
    assert_eq!(keep, Keep::Replay);
    assert_eq!(
        app.selection_activated(run, Some(widget())),
        SelectTurn::End(SelectEnd::Displayed {
            resume_restored_queue: false,
            notice: Some(text(
                "Agent thread 00000000-0000-0000-0000-000000000004 could not be resumed live. Replaying saved transcript."
            )),
        })
    );
}

#[test]
fn a_closed_thread_is_replayed_while_its_events_are_kept() {
    let mut app = app();
    app.ensure_thread_channel(id(2));
    let run = waiting(app.select_agent_thread(id(2)));
    let run = waiting(app.selection_read(run, Err(gone())));
    assert_eq!(
        run.wait,
        SelectWait::Activate {
            is_replay_only: true,
            attached_replay_only: false,
            previous: None,
        }
    );
    assert_eq!(
        app.selection_activated(run, Some(widget())),
        SelectTurn::End(SelectEnd::Displayed {
            resume_restored_queue: false,
            notice: Some(text(
                "Agent thread 00000000-0000-0000-0000-000000000002 is closed. Replaying saved transcript."
            )),
        })
    );
}

#[test]
fn a_thread_that_is_gone_is_not_displayed() {
    let gone_text =
        "Agent thread 00000000-0000-0000-0000-000000000002 is no longer available.";
    let mut app = app();
    app.active_thread_id = Some(id(1));
    let run = waiting(app.select_agent_thread(id(2)));
    assert_eq!(shown_error(app.selection_read(run, Err(gone()))), gone_text);
    let mut unloaded = agent(2, 1, "/root/a");
    unloaded.status = ThreadStatus::NotLoaded;
    assert_eq!(shown_error(app.selection_read(run, Ok(unloaded))), gone_text);
    assert_eq!(app.active_thread_id, Some(id(1)));
}

#[test]
fn a_thread_that_cannot_be_attached_is_not_displayed() {
    let unavailable = "Failed to attach to agent thread 00000000-0000-0000-0000-000000000002: Agent thread 00000000-0000-0000-0000-000000000002 is not yet available for replay or live attach.";
    let mut app = app();
    app.active_thread_id = Some(id(1));
    let run = |wait| SelectRun {
        thread_id: id(2),
        wait,
    };
    let turn = app.selection_read_with_turns(run(SelectWait::ReadWithTurns), Ok(0));
    assert_eq!(shown_error(turn), unavailable);
    let broken = Report::msg("broken pipe").wrap_err("thread/read failed");
    let turn = app.selection_read_with_turns(run(SelectWait::ReadWithTurns), Err(broken));
    assert_eq!(
        shown_error(turn),
        "Failed to attach to agent thread 00000000-0000-0000-0000-000000000002: thread/read failed"
    );
    let no_turns = Report::msg("ephemeral threads do not support includeTurns");
    let next = waiting(
        app.selection_read_with_turns(run(SelectWait::ReadWithTurns), Err(no_turns)),
    );
    assert_eq!(next.wait, SelectWait::ReadWithoutTurns);
    let turn = app.selection_read_without_turns(next, Ok(()));
    assert_eq!(shown_error(turn), unavailable);
    let turn = app.selection_read_without_turns(next, Err(gone()));
    assert_eq!(
        shown_error(turn),
        "Failed to attach to agent thread 00000000-0000-0000-0000-000000000002: thread/read failed: thread not loaded: x"
    );
    assert_eq!(app.active_thread_id, Some(id(1)));
    assert!(app.thread_event_channels.ids().is_empty());
}

#[test]
fn a_thread_that_is_active_elsewhere_leaves_the_display() {
    let mut app = app();
    let run = SelectRun {
        thread_id: id(2),
        wait: SelectWait::Activate {
            is_replay_only: false,
            attached_replay_only: false,
            previous: Some(id(1)),
        },
    };
    assert_eq!(
        app.selection_activated(run, None),
        SelectTurn::End(SelectEnd::NotActivated {
            error: text("Agent thread 00000000-0000-0000-0000-000000000002 is already active."),
            reactivate: Some(id(1)),
        })
    );
    assert_eq!(app.chat_widget, widget());
    assert_eq!(viewport_top(0), None);
    assert_eq!(viewport_top(7), Some(0));
}

#[test]
fn a_session_that_starts_too_late_is_discarded() {
    let mut app = app();
    assert_eq!(
        app.handle_startup_thread_started(Ok(id(1))),
        StartupStep::Discard(id(1))
    );
    assert_eq!(
        app.handle_startup_thread_started(Err(text("x"))),
        StartupStep::Ignore
    );
    app.pending_startup_thread_start = true;
    assert_eq!(
        app.handle_startup_thread_started(Ok(id(1))),
        StartupStep::Adopt(id(1))
    );
    assert!(!app.pending_startup_thread_start);
    app.pending_startup_thread_start = true;
    assert_eq!(
        app.handle_startup_thread_started(Err(text("x"))),
        StartupStep::Fail(text(
            "Failed to start a fresh session through the app server: x"
        ))
    );
}

#[test]
fn agents_among_the_loaded_threads_are_learned_of_once() {
    let mut app = app();
    assert_eq!(app.threads_to_backfill(Some(vec![Some(id(2))])), None);
    assert_eq!(
        app.adjacent_thread_id_with_backfill(None),
        AdjacentStep::Nothing
    );
    app.primary_thread_id = Some(id(1));
    assert_eq!(app.threads_to_backfill(None), None);
    assert_eq!(
        app.threads_to_backfill(Some(vec![Some(id(1)), None, Some(id(2))])),
        Some(vec![id(2)])
    );
    assert_eq!(
        app.adjacent_thread_id_with_backfill(Some(id(7))),
        AdjacentStep::Found(id(7))
    );
    assert_eq!(
        app.adjacent_thread_id_with_backfill(None),
        AdjacentStep::Backfill(id(1))
    );
    let complete = app.backfill_loaded_subagent_threads(
        vec![LoadedSubagent {
            thread_id: id(2),
            agent_nickname: Some(text("Ada")),
            agent_role: None,
        }],
        false,
    );
    assert!(complete);
    assert_eq!(app.agent_navigation.threads.ids(), vec![id(2)]);
    app.note_backfill_attempt(id(1), false);
    assert_eq!(app.last_subagent_backfill_attempt, None);
    app.note_backfill_attempt(id(1), complete);
    assert_eq!(
        app.adjacent_thread_id_with_backfill(None),
        AdjacentStep::Nothing
    );
    assert!(!app.backfill_loaded_subagent_threads(Vec::new(), true));
}

#[test]
fn finding_no_agents_changes_nothing() {
    let mut app = app();
    app.active_thread_id = Some(id(1));
    app.upsert_agent_picker_thread(id(1), Some(text("Ada")), None, false);
    assert!(!app.refresh_agent_picker_thread_liveness(id(1), Err(gone())));
    let footer = app.chat_widget.active_agent_label.as_ref().unwrap();
    assert_eq!(footer.agent_nickname.as_deref(), Some("Ada"));
    assert!(app.backfill_loaded_subagent_threads(Vec::new(), false));
    assert!(app.chat_widget.active_agent_label.is_some());
    app.backfill_loaded_subagent_threads(
        vec![LoadedSubagent {
            thread_id: id(2),
            agent_nickname: None,
            agent_role: None,
        }],
        false,
    );
    assert_eq!(app.chat_widget.active_agent_label, None);
}

#[test]
fn a_resumed_agent_joins_the_session() {
    let mut app = app();
    let resumed = ThreadResume::of_agent(id(3));
    assert_eq!(resumed.config, ConfigSource::Stored);
    app.resume_agent_thread_into_session(
        resumed,
        Some(AgentLabel {
            agent_nickname: Some(text("Ada")),
            agent_role: None,
        }),
    );
    assert_eq!(app.threads_to_unsubscribe(), vec![id(3)]);
    let entry = app.agent_navigation.threads.get(id(3)).unwrap();
    assert_eq!(entry.agent_nickname.as_deref(), Some("Ada"));
    assert!(!entry.is_closed);
    app.replace_chat_widget_with_app_server_thread(widget());
    assert!(app.agent_navigation.is_empty());
    assert!(app.threads_to_unsubscribe().is_empty());
}

#[test]
fn the_footer_follows_the_thread_that_is_displayed_again() {
    let mut app = app();
    app.upsert_agent_picker_thread(id(1), Some(text("Ada")), None, false);
    app.adopt_primary_thread(id(7));
    assert_eq!(app.primary_thread_id, Some(id(7)));
    assert_eq!(app.chat_widget.active_agent_label, None);
    app.reactivate_thread(id(1));
    assert_eq!(app.active_thread_id, Some(id(1)));
    assert!(app.has_active_receiver);
    assert_eq!(
        app.chat_widget.active_agent_label,
        Some(AgentLabel {
            agent_nickname: Some(text("Ada")),
            agent_role: None,
        })
    );
}

fn config(cwd: &str) -> SessionConfig {
    SessionConfig {
        cwd: text(cwd),
        model: None,
        service_tier: None,
    }
}

#[test]
fn a_fresh_session_reports_the_old_one() {
    let fresh = fresh_session_config(&config("/w"), Some(text("fast")));
    assert_eq!(fresh.service_tier.as_deref(), Some("fast"));
    assert_eq!(fresh.cwd, "/w");
    let summary = || {
        Some(SessionSummary {
            usage_line: Some(text("12 tokens")),
            resume_hint: Some(text("codexx resume x")),
        })
    };
    let report = start_fresh_session_with_summary_hint(
        FreshOutcome::Attached,
        summary(),
        config("/w"),
        text("m"),
    );
    assert_eq!(report.error, None);
    assert_eq!(report.lines[0].text, "12 tokens");
    assert_eq!(report.lines[1].text, "To continue this session, run ");
    assert_eq!(report.lines[1].command.as_deref(), Some("codexx resume x"));
    assert_eq!(report.config.model, None);

    let report = start_fresh_session_with_summary_hint(
        FreshOutcome::AttachFailed(text("busy")),
        summary(),
        config("/w"),
        text("m"),
    );
    assert_eq!(
        report.error.as_deref(),
        Some("Failed to attach to fresh app-server thread: busy")
    );
    assert!(report.lines.is_empty());

    let report = start_fresh_session_with_summary_hint(
        FreshOutcome::StartFailed(text("down")),
        summary(),
        config("/w"),
        text("m"),
    );
    assert_eq!(
        report.error.as_deref(),
        Some("Failed to start a fresh session through the app server: down")
    );
    assert_eq!(report.config.model.as_deref(), Some("m"));
}

fn target() -> SessionTarget {
    SessionTarget {
        thread_id: id(1),
        label: text("label"),
    }
}

fn resuming(turn: ResumeSessionTurn) -> ResumeSessionRun {
    match turn {
        ResumeSessionTurn::Wait(run) => run,
        ResumeSessionTurn::End(end) => panic!("the resuming has ended: {end:?}"),
    }
}

#[test]
fn resuming_a_session_goes_through_directory_configuration_and_thread() {
    let run = resuming(resume_target_session(target(), false, false, text("/w")));
    assert_eq!(run.wait, ResumeSessionWait::Cwd);
    let run = resuming(run.cwd_resolved(ResolveCwdOutcome::Continue(Some(text("/x")))));
    assert_eq!(run.current_cwd, "/w");
    assert_eq!(
        run.wait,
        ResumeSessionWait::Config {
            resume_cwd: text("/x"),
        }
    );
    let run = resuming(run.config_rebuilt(Ok(config("/x"))));
    assert_eq!(
        run.wait,
        ResumeSessionWait::Thread {
            config: config("/x"),
        }
    );
    assert_eq!(
        run.thread_resume(),
        ThreadResume {
            thread_id: target().thread_id,
            config: ConfigSource::Session,
        }
    );
    let run = resuming(run.thread_resumed(Ok(id(2))));
    assert_eq!(
        run.wait,
        ResumeSessionWait::Attach {
            config: config("/x"),
            thread_id: id(2),
        }
    );
    assert_eq!(
        run.attached(
            Ok(()),
            Some(SessionSummary {
                usage_line: Some(text("12 tokens")),
                resume_hint: None,
            })
        ),
        ResumeSessionTurn::End(ResumeSessionEnd::Resumed {
            lines: vec![SummaryLine {
                text: text("12 tokens"),
                command: None,
            }],
            thread_id: id(2),
        })
    );
}

#[test]
fn resuming_a_session_may_end_early() {
    assert_eq!(
        resume_target_session(target(), true, false, text("/w")),
        ResumeSessionTurn::End(ResumeSessionEnd::Redraw)
    );
    let run = resuming(resume_target_session(target(), false, true, text("/w")));
    assert_eq!(
        run.wait,
        ResumeSessionWait::Config {
            resume_cwd: text("/w"),
        }
    );
    assert_eq!(
        run.config_rebuilt(Err(text("bad toml"))),
        ResumeSessionTurn::End(ResumeSessionEnd::Error(text(
            "Failed to rebuild configuration for resume: bad toml"
        )))
    );
    let asked = || resuming(resume_target_session(target(), false, false, text("/w")));
    assert_eq!(
        asked().cwd_resolved(ResolveCwdOutcome::Exit),
        ResumeSessionTurn::End(ResumeSessionEnd::Exit)
    );
    let run = resuming(asked().cwd_resolved(ResolveCwdOutcome::Continue(None)));
    assert_eq!(
        run.wait,
        ResumeSessionWait::Config {
            resume_cwd: text("/w"),
        }
    );
    let run = resuming(run.config_rebuilt(Ok(config("/w"))));
    assert_eq!(
        run.thread_resumed(Err(text("gone"))),
        ResumeSessionTurn::End(ResumeSessionEnd::Error(text(
            "Failed to resume session from label: gone"
        )))
    );
    let run = ResumeSessionRun {
        target: target(),
        current_cwd: text("/w"),
        wait: ResumeSessionWait::Attach {
            config: config("/w"),
            thread_id: id(2),
        },
    };
    assert_eq!(
        run.attached(Err(text("busy")), None),
        ResumeSessionTurn::End(ResumeSessionEnd::Error(text(
            "Failed to attach to resumed app-server thread: busy"
        )))
    );
}
