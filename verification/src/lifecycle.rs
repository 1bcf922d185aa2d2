//! Starting, resuming and replacing the session of the terminal interface.

use vstd::prelude::*;

use crate::app_state::{label_of, AgentPickerThreadEntry, App, ChatWidget};
use crate::id_map::lookup;
use crate::runtime_config::{ConfigSource, ThreadResume};
use crate::text::{glue, glue4};
use crate::thread::ThreadId;

verus! {

/// What a started session leads to.
#[derive(Debug, PartialEq, Eq)]
pub enum StartupStep {
    /// The session comes too late: it is unsubscribed from and forgotten.
    Discard(ThreadId),
    /// Nothing.
    Ignore,
    /// Input goes straight to the session, which becomes the primary one; input
    /// that waited for it is sent.
    Adopt(ThreadId),
    /// Input is no longer held back, and the start has failed.
    Fail(String),
}

/// A session that a command resumes or continues with.
#[derive(Debug, PartialEq, Eq)]
pub struct SessionSummary {
    pub usage_line: Option<String>,
    pub resume_hint: Option<String>,
}

/// A line about the session that was left. The command, if any, stands behind the
/// text and is set off from it.
#[derive(Debug, PartialEq, Eq)]
pub struct SummaryLine {
    pub text: String,
    pub command: Option<String>,
}

/// The lines about the session that was left.
pub open spec fn is_summary(lines: Seq<SummaryLine>, summary: SessionSummary) -> bool {
    let usage = match summary.usage_line {
        Some(_) => 1int,
        None => 0int,
    };
    let hint = match summary.resume_hint {
        Some(_) => 1int,
        None => 0int,
    };
    &&& lines.len() == usage + hint
    &&& summary.usage_line is Some ==> lines[0] == (SummaryLine {
        text: summary.usage_line->0,
        command: None,
    })
    &&& summary.resume_hint is Some ==> lines[usage].text@ == "To continue this session, run "@
        && lines[usage].command == summary.resume_hint
}

/// The lines about the session that was left.
pub fn summary_lines(summary: SessionSummary) -> (lines: Vec<SummaryLine>)
    ensures
        is_summary(lines@, summary),
{
    let mut lines: Vec<SummaryLine> = Vec::new();
    if let Some(text) = summary.usage_line {
        lines.push(SummaryLine { text, command: None });
    }
    if let Some(command) = summary.resume_hint {
        lines.push(
            SummaryLine {
                text: "To continue this session, run ".to_string(),
                command: Some(command),
            },
        );
    }
    lines
}

impl App {
    /// What a session that was started in the background leads to.
    pub fn handle_startup_thread_started(&mut self, result: Result<ThreadId, String>) -> (step:
        StartupStep)
        ensures
            *final(self) == (App { pending_startup_thread_start: false, ..*old(self) }),
            if old(self).pending_startup_thread_start {
                match result {
                    Ok(id) => step == StartupStep::Adopt(id),
                    Err(err) => step is Fail && step->Fail_0@
                        == "Failed to start a fresh session through the app server: "@ + err@,
                }
            } else {
                match result {
                    Ok(id) => step == StartupStep::Discard(id),
                    Err(_) => step == StartupStep::Ignore,
                }
            },
    {
        if !self.pending_startup_thread_start {
            return match result {
                Ok(id) => StartupStep::Discard(id),
                Err(_) => StartupStep::Ignore,
            };
        }
        self.pending_startup_thread_start = false;
        match result {
            Ok(id) => StartupStep::Adopt(id),
            Err(err) => StartupStep::Fail(
                glue(
                    "Failed to start a fresh session through the app server: ",
                    err.as_str(),
                ),
            ),
        }
    }

    /// The threads that are unsubscribed from before a fresh session starts: all
    /// whose events are kept.
    pub fn threads_to_unsubscribe(&self) -> (ids: Vec<ThreadId>)
        ensures
            ids@ == self.thread_event_channels.keys(),
    {
        self.thread_event_channels.ids()
    }

    /// Replaces the session: forgets the threads of the old one and puts
    /// `chat_widget` in the place of the chat.
    pub fn replace_chat_widget_with_app_server_thread(&mut self, chat_widget: ChatWidget)
        requires
            old(self).maps_wf(),
            chat_widget.wf(),
        ensures
            final(self).wf(),
            final(self).footer_current(),
            final(self).agent_navigation.threads.keys().len() == 0,
            final(self).thread_event_channels.keys().len() == 0,
            final(self).side_threads.keys().len() == 0,
            final(self).active_thread_id is None,
            !final(self).has_active_receiver,
            final(self).primary_thread_id is None,
            final(self).last_subagent_backfill_attempt is None,
            !final(self).primary_session_configured,
            final(self).pending_primary_events@.len() == 0,
            final(self).pending_app_server_requests@.len() == 0,
            !final(self).pending_startup_thread_start,
            final(self).thread_details.keys().len() == 0,
            final(self).chat_widget.last_terminal_title == match chat_widget.last_terminal_title {
                Some(title) => Some(title),
                None => old(self).chat_widget.last_terminal_title,
            },
            final(self).chat_widget.remote_connection == old(self).chat_widget.remote_connection,
            final(self).chat_widget.active_agent_label is None,
            final(self).chat_widget.pending_thread_approvals
                == chat_widget.pending_thread_approvals,
            forall|id: ThreadId| #[trigger]
                final(self).chat_widget.collab_agent_metadata.value(id)
                    == chat_widget.collab_agent_metadata.value(id),
    {
        self.reset_thread_event_state();
        proof {
            assert forall|id: ThreadId| #[trigger]
                self.agent_navigation.threads.value(id) is None by {
                crate::id_map::lemma_lookup(self.agent_navigation.threads.entries@, id);
            }
        }
        self.replace_chat_widget(chat_widget);
    }

    /// The loaded threads to read in search of agents of the session: all but the
    /// primary one. Without a primary thread, or where the loaded threads could
    /// not be listed, there is nothing to search.
    pub fn threads_to_backfill(&self, loaded: Option<Vec<Option<ThreadId>>>) -> (ids: Option<
        Vec<ThreadId>,
    >)
        ensures
            match (self.primary_thread_id, loaded) {
                (Some(primary), Some(loaded)) => ids is Some && ids->0@ == backfill_ids(
                    loaded@,
                    primary,
                ),
                _ => ids is None,
            },
    {
        let primary = match self.primary_thread_id {
            Some(primary) => primary,
            None => {
                return None;
            },
        };
        let loaded = match loaded {
            Some(loaded) => loaded,
            None => {
                return None;
            },
        };
        let mut ids: Vec<ThreadId> = Vec::new();
        let mut i: usize = 0;
        proof {
            assert(loaded@.take(0) =~= Seq::empty());
        }
        while i < loaded.len()
            invariant
                i <= loaded@.len(),
                ids@ == backfill_ids(loaded@.take(i as int), primary),
            decreases loaded@.len() - i,
        {
            proof {
                assert(loaded@.take(i + 1).drop_last() =~= loaded@.take(i as int));
                assert(loaded@.take(i + 1).last() == loaded@[i as int]);
            }
            if let Some(id) = loaded[i] {
                if id != primary {
                    ids.push(id);
                }
            }
            i += 1;
        }
        proof {
            assert(loaded@.take(i as int) =~= loaded@);
        }
        Some(ids)
    }

    /// Learns of the agents that were found among the loaded threads, and tells
    /// whether every loaded thread could be read.
    pub fn backfill_loaded_subagent_threads(
        &mut self,
        found: Vec<LoadedSubagent>,
        had_read_error: bool,
    ) -> (complete: bool)
        requires
            old(self).wf(),
        ensures
            final(self).wf(),
            found@.len() > 0 || old(self).footer_current() ==> final(self).footer_current(),
            found@.len() == 0 ==> *final(self) == *old(self),
            final(self).same_session(*old(self)),
            final(self).thread_details == old(self).thread_details,
            complete == !had_read_error,
            forall|id: ThreadId| #[trigger]
                final(self).agent_navigation.threads.value(id) == match lookup(
                    found_entries(found@),
                    id,
                ) {
                    Some(entry) => Some(entry),
                    None => old(self).agent_navigation.threads.value(id),
                },
            forall|id: ThreadId| #[trigger]
                final(self).chat_widget.collab_agent_metadata.value(id) == match lookup(
                    found_entries(found@),
                    id,
                ) {
                    Some(entry) => Some(label_of(entry)),
                    None => old(self).chat_widget.collab_agent_metadata.value(id),
                },
            final(self).agent_navigation.threads.keys() == learned_keys(
                old(self).agent_navigation.threads.keys(),
                found@,
            ),
    {
        let ghost before = *self;
        let ghost entries = found_entries(found@);
        proof {
            assert(entries.take(0) =~= Seq::empty());
            assert(found@.take(0) =~= Seq::empty());
        }
        for agent in it: found
            invariant
                it.seq() == found@,
                entries == found_entries(found@),
                self.wf(),
                it.index() > 0 || before.footer_current() ==> self.footer_current(),
                it.index() == 0 ==> *self == before,
                self.same_session(before),
                self.thread_details == before.thread_details,
                self.agent_navigation.threads.keys() == learned_keys(
                    before.agent_navigation.threads.keys(),
                    found@.take(it.index()),
                ),
                forall|id: ThreadId| #[trigger]
                    self.chat_widget.collab_agent_metadata.value(id) == match lookup(
                        entries.take(it.index()),
                        id,
                    ) {
                        Some(entry) => Some(label_of(entry)),
                        None => before.chat_widget.collab_agent_metadata.value(id),
                    },
                forall|id: ThreadId| #[trigger]
                    self.agent_navigation.threads.value(id) == match lookup(
                        entries.take(it.index()),
                        id,
                    ) {
                        Some(entry) => Some(entry),
                        None => before.agent_navigation.threads.value(id),
                    },
        {
            let ghost n = it.index();
            proof {
                assert(entries.take(n + 1).drop_last() =~= entries.take(n));
                assert(entries.take(n + 1).last() == entries[n]);
                assert(found@.take(n + 1).drop_last() =~= found@.take(n));
                assert(found@.take(n + 1).last() == agent);
            }
            self.upsert_agent_picker_thread(
                agent.thread_id,
                agent.agent_nickname,
                agent.agent_role,
                false,
            );
        }
        proof {
            assert(entries.take(found@.len() as int) =~= entries);
            assert(found@.take(found@.len() as int) =~= found@);
        }
        !had_read_error
    }

    /// What a step to the next or previous agent does first, given the neighbour
    /// that the picker knows.
    pub fn adjacent_thread_id_with_backfill(&self, neighbour: Option<ThreadId>) -> (step:
        AdjacentStep)
        ensures
            step == match neighbour {
                Some(id) => AdjacentStep::Found(id),
                None => match self.primary_thread_id {
                    Some(primary) => if self.last_subagent_backfill_attempt == Some(primary) {
                        AdjacentStep::Nothing
                    } else {
                        AdjacentStep::Backfill(primary)
                    },
                    None => AdjacentStep::Nothing,
                },
            },
    {
        match neighbour {
            Some(id) => AdjacentStep::Found(id),
            None => match self.primary_thread_id {
                Some(primary) => {
                    let attempted = match self.last_subagent_backfill_attempt {
                        Some(attempt) => attempt == primary,
                        None => false,
                    };
                    if attempted {
                        AdjacentStep::Nothing
                    } else {
                        AdjacentStep::Backfill(primary)
                    }
                },
                None => AdjacentStep::Nothing,
            },
        }
    }

    /// Remembers that the agents of `primary` have been searched for, where the
    /// search was complete.
    pub fn note_backfill_attempt(&mut self, primary: ThreadId, complete: bool)
        ensures
            *final(self) == (App {
                last_subagent_backfill_attempt: if complete {
                    Some(primary)
                } else {
                    old(self).last_subagent_backfill_attempt
                },
                ..*old(self)
            }),
    {
        if complete {
            self.last_subagent_backfill_attempt = Some(primary);
        }
    }
}

/// The well-formed ids among `loaded`, but for `primary`.
pub open spec fn backfill_ids(loaded: Seq<Option<ThreadId>>, primary: ThreadId) -> Seq<ThreadId>
    decreases loaded.len(),
{
    if loaded.len() == 0 {
        Seq::empty()
    } else {
        let before = backfill_ids(loaded.drop_last(), primary);
        match loaded.last() {
            Some(id) => if id != primary {
                before.push(id)
            } else {
                before
            },
            None => before,
        }
    }
}

/// An agent that was found among the loaded threads.
#[derive(Debug, PartialEq, Eq)]
pub struct LoadedSubagent {
    pub thread_id: ThreadId,
    pub agent_nickname: Option<String>,
    pub agent_role: Option<String>,
}

/// What the picker learns of the agents that were found.
pub open spec fn found_entries(found: Seq<LoadedSubagent>) -> Seq<
    (ThreadId, AgentPickerThreadEntry),
> {
    found.map_values(
        |agent: LoadedSubagent|
            (
                agent.thread_id,
                AgentPickerThreadEntry {
                    agent_nickname: agent.agent_nickname,
                    agent_role: agent.agent_role,
                    is_closed: false,
                },
            ),
    )
}

/// The threads that the picker knows once it has learned of the agents that were
/// found: those that it did not know come last, in the order in which they were
/// found.
pub open spec fn learned_keys(known: Seq<ThreadId>, found: Seq<LoadedSubagent>) -> Seq<ThreadId>
    decreases found.len(),
{
    if found.len() == 0 {
        known
    } else {
        let before = learned_keys(known, found.drop_last());
        if before.contains(found.last().thread_id) {
            before
        } else {
            before.push(found.last().thread_id)
        }
    }
}

/// What a step to the next or previous agent does.
#[derive(Debug, Clone, Copy, PartialEq, Eq, Structural)]
pub enum AdjacentStep {
    Found(ThreadId),
    Nothing,
    /// The agents of the primary thread are searched for, and the step is tried
    /// again.
    Backfill(ThreadId),
}

/// The part of the configuration that sessions change.
#[derive(Debug, PartialEq, Eq)]
pub struct SessionConfig {
    pub cwd: String,
    pub model: Option<String>,
    pub service_tier: Option<String>,
}

impl Clone for SessionConfig {
    fn clone(&self) -> (copy: Self)
        ensures
            copy == *self,
    {
        SessionConfig {
            cwd: self.cwd.clone(),
            model: crate::text::copy_opt(&self.model),
            service_tier: crate::text::copy_opt(&self.service_tier),
        }
    }
}

/// The configuration of a fresh session: that of the current one, with the service
/// tier that was chosen in the chat.
pub fn fresh_session_config(
    config: &SessionConfig,
    configured_service_tier: Option<String>,
) -> (fresh: SessionConfig)
    ensures
        fresh == (SessionConfig { service_tier: configured_service_tier, ..*config }),
{
    let mut fresh = config.clone();
    fresh.service_tier = configured_service_tier;
    fresh
}

/// What starting a fresh session came to.
#[derive(Debug, PartialEq, Eq)]
pub enum FreshOutcome {
    /// It started and took the place of the old one.
    Attached,
    /// It started, but could not take the place of the old one.
    AttachFailed(String),
    /// It did not start.
    StartFailed(String),
}

/// What is shown of it, and the configuration to go on with.
#[derive(Debug, PartialEq, Eq)]
pub struct FreshReport {
    pub error: Option<String>,
    pub lines: Vec<SummaryLine>,
    pub config: SessionConfig,
}

/// What is shown when a fresh session was started, or could not be, and the
/// configuration to go on with: where it did not start, the model stays the one of
/// the old session.
pub fn start_fresh_session_with_summary_hint(
    outcome: FreshOutcome,
    summary: Option<SessionSummary>,
    config: SessionConfig,
    model: String,
) -> (report: FreshReport)
    ensures
        match outcome {
            FreshOutcome::Attached => {
                &&& report.error is None
                &&& match summary {
                    Some(summary) => is_summary(report.lines@, summary),
                    None => report.lines@.len() == 0,
                }
                &&& report.config == config
            },
            FreshOutcome::AttachFailed(err) => {
                &&& report.error is Some
                &&& report.error->0@ == "Failed to attach to fresh app-server thread: "@ + err@
                &&& report.lines@.len() == 0
                &&& report.config == config
            },
            FreshOutcome::StartFailed(err) => {
                &&& report.error is Some
                &&& report.error->0@
                    == "Failed to start a fresh session through the app server: "@ + err@
                &&& report.lines@.len() == 0
                &&& report.config == (SessionConfig { model: Some(model), ..config })
            },
        },
{
    match outcome {
        FreshOutcome::Attached => {
            let lines = match summary {
                Some(summary) => summary_lines(summary),
                None => Vec::new(),
            };
            FreshReport { error: None, lines, config }
        },
        FreshOutcome::AttachFailed(err) => FreshReport {
            error: Some(glue("Failed to attach to fresh app-server thread: ", err.as_str())),
            lines: Vec::new(),
            config,
        },
        FreshOutcome::StartFailed(err) => {
            let mut config = config;
            config.model = Some(model);
            FreshReport {
                error: Some(
                    glue(
                        "Failed to start a fresh session through the app server: ",
                        err.as_str(),
                    ),
                ),
                lines: Vec::new(),
                config,
            }
        },
    }
}

/// The session to resume: its thread, and what it is called.
#[derive(Debug, PartialEq, Eq)]
pub struct SessionTarget {
    pub thread_id: ThreadId,
    pub label: String,
}

/// The resuming of another session that is under way.
#[derive(Debug, PartialEq, Eq)]
pub struct ResumeSessionRun {
    pub target: SessionTarget,
    pub current_cwd: String,
    pub wait: ResumeSessionWait,
}

/// What the resuming waits for.
#[derive(Debug, PartialEq, Eq)]
pub enum ResumeSessionWait {
    /// The directory that the user chooses.
    Cwd,
    /// The configuration for the directory `resume_cwd`.
    Config { resume_cwd: String },
    /// The thread, resumed with `config`.
    Thread { config: SessionConfig },
    /// The running thread is shut down and `config` is adopted; then the resumed
    /// thread takes the place of the session.
    Attach { config: SessionConfig, thread_id: ThreadId },
}

/// Where the resuming stands.
#[derive(Debug, PartialEq, Eq)]
pub enum ResumeSessionTurn {
    Wait(ResumeSessionRun),
    End(ResumeSessionEnd),
}

/// How the resuming ends.
#[derive(Debug, PartialEq, Eq)]
pub enum ResumeSessionEnd {
    /// It is the session that runs. The screen is drawn again.
    Redraw,
    /// The program ends, as the user wished.
    Exit,
    /// The lines about the old session are shown, and the user is asked about a
    /// paused goal of the thread.
    Resumed { lines: Vec<SummaryLine>, thread_id: ThreadId },
    /// An error is shown.
    Error(String),
}

/// The directory that the user chose to resume in.
#[derive(Debug, PartialEq, Eq)]
pub enum ResolveCwdOutcome {
    Continue(Option<String>),
    Exit,
}

/// Whether the resuming ends with an error that says `message`.
pub open spec fn resume_fails_with(turn: ResumeSessionTurn, message: Seq<char>) -> bool {
    &&& turn is End
    &&& turn->End_0 is Error
    &&& turn->End_0->Error_0@ == message
}

/// How resuming another session begins. A remote workspace has one directory, so
/// there the user is not asked.
pub fn resume_target_session(
    target: SessionTarget,
    is_same_thread: bool,
    uses_remote_workspace: bool,
    current_cwd: String,
) -> (turn: ResumeSessionTurn)
    ensures
        turn == if is_same_thread {
            ResumeSessionTurn::End(ResumeSessionEnd::Redraw)
        } else if uses_remote_workspace {
            ResumeSessionTurn::Wait(
                ResumeSessionRun {
                    target,
                    current_cwd,
                    wait: ResumeSessionWait::Config { resume_cwd: current_cwd },
                },
            )
        } else {
            ResumeSessionTurn::Wait(
                ResumeSessionRun { target, current_cwd, wait: ResumeSessionWait::Cwd },
            )
        },
{
    if is_same_thread {
        return ResumeSessionTurn::End(ResumeSessionEnd::Redraw);
    }
    let wait = if uses_remote_workspace {
        ResumeSessionWait::Config { resume_cwd: current_cwd.clone() }
    } else {
        ResumeSessionWait::Cwd
    };
    ResumeSessionTurn::Wait(ResumeSessionRun { target, current_cwd, wait })
}

impl ResumeSessionRun {
    /// What follows when the user has chosen a directory.
    pub fn cwd_resolved(self, outcome: ResolveCwdOutcome) -> (turn: ResumeSessionTurn)
        requires
            self.wait is Cwd,
        ensures
            turn == match outcome {
                ResolveCwdOutcome::Continue(cwd) => ResumeSessionTurn::Wait(
                    ResumeSessionRun {
                        wait: ResumeSessionWait::Config {
                            resume_cwd: match cwd {
                                Some(cwd) => cwd,
                                None => self.current_cwd,
                            },
                        },
                        ..self
                    },
                ),
                ResolveCwdOutcome::Exit => ResumeSessionTurn::End(ResumeSessionEnd::Exit),
            },
    {
        let resume_cwd = match outcome {
            ResolveCwdOutcome::Continue(Some(cwd)) => cwd,
            ResolveCwdOutcome::Continue(None) => self.current_cwd.clone(),
            ResolveCwdOutcome::Exit => {
                return ResumeSessionTurn::End(ResumeSessionEnd::Exit);
            },
        };
        ResumeSessionTurn::Wait(
            ResumeSessionRun {
                target: self.target,
                current_cwd: self.current_cwd,
                wait: ResumeSessionWait::Config { resume_cwd },
            },
        )
    }

    /// What the app server is asked for: the thread that the user chose, with the
    /// configuration that was built for it.
    pub fn thread_resume(&self) -> (resume: ThreadResume)
        requires
            self.wait is Thread,
        ensures
            resume == (ThreadResume {
                thread_id: self.target.thread_id,
                config: ConfigSource::Session,
            }),
    {
        ThreadResume { thread_id: self.target.thread_id, config: ConfigSource::Session }
    }

    /// What follows when the configuration was built, or could not be.
    pub fn config_rebuilt(self, rebuilt: Result<SessionConfig, String>) -> (turn: ResumeSessionTurn)
        requires
            self.wait is Config,
        ensures
            match rebuilt {
                Ok(config) => turn == ResumeSessionTurn::Wait(
                    ResumeSessionRun { wait: ResumeSessionWait::Thread { config }, ..self },
                ),
                Err(err) => resume_fails_with(
                    turn,
                    "Failed to rebuild configuration for resume: "@ + err@,
                ),
            },
    {
        match rebuilt {
            Ok(config) => ResumeSessionTurn::Wait(
                ResumeSessionRun {
                    target: self.target,
                    current_cwd: self.current_cwd,
                    wait: ResumeSessionWait::Thread { config },
                },
            ),
            Err(err) => ResumeSessionTurn::End(
                ResumeSessionEnd::Error(
                    glue("Failed to rebuild configuration for resume: ", err.as_str()),
                ),
            ),
        }
    }

    /// What follows when the thread was resumed, or could not be.
    pub fn thread_resumed(self, resumed: Result<ThreadId, String>) -> (turn: ResumeSessionTurn)
        requires
            self.wait is Thread,
        ensures
            match resumed {
                Ok(thread_id) => turn == ResumeSessionTurn::Wait(
                    ResumeSessionRun {
                        wait: ResumeSessionWait::Attach {
                            config: self.wait->Thread_config,
                            thread_id,
                        },
                        ..self
                    },
                ),
                Err(err) => resume_fails_with(
                    turn,
                    "Failed to resume session from "@ + self.target.label@ + ": "@ + err@,
                ),
            },
    {
        let thread_id = match resumed {
            Ok(thread_id) => thread_id,
            Err(err) => {
                return ResumeSessionTurn::End(
                    ResumeSessionEnd::Error(
                        glue4(
                            "Failed to resume session from ",
                            self.target.label.as_str(),
                            ": ",
                            err.as_str(),
                        ),
                    ),
                );
            },
        };
        let wait = match self.wait {
            ResumeSessionWait::Thread { config } => ResumeSessionWait::Attach { config, thread_id },
            _ => vstd::pervasive::unreached(),
        };
        ResumeSessionTurn::Wait(
            ResumeSessionRun { target: self.target, current_cwd: self.current_cwd, wait },
        )
    }

    /// What follows when the resumed thread took the place of the session, or could
    /// not. `summary` is that of the session that was left.
    pub fn attached(self, attached: Result<(), String>, summary: Option<SessionSummary>) -> (turn:
        ResumeSessionTurn)
        requires
            self.wait is Attach,
        ensures
            match attached {
                Ok(_) => {
                    &&& turn is End
                    &&& turn->End_0 is Resumed
                    &&& turn->End_0->thread_id == self.wait->Attach_thread_id
                    &&& match summary {
                        Some(summary) => is_summary(turn->End_0->lines@, summary),
                        None => turn->End_0->lines@.len() == 0,
                    }
                },
                Err(err) => resume_fails_with(
                    turn,
                    "Failed to attach to resumed app-server thread: "@ + err@,
                ),
            },
    {
        if let Err(err) = attached {
            return ResumeSessionTurn::End(
                ResumeSessionEnd::Error(
                    glue("Failed to attach to resumed app-server thread: ", err.as_str()),
                ),
            );
        }
        let thread_id = match self.wait {
            ResumeSessionWait::Attach { thread_id, .. } => thread_id,
            _ => vstd::pervasive::unreached(),
        };
        let lines = match summary {
            Some(summary) => summary_lines(summary),
            None => Vec::new(),
        };
        ResumeSessionTurn::End(ResumeSessionEnd::Resumed { lines, thread_id })
    }
}

} // verus!
