//! Switching the display to another agent thread.

use vstd::prelude::*;

use crate::app_state::{App, ChatWidget};
use crate::report::{cause_messages, report_message, says_no_turns};
use crate::runtime_config::{ConfigSource, ThreadResume};
use crate::text::{glue3, glue4};
use crate::thread::{Thread, ThreadId};

verus! {

/// What attaching a thread does next.
#[derive(Debug, PartialEq, Eq)]
pub enum AttachStep {
    /// Nothing: the events of the thread are kept already.
    Attached,
    /// The thread is resumed.
    Resume(ThreadResume),
    /// The thread is read together with its turns.
    ReadWithTurns,
    /// The thread is read without its turns.
    ReadWithoutTurns,
    /// The session of the resumed thread is kept; its events come in live.
    KeepLive,
    /// The session of the thread that was read is kept, without a model; it is
    /// only replayed.
    KeepReplay,
    /// The thread cannot be attached, for the reason that the app server gave.
    PassOn,
    /// The thread cannot be attached, for this reason.
    Fail(String),
}

/// Why a thread without turns is not attached: it would show nothing, and would
/// keep a later attempt from attaching it.
pub open spec fn unavailable_message(thread_id: ThreadId) -> Seq<char> {
    "Agent thread "@ + thread_id.text() + " is not yet available for replay or live attach."@
}

fn unavailable(thread_id: ThreadId) -> (step: AttachStep)
    ensures
        step is Fail,
        step->Fail_0@ == unavailable_message(thread_id),
{
    AttachStep::Fail(
        glue3(
            "Agent thread ",
            thread_id.to_text().as_str(),
            " is not yet available for replay or live attach.",
        ),
    )
}

impl App {
    /// How attaching a thread begins: unless its events are kept, it is resumed with
    /// its own configuration.
    pub fn attach_live_thread_for_selection(&self, thread_id: ThreadId) -> (step: AttachStep)
        ensures
            step == if self.thread_event_channels.keys().contains(thread_id) {
                AttachStep::Attached
            } else {
                AttachStep::Resume(ThreadResume { thread_id, config: ConfigSource::Stored })
            },
    {
        if self.thread_event_channels.contains(thread_id) {
            AttachStep::Attached
        } else {
            AttachStep::Resume(ThreadResume::of_agent(thread_id))
        }
    }

    /// What follows when the thread was resumed, or could not be.
    pub fn attach_resumed(resumed: bool) -> (step: AttachStep)
        ensures
            step == if resumed {
                AttachStep::KeepLive
            } else {
                AttachStep::ReadWithTurns
            },
    {
        if resumed {
            AttachStep::KeepLive
        } else {
            AttachStep::ReadWithTurns
        }
    }

    /// What follows when the thread was read with its turns, of which there are
    /// `read`, or could not be.
    pub fn attach_read_with_turns(
        thread_id: ThreadId,
        read: Result<usize, &color_eyre::Report>,
    ) -> (step: AttachStep)
        ensures
            match read {
                Ok(turns) => if turns == 0 {
                    step is Fail && step->Fail_0@ == unavailable_message(thread_id)
                } else {
                    step == AttachStep::KeepReplay
                },
                Err(err) => step == if says_no_turns(cause_messages(*err)) {
                    AttachStep::ReadWithoutTurns
                } else {
                    AttachStep::PassOn
                },
            },
    {
        match read {
            Ok(turns) => if turns == 0 {
                unavailable(thread_id)
            } else {
                AttachStep::KeepReplay
            },
            Err(err) => if Self::can_fallback_from_include_turns_error(err) {
                AttachStep::ReadWithoutTurns
            } else {
                AttachStep::PassOn
            },
        }
    }

    /// What follows when the thread was read without its turns, or could not be:
    /// a thread that shows nothing is not attached.
    pub fn attach_read_without_turns(thread_id: ThreadId, read: bool) -> (step: AttachStep)
        ensures
            if read {
                step is Fail && step->Fail_0@ == unavailable_message(thread_id)
            } else {
                step == AttachStep::PassOn
            },
    {
        if read {
            unavailable(thread_id)
        } else {
            AttachStep::PassOn
        }
    }
}

/// A switch to another thread that is under way.
#[derive(Debug, Clone, Copy, PartialEq, Eq, Structural)]
pub struct SelectRun {
    pub thread_id: ThreadId,
    pub wait: SelectWait,
}

/// What a switch waits for.
#[derive(Debug, Clone, Copy, PartialEq, Eq, Structural)]
pub enum SelectWait {
    /// The thread, read without its turns.
    Read,
    /// Whether the thread could be resumed.
    Resume(ThreadResume),
    /// The thread, read together with its turns.
    ReadWithTurns,
    /// The thread, read without its turns because it has none to read.
    ReadWithoutTurns,
    /// The events of the thread.
    Activate {
        /// Whether they are only replayed.
        is_replay_only: bool,
        /// Whether that is because the thread could not be resumed.
        attached_replay_only: bool,
        /// The thread that was displayed.
        previous: Option<ThreadId>,
    },
}

/// What is kept of what came in.
#[derive(Debug, Clone, Copy, PartialEq, Eq, Structural)]
pub enum Keep {
    Nothing,
    /// The session of the thread that was resumed.
    Live,
    /// The session of the thread that was read, without a model.
    Replay,
}

/// Where a switch stands.
#[derive(Debug, PartialEq, Eq)]
pub enum SelectTurn {
    Wait { run: SelectRun, keep: Keep },
    End(SelectEnd),
}

/// How a switch ends.
#[derive(Debug, PartialEq, Eq)]
pub enum SelectEnd {
    /// The thread is displayed already.
    Unchanged,
    /// An error is shown, and the display stays.
    Error(String),
    /// An error is shown, and the thread that was displayed is activated again.
    NotActivated { error: String, reactivate: Option<ThreadId> },
    /// The thread is displayed.
    Displayed {
        /// Whether its pending input is taken up again.
        resume_restored_queue: bool,
        /// What is shown below the replayed turns.
        notice: Option<String>,
    },
}

/// What is shown when a thread is gone.
pub open spec fn gone_message(thread_id: ThreadId) -> Seq<char> {
    "Agent thread "@ + thread_id.text() + " is no longer available."@
}

/// What is shown when a thread could not be attached.
pub open spec fn attach_message(thread_id: ThreadId, reason: Seq<char>) -> Seq<char> {
    "Failed to attach to agent thread "@ + thread_id.text() + ": "@ + reason
}

/// What is shown below the turns of a thread that is only replayed.
pub open spec fn replay_notice(
    thread_id: ThreadId,
    is_replay_only: bool,
    attached_replay_only: bool,
) -> Option<Seq<char>> {
    if !is_replay_only {
        None
    } else if attached_replay_only {
        Some(
            "Agent thread "@ + thread_id.text()
                + " could not be resumed live. Replaying saved transcript."@,
        )
    } else {
        Some("Agent thread "@ + thread_id.text() + " is closed. Replaying saved transcript."@)
    }
}

/// Whether the switch ends with an error that says `message`.
pub open spec fn fails_with(turn: SelectTurn, message: Seq<char>) -> bool {
    &&& turn is End
    &&& turn->End_0 is Error
    &&& turn->End_0->Error_0@ == message
}

/// Whether the switch goes on to wait for `wait`.
pub open spec fn waits_for(turn: SelectTurn, thread_id: ThreadId, wait: SelectWait) -> bool {
    turn == (SelectTurn::Wait { run: SelectRun { thread_id, wait }, keep: Keep::Nothing })
}

fn gone(thread_id: ThreadId) -> (turn: SelectTurn)
    ensures
        fails_with(turn, gone_message(thread_id)),
{
    SelectTurn::End(
        SelectEnd::Error(
            glue3("Agent thread ", thread_id.to_text().as_str(), " is no longer available."),
        ),
    )
}

fn not_attached(thread_id: ThreadId, reason: &str) -> (turn: SelectTurn)
    ensures
        fails_with(turn, attach_message(thread_id, reason@)),
{
    SelectTurn::End(
        SelectEnd::Error(
            glue4(
                "Failed to attach to agent thread ",
                thread_id.to_text().as_str(),
                ": ",
                reason,
            ),
        ),
    )
}

impl App {
    /// Whether the switch has left the thread that `before` displays, and waits for
    /// the events of the thread `thread_id`.
    pub open spec fn activates(
        &self,
        before: App,
        thread_id: ThreadId,
        is_replay_only: bool,
        attached_replay_only: bool,
        keep: Keep,
        turn: SelectTurn,
    ) -> bool {
        &&& *self == (App { active_thread_id: None, ..before })
        &&& turn == (SelectTurn::Wait {
            run: SelectRun {
                thread_id,
                wait: SelectWait::Activate {
                    is_replay_only,
                    attached_replay_only,
                    previous: before.active_thread_id,
                },
            },
            keep,
        })
    }

    /// This state, but with the thread displayed that `before` displays.
    pub open spec fn displaying_as(&self, before: App) -> App {
        App { active_thread_id: before.active_thread_id, ..*self }
    }

    /// Whether this state is `before`, but for the events of the thread, which are
    /// kept.
    pub open spec fn keeps_events(&self, before: App, thread_id: ThreadId) -> bool {
        &&& *self == (App { thread_event_channels: self.thread_event_channels, ..before })
        &&& self.thread_event_channels.keys() == if before.thread_event_channels.keys().contains(
            thread_id,
        ) {
            before.thread_event_channels.keys()
        } else {
            before.thread_event_channels.keys().push(thread_id)
        }
    }

    fn activate(
        &mut self,
        thread_id: ThreadId,
        is_replay_only: bool,
        attached_replay_only: bool,
        keep: Keep,
    ) -> (turn: SelectTurn)
        requires
            old(self).wf(),
        ensures
            final(self).wf(),
            final(self).activates(
                *old(self),
                thread_id,
                is_replay_only,
                attached_replay_only,
                keep,
                turn,
            ),
    {
        let previous = self.active_thread_id;
        self.active_thread_id = None;
        SelectTurn::Wait {
            run: SelectRun {
                thread_id,
                wait: SelectWait::Activate { is_replay_only, attached_replay_only, previous },
            },
            keep,
        }
    }

    fn is_known_closed(&self, thread_id: ThreadId) -> (closed: bool)
        requires
            self.maps_wf(),
        ensures
            closed == self.known_closed(thread_id),
    {
        match self.agent_navigation.threads.get(thread_id) {
            Some(entry) => entry.is_closed,
            None => false,
        }
    }

    /// How switching to a thread begins. The thread that is displayed already is
    /// left alone.
    pub fn select_agent_thread(&self, thread_id: ThreadId) -> (turn: SelectTurn)
        ensures
            if self.active_thread_id == Some(thread_id) {
                turn == SelectTurn::End(SelectEnd::Unchanged)
            } else {
                waits_for(turn, thread_id, SelectWait::Read)
            },
    {
        let is_active = match self.active_thread_id {
            Some(active) => active == thread_id,
            None => false,
        };
        if is_active {
            SelectTurn::End(SelectEnd::Unchanged)
        } else {
            SelectTurn::Wait {
                run: SelectRun { thread_id, wait: SelectWait::Read },
                keep: Keep::Nothing,
            }
        }
    }

    /// What follows when the thread has been read, or could not be.
    pub fn selection_read(&mut self, run: SelectRun, read: Result<Thread, color_eyre::Report>) -> (
    turn: SelectTurn)
        requires
            old(self).wf(),
            run.wait is Read,
        ensures
            final(self).wf(),
            ({
                let thread_id = run.thread_id;
                let seen = final(self).displaying_as(*old(self));
                &&& seen.refreshed_from(*old(self), thread_id, read)
                &&& if !old(self).still_there(thread_id, read) {
                    fails_with(turn, gone_message(thread_id)) && *final(self) == seen
                } else if seen.must_attach(thread_id) {
                    &&& waits_for(
                        turn,
                        thread_id,
                        SelectWait::Resume(
                            ThreadResume { thread_id, config: ConfigSource::Stored },
                        ),
                    )
                    &&& *final(self) == seen
                } else if !seen.thread_event_channels.keys().contains(thread_id) {
                    fails_with(turn, gone_message(thread_id)) && *final(self) == seen
                } else {
                    final(self).activates(
                        seen,
                        thread_id,
                        seen.known_closed(thread_id),
                        false,
                        Keep::Nothing,
                        turn,
                    )
                }
            }),
    {
        let thread_id = run.thread_id;
        let available = self.refresh_agent_picker_thread_liveness(thread_id, read);
        if !available {
            return gone(thread_id);
        }
        let is_replay_only = self.is_known_closed(thread_id);
        if self.should_attach_live_thread_for_selection(thread_id) {
            return match self.attach_live_thread_for_selection(thread_id) {
                AttachStep::Resume(resume) => SelectTurn::Wait {
                    run: SelectRun { thread_id, wait: SelectWait::Resume(resume) },
                    keep: Keep::Nothing,
                },
                _ => vstd::pervasive::unreached(),
            };
        }
        if !self.thread_event_channels.contains(thread_id) && is_replay_only {
            return gone(thread_id);
        }
        self.activate(thread_id, is_replay_only, false, Keep::Nothing)
    }

    /// What follows when the thread was resumed, or could not be.
    pub fn selection_resumed(&mut self, run: SelectRun, resumed: bool) -> (turn: SelectTurn)
        requires
            old(self).wf(),
            run.wait is Resume,
        ensures
            final(self).wf(),
            if resumed {
                let kept = final(self).displaying_as(*old(self));
                &&& kept.keeps_events(*old(self), run.thread_id)
                &&& final(self).activates(
                    kept,
                    run.thread_id,
                    old(self).known_closed(run.thread_id),
                    false,
                    Keep::Live,
                    turn,
                )
            } else {
                &&& *final(self) == *old(self)
                &&& waits_for(turn, run.thread_id, SelectWait::ReadWithTurns)
            },
    {
        match Self::attach_resumed(resumed) {
            AttachStep::KeepLive => {
                let is_replay_only = self.is_known_closed(run.thread_id);
                self.ensure_thread_channel(run.thread_id);
                self.activate(run.thread_id, is_replay_only, false, Keep::Live)
            },
            _ => SelectTurn::Wait {
                run: SelectRun { thread_id: run.thread_id, wait: SelectWait::ReadWithTurns },
                keep: Keep::Nothing,
            },
        }
    }

    /// What follows when the thread was read together with its turns, of which
    /// there are `read`, or could not be.
    pub fn selection_read_with_turns(
        &mut self,
        run: SelectRun,
        read: Result<usize, color_eyre::Report>,
    ) -> (turn: SelectTurn)
        requires
            old(self).wf(),
            run.wait is ReadWithTurns,
        ensures
            final(self).wf(),
            match read {
                Ok(turns) => if turns == 0 {
                    &&& *final(self) == *old(self)
                    &&& fails_with(
                        turn,
                        attach_message(run.thread_id, unavailable_message(run.thread_id)),
                    )
                } else {
                    let kept = final(self).displaying_as(*old(self));
                    &&& kept.keeps_events(*old(self), run.thread_id)
                    &&& final(self).activates(
                        kept,
                        run.thread_id,
                        true,
                        true,
                        Keep::Replay,
                        turn,
                    )
                },
                Err(err) => {
                    &&& *final(self) == *old(self)
                    &&& if says_no_turns(cause_messages(err)) {
                        waits_for(turn, run.thread_id, SelectWait::ReadWithoutTurns)
                    } else {
                        fails_with(turn, attach_message(run.thread_id, cause_messages(err)[0]))
                    }
                },
            },
    {
        let thread_id = run.thread_id;
        let step = match &read {
            Ok(turns) => Self::attach_read_with_turns(thread_id, Ok(*turns)),
            Err(err) => Self::attach_read_with_turns(thread_id, Err(err)),
        };
        match step {
            AttachStep::KeepReplay => {
                self.ensure_thread_channel(thread_id);
                self.activate(thread_id, true, true, Keep::Replay)
            },
            AttachStep::ReadWithoutTurns => SelectTurn::Wait {
                run: SelectRun { thread_id, wait: SelectWait::ReadWithoutTurns },
                keep: Keep::Nothing,
            },
            step => attach_failure(
                thread_id,
                step,
                match read {
                    Ok(_) => None,
                    Err(err) => Some(err),
                },
            ),
        }
    }

    /// What follows when the thread was read without its turns, or could not be.
    pub fn selection_read_without_turns(
        &mut self,
        run: SelectRun,
        read: Result<(), color_eyre::Report>,
    ) -> (turn: SelectTurn)
        requires
            old(self).wf(),
            run.wait is ReadWithoutTurns,
        ensures
            *final(self) == *old(self),
            fails_with(
                turn,
                attach_message(
                    run.thread_id,
                    match read {
                        Ok(_) => unavailable_message(run.thread_id),
                        Err(err) => cause_messages(err)[0],
                    },
                ),
            ),
    {
        let (is_read, failure) = match read {
            Ok(_) => (true, None),
            Err(err) => (false, Some(err)),
        };
        let step = Self::attach_read_without_turns(run.thread_id, is_read);
        attach_failure(run.thread_id, step, failure)
    }

    /// What follows when the events of the thread are to be displayed in the new
    /// chat `chat_widget`, or could not be had because the thread is active
    /// elsewhere.
    pub fn selection_activated(&mut self, run: SelectRun, chat_widget: Option<ChatWidget>) -> (turn:
        SelectTurn)
        requires
            old(self).wf(),
            run.wait is Activate,
            chat_widget is Some ==> chat_widget->0.wf(),
        ensures
            final(self).wf(),
            turn is End,
            match chat_widget {
                None => {
                    &&& *final(self) == *old(self)
                    &&& turn->End_0 is NotActivated
                    &&& turn->End_0->error@ == "Agent thread "@ + run.thread_id.text()
                        + " is already active."@
                    &&& turn->End_0->reactivate == run.wait->previous
                },
                Some(chat_widget) => {
                    &&& *final(self) == (App {
                        active_thread_id: Some(run.thread_id),
                        has_active_receiver: true,
                        chat_widget: final(self).chat_widget,
                        ..*old(self)
                    })
                    &&& final(self).footer_current()
                    &&& final(self).chat_replaced(*old(self), chat_widget)
                    &&& turn->End_0 is Displayed
                    &&& turn->End_0->resume_restored_queue == !run.wait->is_replay_only
                    &&& turn->End_0->notice.deep_view() == replay_notice(
                        run.thread_id,
                        run.wait->is_replay_only,
                        run.wait->attached_replay_only,
                    )
                },
            },
    {
        let id = run.thread_id.to_text();
        let (is_replay_only, attached_replay_only, previous) = match run.wait {
            SelectWait::Activate { is_replay_only, attached_replay_only, previous } => (
                is_replay_only,
                attached_replay_only,
                previous,
            ),
            _ => vstd::pervasive::unreached(),
        };
        let chat_widget = match chat_widget {
            Some(chat_widget) => chat_widget,
            None => {
                return SelectTurn::End(
                    SelectEnd::NotActivated {
                        error: glue3("Agent thread ", id.as_str(), " is already active."),
                        reactivate: previous,
                    },
                );
            },
        };
        self.active_thread_id = Some(run.thread_id);
        self.has_active_receiver = true;
        self.replace_chat_widget(chat_widget);
        let notice = if !is_replay_only {
            None
        } else if attached_replay_only {
            Some(
                glue3(
                    "Agent thread ",
                    id.as_str(),
                    " could not be resumed live. Replaying saved transcript.",
                ),
            )
        } else {
            Some(glue3("Agent thread ", id.as_str(), " is closed. Replaying saved transcript."))
        };
        SelectTurn::End(
            SelectEnd::Displayed { resume_restored_queue: !is_replay_only, notice },
        )
    }
}

/// The end of a switch whose thread could not be attached: the reason is that of
/// `step`, or else that of the app server.
fn attach_failure(
    thread_id: ThreadId,
    step: AttachStep,
    failure: Option<color_eyre::Report>,
) -> (turn: SelectTurn)
    requires
        step is Fail || (step is PassOn && failure is Some),
    ensures
        fails_with(
            turn,
            attach_message(
                thread_id,
                if step is Fail {
                    step->Fail_0@
                } else {
                    cause_messages(failure->0)[0]
                },
            ),
        ),
{
    match (step, failure) {
        (AttachStep::Fail(reason), _) => not_attached(thread_id, reason.as_str()),
        (_, Some(err)) => not_attached(thread_id, report_message(&err).as_str()),
        (_, None) => vstd::pervasive::unreached(),
    }
}

/// The row that the visible area of the terminal starts at after it was cleared.
pub fn viewport_top(y: u16) -> (top: Option<u16>)
    ensures
        top == if y > 0 {
            Some(0u16)
        } else {
            None
        },
{
    if y > 0 {
        Some(0)
    } else {
        None
    }
}

} // verus!
