//! The state of the terminal interface that concerns agent threads.

use vstd::prelude::*;

use crate::id_map::{lookup, IdMap};
use crate::report::{cause_messages, says_not_loaded};
use crate::runtime_config::{ConfigSource, ThreadResume};
use crate::text::copy_opt;
use crate::thread::{
    status_info, thread_status_view_from_thread, Thread, ThreadId, ThreadStatus,
};

verus! {

/// What the picker knows of an agent thread.
#[derive(Debug, PartialEq, Eq)]
pub struct AgentPickerThreadEntry {
    pub agent_nickname: Option<String>,
    pub agent_role: Option<String>,
    pub is_closed: bool,
}

impl Clone for AgentPickerThreadEntry {
    fn clone(&self) -> (copy: Self)
        ensures
            copy == *self,
    {
        AgentPickerThreadEntry {
            agent_nickname: copy_opt(&self.agent_nickname),
            agent_role: copy_opt(&self.agent_role),
            is_closed: self.is_closed,
        }
    }
}

/// How an agent is called.
#[derive(Debug, PartialEq, Eq)]
pub struct AgentLabel {
    pub agent_nickname: Option<String>,
    pub agent_role: Option<String>,
}

/// How the thread of a picker entry is called.
pub open spec fn label_of(entry: AgentPickerThreadEntry) -> AgentLabel {
    AgentLabel { agent_nickname: entry.agent_nickname, agent_role: entry.agent_role }
}

/// What else is known of an agent thread that has been read.
#[derive(Debug, PartialEq, Eq)]
pub struct ThreadDetails {
    pub agent_path: Option<String>,
    pub summary: Option<String>,
}

/// The agent threads that the picker knows, in the order in which it learned of
/// them.
#[derive(Debug, PartialEq, Eq)]
pub struct AgentNavigationState {
    pub threads: IdMap<AgentPickerThreadEntry>,
}

impl AgentNavigationState {
    pub open spec fn wf(&self) -> bool {
        self.threads.wf()
    }

    pub fn new() -> (navigation: Self)
        ensures
            navigation.wf(),
            navigation.threads.keys().len() == 0,
    {
        AgentNavigationState { threads: IdMap::new() }
    }

    /// Learns of a thread, or replaces what is known of it.
    pub fn upsert(
        &mut self,
        thread_id: ThreadId,
        agent_nickname: Option<String>,
        agent_role: Option<String>,
        is_closed: bool,
    )
        requires
            old(self).wf(),
        ensures
            final(self).wf(),
            final(self).threads.keys() == if old(self).threads.keys().contains(thread_id) {
                old(self).threads.keys()
            } else {
                old(self).threads.keys().push(thread_id)
            },
            forall|id: ThreadId| #[trigger]
                final(self).threads.value(id) == if id == thread_id {
                    Some(AgentPickerThreadEntry { agent_nickname, agent_role, is_closed })
                } else {
                    old(self).threads.value(id)
                },
    {
        self.threads.insert(
            thread_id,
            AgentPickerThreadEntry { agent_nickname, agent_role, is_closed },
        );
    }

    /// Marks a thread closed that the picker knows; it keeps its place.
    pub fn mark_closed(&mut self, thread_id: ThreadId)
        requires
            old(self).wf(),
        ensures
            final(self).wf(),
            final(self).threads.keys() == old(self).threads.keys(),
            forall|id: ThreadId| #[trigger]
                final(self).threads.value(id) == match old(self).threads.value(id) {
                    Some(entry) => Some(
                        AgentPickerThreadEntry {
                            is_closed: entry.is_closed || id == thread_id,
                            ..entry
                        },
                    ),
                    None => None,
                },
    {
        proof {
            crate::id_map::lemma_lookup(self.threads.entries@, thread_id);
        }
        let entry = match self.threads.get(thread_id) {
            Some(entry) => AgentPickerThreadEntry {
                agent_nickname: copy_opt(&entry.agent_nickname),
                agent_role: copy_opt(&entry.agent_role),
                is_closed: true,
            },
            None => {
                return ;
            },
        };
        self.threads.insert(thread_id, entry);
    }

    /// Whether the picker knows a thread other than `primary`.
    pub fn has_non_primary_thread(&self, primary: Option<ThreadId>) -> (has: bool)
        ensures
            has == exists|i: int|
                0 <= i < self.threads.keys().len() && Some(#[trigger] self.threads.keys()[i])
                    != primary,
    {
        let ids = self.threads.ids();
        let mut i: usize = 0;
        while i < ids.len()
            invariant
                i <= ids@.len(),
                ids@ == self.threads.keys(),
                forall|k: int| 0 <= k < i ==> Some(#[trigger] self.threads.keys()[k]) == primary,
            decreases ids@.len() - i,
        {
            let is_primary = match primary {
                Some(primary) => ids[i] == primary,
                None => false,
            };
            if !is_primary {
                proof {
                    assert(Some(self.threads.keys()[i as int]) != primary);
                }
                return true;
            }
            i += 1;
        }
        false
    }

    pub fn is_empty(&self) -> (empty: bool)
        ensures
            empty == (self.threads.keys().len() == 0),
    {
        self.threads.entries.len() == 0
    }
}

/// The part of the chat view that shows agents.
#[derive(Debug, PartialEq, Eq)]
pub struct ChatWidget {
    pub last_terminal_title: Option<String>,
    pub remote_connection: Option<String>,
    /// How the agents that occur in the chat are called.
    pub collab_agent_metadata: IdMap<AgentLabel>,
    /// How the agent is called whose thread is displayed.
    pub active_agent_label: Option<AgentLabel>,
    pub pending_thread_approvals: Vec<String>,
}

impl ChatWidget {
    pub open spec fn wf(&self) -> bool {
        self.collab_agent_metadata.wf()
    }
}

/// The state of the terminal interface that concerns agent threads.
#[derive(Debug, PartialEq, Eq)]
pub struct App {
    pub agent_navigation: AgentNavigationState,
    pub thread_details: IdMap<ThreadDetails>,
    /// The threads whose events are kept.
    pub thread_event_channels: IdMap<()>,
    pub side_threads: IdMap<()>,
    pub active_thread_id: Option<ThreadId>,
    /// Whether the events of the active thread are being received.
    pub has_active_receiver: bool,
    pub primary_thread_id: Option<ThreadId>,
    pub last_subagent_backfill_attempt: Option<ThreadId>,
    pub primary_session_configured: bool,
    pub pending_primary_events: Vec<String>,
    pub pending_app_server_requests: Vec<String>,
    pub pending_startup_thread_start: bool,
    pub chat_widget: ChatWidget,
}

impl App {
    /// Whether the maps hold each id once, and the chat calls the agents as the
    /// picker does.
    pub open spec fn wf(&self) -> bool {
        &&& self.maps_wf()
        &&& self.labels_paired()
    }

    pub open spec fn maps_wf(&self) -> bool {
        &&& self.agent_navigation.wf()
        &&& self.thread_details.wf()
        &&& self.thread_event_channels.wf()
        &&& self.side_threads.wf()
        &&& self.chat_widget.wf()
    }

    /// Whether the chat calls each agent as the picker does.
    pub open spec fn labels_paired(&self) -> bool {
        forall|id: ThreadId| #[trigger]
            self.agent_navigation.threads.value(id) is Some
                ==> self.chat_widget.collab_agent_metadata.value(id) == Some(
                label_of(self.agent_navigation.threads.value(id)->0),
            )
    }

    /// How the agent is called whose thread is displayed, according to the picker.
    pub open spec fn displayed_label(&self) -> Option<AgentLabel> {
        match self.active_thread_id {
            Some(id) => match self.agent_navigation.threads.value(id) {
                Some(entry) => Some(label_of(entry)),
                None => None,
            },
            None => None,
        }
    }

    /// Whether the footer calls the displayed agent as the picker does.
    pub open spec fn footer_current(&self) -> bool {
        self.chat_widget.active_agent_label == self.displayed_label()
    }

    /// Whether only what shows agents differs from `before`.
    pub open spec fn same_session(&self, before: App) -> bool {
        &&& self.thread_event_channels == before.thread_event_channels
        &&& self.side_threads == before.side_threads
        &&& self.active_thread_id == before.active_thread_id
        &&& self.has_active_receiver == before.has_active_receiver
        &&& self.primary_thread_id == before.primary_thread_id
        &&& self.last_subagent_backfill_attempt == before.last_subagent_backfill_attempt
        &&& self.primary_session_configured == before.primary_session_configured
        &&& self.pending_primary_events == before.pending_primary_events
        &&& self.pending_app_server_requests == before.pending_app_server_requests
        &&& self.pending_startup_thread_start == before.pending_startup_thread_start
        &&& self.chat_widget.last_terminal_title == before.chat_widget.last_terminal_title
        &&& self.chat_widget.remote_connection == before.chat_widget.remote_connection
        &&& self.chat_widget.pending_thread_approvals
            == before.chat_widget.pending_thread_approvals
    }

    /// Brings the footer in line with the picker.
    pub fn sync_active_agent_label(&mut self)
        requires
            old(self).maps_wf(),
        ensures
            final(self).footer_current(),
            *final(self) == (App {
                chat_widget: ChatWidget {
                    active_agent_label: final(self).chat_widget.active_agent_label,
                    ..old(self).chat_widget
                },
                ..*old(self)
            }),
    {
        let label = match self.active_thread_id {
            Some(id) => match self.agent_navigation.threads.get(id) {
                Some(entry) => Some(
                    AgentLabel {
                        agent_nickname: copy_opt(&entry.agent_nickname),
                        agent_role: copy_opt(&entry.agent_role),
                    },
                ),
                None => None,
            },
            None => None,
        };
        self.chat_widget.active_agent_label = label;
    }

    /// Updates what the picker knows of a thread, and how the chat and the footer
    /// call it.
    pub fn upsert_agent_picker_thread(
        &mut self,
        thread_id: ThreadId,
        agent_nickname: Option<String>,
        agent_role: Option<String>,
        is_closed: bool,
    )
        requires
            old(self).wf(),
        ensures
            final(self).wf(),
            final(self).footer_current(),
            final(self).same_session(*old(self)),
            final(self).thread_details == old(self).thread_details,
            final(self).agent_navigation.threads.keys() == if old(
                self,
            ).agent_navigation.threads.keys().contains(thread_id) {
                old(self).agent_navigation.threads.keys()
            } else {
                old(self).agent_navigation.threads.keys().push(thread_id)
            },
            forall|id: ThreadId| #[trigger]
                final(self).agent_navigation.threads.value(id) == if id == thread_id {
                    Some(AgentPickerThreadEntry { agent_nickname, agent_role, is_closed })
                } else {
                    old(self).agent_navigation.threads.value(id)
                },
            forall|id: ThreadId| #[trigger]
                final(self).chat_widget.collab_agent_metadata.value(id) == if id == thread_id {
                    Some(AgentLabel { agent_nickname, agent_role })
                } else {
                    old(self).chat_widget.collab_agent_metadata.value(id)
                },
    {
        let label = AgentLabel {
            agent_nickname: copy_opt(&agent_nickname),
            agent_role: copy_opt(&agent_role),
        };
        self.chat_widget.collab_agent_metadata.insert(thread_id, label);
        self.agent_navigation.upsert(thread_id, agent_nickname, agent_role, is_closed);
        self.sync_active_agent_label();
    }

    /// Marks a thread closed that the picker knows. It stays known and keeps its
    /// place.
    pub fn mark_agent_picker_thread_closed(&mut self, thread_id: ThreadId)
        requires
            old(self).wf(),
        ensures
            final(self).wf(),
            final(self).footer_current(),
            final(self).same_session(*old(self)),
            final(self).chat_widget.collab_agent_metadata == old(
                self,
            ).chat_widget.collab_agent_metadata,
            final(self).thread_details == old(self).thread_details,
            final(self).agent_navigation.threads.keys() == old(
                self,
            ).agent_navigation.threads.keys(),
            forall|id: ThreadId| #[trigger]
                final(self).agent_navigation.threads.value(id) == match old(
                    self,
                ).agent_navigation.threads.value(id) {
                    Some(entry) => Some(
                        AgentPickerThreadEntry {
                            is_closed: entry.is_closed || id == thread_id,
                            ..entry
                        },
                    ),
                    None => None,
                },
    {
        self.agent_navigation.mark_closed(thread_id);
        self.sync_active_agent_label();
    }

    /// Whether a thread is still there after it was read, or could not be.
    pub open spec fn still_there(
        &self,
        thread_id: ThreadId,
        read: Result<Thread, color_eyre::Report>,
    ) -> bool {
        refreshed_entry(
            self.agent_navigation.threads.value(thread_id),
            self.thread_event_channels.keys().contains(thread_id),
            read,
        ) is Some
    }

    /// Whether this state is `before` after it took in what reading a thread gave.
    pub open spec fn refreshed_from(
        &self,
        before: App,
        thread_id: ThreadId,
        read: Result<Thread, color_eyre::Report>,
    ) -> bool {
        let navigation = before.agent_navigation.threads;
        let after = self.agent_navigation.threads;
        &&& self.same_session(before)
        &&& match refreshed_entry(
            navigation.value(thread_id),
            before.thread_event_channels.keys().contains(thread_id),
            read,
        ) {
            Some(entry) => {
                &&& self.footer_current()
                &&& forall|id: ThreadId| #[trigger]
                    self.chat_widget.collab_agent_metadata.value(id) == if id == thread_id {
                        Some(label_of(entry))
                    } else {
                        before.chat_widget.collab_agent_metadata.value(id)
                    }
                &&& after.keys() == if navigation.keys().contains(thread_id) {
                    navigation.keys()
                } else {
                    navigation.keys().push(thread_id)
                }
                &&& forall|id: ThreadId| #[trigger]
                    after.value(id) == if id == thread_id {
                        Some(entry)
                    } else {
                        navigation.value(id)
                    }
            },
            None => {
                &&& self.chat_widget == before.chat_widget
                &&& after.keys() == if navigation.keys().contains(thread_id) {
                    navigation.keys().remove(navigation.keys().index_of(thread_id))
                } else {
                    navigation.keys()
                }
                &&& forall|id: ThreadId| #[trigger]
                    after.value(id) == if id == thread_id {
                        None
                    } else {
                        navigation.value(id)
                    }
            },
        }
        &&& match read {
            Ok(thread) => forall|id: ThreadId| #[trigger]
                self.thread_details.value(id) is Some == (id == thread_id
                    || before.thread_details.value(id) is Some) && (id == thread_id
                    ==> details_match(self.thread_details.value(id)->0, thread)) && (id != thread_id
                    ==> self.thread_details.value(id) == before.thread_details.value(id)),
            Err(_) => self.thread_details == before.thread_details,
        }
    }

    /// Takes in what reading a thread gave, and tells whether the thread is still
    /// there. A thread that is gone for good is forgotten unless its events were
    /// kept; what could not be read now stays as it was known.
    pub fn refresh_agent_picker_thread_liveness(
        &mut self,
        thread_id: ThreadId,
        read: Result<Thread, color_eyre::Report>,
    ) -> (available: bool)
        requires
            old(self).wf(),
        ensures
            final(self).wf(),
            available == old(self).still_there(thread_id, read),
            final(self).refreshed_from(*old(self), thread_id, read),
    {
        let existing = match self.agent_navigation.threads.get(thread_id) {
            Some(entry) => Some(entry.clone()),
            None => None,
        };
        let has_replay_channel = self.thread_event_channels.contains(thread_id);
        match read {
            Ok(thread) => {
                let view = thread_status_view_from_thread(&thread);
                let details = ThreadDetails { agent_path: view.agent_path, summary: view.summary };
                self.thread_details.insert(thread_id, details);
                let is_closed = match &thread.status {
                    ThreadStatus::NotLoaded => true,
                    _ => false,
                };
                let (known_nickname, known_role) = match existing {
                    Some(entry) => (entry.agent_nickname, entry.agent_role),
                    None => (None, None),
                };
                let agent_nickname = match thread.agent_nickname {
                    Some(nickname) => Some(nickname),
                    None => known_nickname,
                };
                let agent_role = match thread.agent_role {
                    Some(role) => Some(role),
                    None => known_role,
                };
                self.upsert_agent_picker_thread(
                    thread_id,
                    agent_nickname,
                    agent_role,
                    is_closed,
                );
                true
            },
            Err(err) => {
                if Self::is_terminal_thread_read_error(&err) && !has_replay_channel {
                    self.agent_navigation.threads.remove(thread_id);
                    return false;
                }
                let existing_is_closed = match &existing {
                    Some(entry) => Some(entry.is_closed),
                    None => None,
                };
                let is_closed = Self::closed_state_for_thread_read_error(&err, existing_is_closed);
                match existing {
                    Some(entry) => {
                        self.upsert_agent_picker_thread(
                            thread_id,
                            entry.agent_nickname,
                            entry.agent_role,
                            is_closed,
                        );
                    },
                    None => {
                        self.upsert_agent_picker_thread(thread_id, None, None, is_closed);
                    },
                }
                true
            },
        }
    }

    /// Whether the chat is `chat_widget`, which goes on with the title and the
    /// connection of the chat of `before` and calls the agents as the picker does.
    pub open spec fn chat_replaced(&self, before: App, chat_widget: ChatWidget) -> bool {
        &&& self.chat_widget.last_terminal_title == match chat_widget.last_terminal_title {
            Some(title) => Some(title),
            None => before.chat_widget.last_terminal_title,
        }
        &&& self.chat_widget.remote_connection == before.chat_widget.remote_connection
        &&& self.chat_widget.pending_thread_approvals == chat_widget.pending_thread_approvals
        &&& forall|id: ThreadId| #[trigger]
            self.chat_widget.collab_agent_metadata.value(id)
                == match before.agent_navigation.threads.value(id) {
                Some(entry) => Some(label_of(entry)),
                None => chat_widget.collab_agent_metadata.value(id),
            }
    }

    /// Puts `chat_widget` in the place of the chat, which goes on with its title
    /// and its connection, and tells it how the agents are called.
    pub fn replace_chat_widget(&mut self, chat_widget: ChatWidget)
        requires
            old(self).maps_wf(),
            chat_widget.wf(),
        ensures
            final(self).wf(),
            final(self).footer_current(),
            *final(self) == (App { chat_widget: final(self).chat_widget, ..*old(self) }),
            final(self).chat_replaced(*old(self), chat_widget),
    {
        let mut widget = chat_widget;
        let previous_terminal_title = self.chat_widget.last_terminal_title.take();
        if widget.last_terminal_title.is_none() {
            widget.last_terminal_title = previous_terminal_title;
        }
        widget.remote_connection = copy_opt(&self.chat_widget.remote_connection);
        let ghost given = chat_widget.collab_agent_metadata;
        let ghost entries = self.agent_navigation.threads.entries@;
        let ghost seeded = widget;
        let mut i: usize = 0;
        proof {
            assert(entries.take(0) =~= Seq::empty());
        }
        while i < self.agent_navigation.threads.entries.len()
            invariant
                i <= self.agent_navigation.threads.entries@.len(),
                entries == self.agent_navigation.threads.entries@,
                widget.wf(),
                widget == (ChatWidget {
                    collab_agent_metadata: widget.collab_agent_metadata,
                    ..seeded
                }),
                forall|id: ThreadId| #[trigger]
                    widget.collab_agent_metadata.value(id) == match lookup(
                        entries.take(i as int),
                        id,
                    ) {
                        Some(entry) => Some(label_of(entry)),
                        None => given.value(id),
                    },
            decreases self.agent_navigation.threads.entries@.len() - i,
        {
            proof {
                assert(entries.take(i + 1).drop_last() =~= entries.take(i as int));
                assert(entries.take(i + 1).last() == entries[i as int]);
            }
            let id = self.agent_navigation.threads.entries[i].0;
            let label = AgentLabel {
                agent_nickname: copy_opt(&self.agent_navigation.threads.entries[i].1.agent_nickname),
                agent_role: copy_opt(&self.agent_navigation.threads.entries[i].1.agent_role),
            };
            widget.collab_agent_metadata.insert(id, label);
            i += 1;
        }
        proof {
            assert(entries.take(i as int) =~= entries);
        }
        self.chat_widget = widget;
        self.sync_active_agent_label();
    }

    /// Forgets everything about the threads of the session.
    pub fn reset_thread_event_state(&mut self)
        requires
            old(self).maps_wf(),
        ensures
            final(self).wf(),
            final(self).footer_current(),
            final(self).agent_navigation.threads.keys().len() == 0,
            final(self).thread_details.keys().len() == 0,
            final(self).thread_event_channels.keys().len() == 0,
            final(self).side_threads.keys().len() == 0,
            final(self).active_thread_id is None,
            !final(self).has_active_receiver,
            final(self).primary_thread_id is None,
            final(self).last_subagent_backfill_attempt is None,
            !final(self).primary_session_configured,
            final(self).pending_primary_events@.len() == 0,
            final(self).pending_app_server_requests@.len() == 0,
            !final(self).pending_startup_thread_start,
            final(self).chat_widget == (ChatWidget {
                active_agent_label: None,
                pending_thread_approvals: final(self).chat_widget.pending_thread_approvals,
                ..old(self).chat_widget
            }),
            final(self).chat_widget.pending_thread_approvals@.len() == 0,
    {
        self.agent_navigation = AgentNavigationState::new();
        self.thread_details = IdMap::new();
        self.thread_event_channels = IdMap::new();
        self.side_threads = IdMap::new();
        self.active_thread_id = None;
        self.has_active_receiver = false;
        self.primary_thread_id = None;
        self.last_subagent_backfill_attempt = None;
        self.primary_session_configured = false;
        self.pending_primary_events = Vec::new();
        self.pending_app_server_requests = Vec::new();
        self.pending_startup_thread_start = false;
        self.chat_widget.pending_thread_approvals = Vec::new();
        self.sync_active_agent_label();
        proof {
            assert forall|id: ThreadId| #[trigger]
                self.agent_navigation.threads.value(id) is None by {
                crate::id_map::lemma_lookup(self.agent_navigation.threads.entries@, id);
            }
        }
    }

    /// Whether a thread has to be attached before it can be displayed: its events
    /// are not kept, and it is not known to be closed.
    pub fn should_attach_live_thread_for_selection(&self, thread_id: ThreadId) -> (attach: bool)
        requires
            self.maps_wf(),
        ensures
            attach == self.must_attach(thread_id),
    {
        !self.thread_event_channels.contains(thread_id) && match self.agent_navigation.threads.get(
            thread_id,
        ) {
            Some(entry) => !entry.is_closed,
            None => true,
        }
    }

    /// Whether the picker knows the thread and knows it to be closed.
    pub open spec fn known_closed(&self, thread_id: ThreadId) -> bool {
        match self.agent_navigation.threads.value(thread_id) {
            Some(entry) => entry.is_closed,
            None => false,
        }
    }

    /// Whether a thread has to be attached before it can be displayed.
    pub open spec fn must_attach(&self, thread_id: ThreadId) -> bool {
        !self.thread_event_channels.keys().contains(thread_id) && !self.known_closed(thread_id)
    }

    /// Keeps the events of a thread from now on.
    pub fn ensure_thread_channel(&mut self, thread_id: ThreadId)
        requires
            old(self).wf(),
        ensures
            final(self).wf(),
            *final(self) == (App {
                thread_event_channels: final(self).thread_event_channels,
                ..*old(self)
            }),
            final(self).thread_event_channels.keys() == if old(
                self,
            ).thread_event_channels.keys().contains(thread_id) {
                old(self).thread_event_channels.keys()
            } else {
                old(self).thread_event_channels.keys().push(thread_id)
            },
    {
        if !self.thread_event_channels.contains(thread_id) {
            self.thread_event_channels.insert(thread_id, ());
        }
    }

    /// Displays a thread again, because the switch to another one failed.
    pub fn reactivate_thread(&mut self, thread_id: ThreadId)
        requires
            old(self).wf(),
        ensures
            final(self).wf(),
            final(self).footer_current(),
            *final(self) == (App {
                active_thread_id: Some(thread_id),
                has_active_receiver: true,
                chat_widget: ChatWidget {
                    active_agent_label: final(self).chat_widget.active_agent_label,
                    ..old(self).chat_widget
                },
                ..*old(self)
            }),
    {
        self.active_thread_id = Some(thread_id);
        self.has_active_receiver = true;
        self.sync_active_agent_label();
    }

    /// Makes a thread the primary one of the session.
    pub fn adopt_primary_thread(&mut self, thread_id: ThreadId)
        requires
            old(self).wf(),
        ensures
            final(self).wf(),
            final(self).footer_current(),
            *final(self) == (App {
                primary_thread_id: Some(thread_id),
                chat_widget: ChatWidget {
                    active_agent_label: final(self).chat_widget.active_agent_label,
                    ..old(self).chat_widget
                },
                ..*old(self)
            }),
    {
        self.primary_thread_id = Some(thread_id);
        self.sync_active_agent_label();
    }

    /// Takes a thread into the session that has been resumed with its own configuration,
    /// with what reading it told of it.
    pub fn resume_agent_thread_into_session(
        &mut self,
        resumed: ThreadResume,
        metadata: Option<AgentLabel>,
    )
        requires
            old(self).wf(),
            resumed.config == ConfigSource::Stored,
        ensures
            final(self).wf(),
            final(self).footer_current(),
            final(self).thread_event_channels.keys() == if old(
                self,
            ).thread_event_channels.keys().contains(resumed.thread_id) {
                old(self).thread_event_channels.keys()
            } else {
                old(self).thread_event_channels.keys().push(resumed.thread_id)
            },
            final(self).agent_navigation.threads.keys() == if old(
                self,
            ).agent_navigation.threads.keys().contains(resumed.thread_id) {
                old(self).agent_navigation.threads.keys()
            } else {
                old(self).agent_navigation.threads.keys().push(resumed.thread_id)
            },
            forall|id: ThreadId| #[trigger]
                final(self).agent_navigation.threads.value(id) == if id == resumed.thread_id {
                    Some(
                        AgentPickerThreadEntry {
                            agent_nickname: match metadata {
                                Some(label) => label.agent_nickname,
                                None => None,
                            },
                            agent_role: match metadata {
                                Some(label) => label.agent_role,
                                None => None,
                            },
                            is_closed: false,
                        },
                    )
                } else {
                    old(self).agent_navigation.threads.value(id)
                },
            forall|id: ThreadId| #[trigger]
                final(self).chat_widget.collab_agent_metadata.value(id) == if id == resumed.thread_id {
                    Some(
                        match metadata {
                            Some(label) => label,
                            None => AgentLabel { agent_nickname: None, agent_role: None },
                        },
                    )
                } else {
                    old(self).chat_widget.collab_agent_metadata.value(id)
                },
            final(self).same_session(
                App { thread_event_channels: final(self).thread_event_channels, ..*old(self) },
            ),
            final(self).thread_details == old(self).thread_details,
    {
        self.ensure_thread_channel(resumed.thread_id);
        let (agent_nickname, agent_role) = match metadata {
            Some(label) => (label.agent_nickname, label.agent_role),
            None => (None, None),
        };
        self.upsert_agent_picker_thread(resumed.thread_id, agent_nickname, agent_role, false);
    }
}

/// What is known of a thread after it was read, or could not be; `None` where it
/// is forgotten.
pub open spec fn refreshed_entry(
    existing: Option<AgentPickerThreadEntry>,
    has_replay_channel: bool,
    read: Result<Thread, color_eyre::Report>,
) -> Option<AgentPickerThreadEntry> {
    let known = match existing {
        Some(entry) => entry,
        None => AgentPickerThreadEntry {
            agent_nickname: None,
            agent_role: None,
            is_closed: false,
        },
    };
    match read {
        Ok(thread) => Some(
            AgentPickerThreadEntry {
                agent_nickname: match thread.agent_nickname {
                    Some(nickname) => Some(nickname),
                    None => known.agent_nickname,
                },
                agent_role: match thread.agent_role {
                    Some(role) => Some(role),
                    None => known.agent_role,
                },
                is_closed: thread.status is NotLoaded,
            },
        ),
        Err(err) => {
            let gone = says_not_loaded(cause_messages(err));
            if gone && !has_replay_channel {
                None
            } else {
                Some(AgentPickerThreadEntry { is_closed: gone || known.is_closed, ..known })
            }
        },
    }
}

/// Whether `details` are those of `thread`.
pub open spec fn details_match(details: ThreadDetails, thread: Thread) -> bool {
    &&& details.agent_path.deep_view() == status_info(thread).agent_path
    &&& details.summary.deep_view() == status_info(thread).summary
}

} // verus!
