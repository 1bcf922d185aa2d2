//! What holds of the threads of a session while it runs, switches and is replaced.

use vstd::prelude::*;

use crate::app_state::{
    AgentLabel, AgentNavigationState, AgentPickerThreadEntry, App, ChatWidget,
};
use crate::id_map::{lookup, IdMap};
use crate::lifecycle::{
    backfill_ids, found_entries, fresh_session_config, learned_keys, resume_target_session,
    start_fresh_session_with_summary_hint, summary_lines, AdjacentStep, FreshOutcome, FreshReport,
    LoadedSubagent, ResolveCwdOutcome, ResumeSessionRun, ResumeSessionTurn, SessionConfig,
    SessionSummary, SessionTarget, StartupStep, SummaryLine,
};
use crate::report::report_message;
use crate::runtime_config::{ConfigSource, ThreadResume};
use crate::selection::{viewport_top, AttachStep, Keep, SelectRun, SelectTurn};
use crate::text_laws::a_cause_says;
use crate::thread::{Thread, ThreadId};

verus! {

/// Whether the footer calls the displayed agent by the nickname and the role that the
/// picker knows, and no agent where the picker does not know the displayed thread.
pub open spec fn footer_tells(app: App) -> bool {
    let label = app.chat_widget.active_agent_label;
    let entry = app.agent_navigation.threads.value(app.active_thread_id->0);
    &&& app.active_thread_id is None ==> label is None
    &&& app.active_thread_id is Some && entry is None ==> label is None
    &&& app.active_thread_id is Some && entry is Some ==> label is Some
        && label->0.agent_nickname == entry->0.agent_nickname && label->0.agent_role
        == entry->0.agent_role
}

/// Whether the picker knows a thread by `nickname` and `role`, open or closed, and the
/// chat calls it so too.
pub open spec fn is_known_as(
    app: App,
    id: ThreadId,
    nickname: Option<String>,
    role: Option<String>,
    closed: bool,
) -> bool {
    let entry = app.agent_navigation.threads.value(id);
    let label = app.chat_widget.collab_agent_metadata.value(id);
    &&& entry is Some
    &&& entry->0.agent_nickname == nickname
    &&& entry->0.agent_role == role
    &&& entry->0.is_closed == closed
    &&& label is Some
    &&& label->0.agent_nickname == nickname
    &&& label->0.agent_role == role
}

/// Whether the picker and the chat know every thread but `id` as before.
pub open spec fn knows_others_alike(before: App, after: App, id: ThreadId) -> bool {
    forall|other: ThreadId|
        other != id ==> #[trigger] after.agent_navigation.threads.value(other)
            == before.agent_navigation.threads.value(other)
            && after.chat_widget.collab_agent_metadata.value(other)
            == before.chat_widget.collab_agent_metadata.value(other)
}

/// Whether the displayed and the primary thread, the side threads and the kept events are
/// as before.
pub open spec fn goes_on(before: App, after: App) -> bool {
    &&& after.active_thread_id == before.active_thread_id
    &&& after.primary_thread_id == before.primary_thread_id
    &&& after.side_threads == before.side_threads
    &&& after.thread_event_channels == before.thread_event_channels
    &&& after.has_active_receiver == before.has_active_receiver
    &&& after.pending_startup_thread_start == before.pending_startup_thread_start
    &&& after.last_subagent_backfill_attempt == before.last_subagent_backfill_attempt
}

/// Whether the picker keeps the order of its threads, and a new one comes last.
pub open spec fn keeps_order(before: App, after: App, id: ThreadId) -> bool {
    let known = before.agent_navigation.threads.keys();
    let now = after.agent_navigation.threads.keys();
    &&& known.contains(id) ==> now == known
    &&& !known.contains(id) ==> now == known.push(id)
}

/// What is learned of a thread is known to the picker, the chat and the footer alike, and
/// nothing else changes.
pub proof fn lemma_learning_of_a_thread(
    id: ThreadId,
    nickname: Option<String>,
    role: Option<String>,
    closed: bool,
)
    ensures
        forall|app: &mut App|
            app.wf() && #[trigger] call_ensures(
                App::upsert_agent_picker_thread,
                (app, id, nickname, role, closed),
                (),
            ) ==> is_known_as(*final(app), id, nickname, role, closed) && knows_others_alike(
                *app,
                *final(app),
                id,
            ) && goes_on(*app, *final(app)) && keeps_order(*app, *final(app), id) && footer_tells(*final(app)) && final(app).thread_details == app.thread_details,
{
    assert forall|app: &mut App|
        app.wf() && #[trigger] call_ensures(
            App::upsert_agent_picker_thread,
            (app, id, nickname, role, closed),
            (),
        ) implies is_known_as(*final(app), id, nickname, role, closed) && knows_others_alike(
        *app,
        *final(app),
        id,
    ) && goes_on(*app, *final(app)) && keeps_order(*app, *final(app), id) && footer_tells(*final(app)) && final(app).thread_details
        == app.thread_details by {
        let after = *final(app);
        assert(after.agent_navigation.threads.value(id) is Some);
        assert forall|other: ThreadId| other != id implies #[trigger]
            after.agent_navigation.threads.value(other)
            == app.agent_navigation.threads.value(other)
            && after.chat_widget.collab_agent_metadata.value(other)
            == app.chat_widget.collab_agent_metadata.value(other) by {
            assert(after.chat_widget.collab_agent_metadata.value(other)
                == app.chat_widget.collab_agent_metadata.value(other));
        }
    }
}

/// A thread that is marked closed keeps its nickname, its role and its place; a thread that
/// the picker does not know stays unknown.
pub proof fn lemma_closing_a_thread(id: ThreadId)
    ensures
        forall|app: &mut App|
            app.wf() && #[trigger] call_ensures(App::mark_agent_picker_thread_closed, (app, id), ())
                ==> closes(*app, *final(app), id),
{
    assert forall|app: &mut App|
        app.wf() && #[trigger] call_ensures(
            App::mark_agent_picker_thread_closed,
            (app, id),
            (),
        ) implies closes(*app, *final(app), id) by {
        let after = *final(app);
        assert(after.agent_navigation.threads.value(id) is Some
            == app.agent_navigation.threads.value(id) is Some);
        assert forall|other: ThreadId| other != id implies #[trigger]
            after.agent_navigation.threads.value(other)
            == app.agent_navigation.threads.value(other)
            && after.chat_widget.collab_agent_metadata.value(other)
            == app.chat_widget.collab_agent_metadata.value(other) by {}
    }
}

/// Whether `after` is `before` with the thread `id` closed, where the picker knows it.
pub open spec fn closes(before: App, after: App, id: ThreadId) -> bool {
    let known = before.agent_navigation.threads.value(id);
    let entry = after.agent_navigation.threads.value(id);
    &&& entry is Some <==> known is Some
    &&& known is Some ==> entry->0.is_closed && entry->0.agent_nickname == known->0.agent_nickname
        && entry->0.agent_role == known->0.agent_role
    &&& after.agent_navigation.threads.keys() == before.agent_navigation.threads.keys()
    &&& knows_others_alike(before, after, id)
    &&& goes_on(before, after)
    &&& footer_tells(after)
}

/// Whether reading a thread was taken in: what was read of its nickname and role counts,
/// and what was known before where it says nothing; it is closed where it is not loaded. A
/// thread that cannot be read stays as it was known, and is closed where it is gone for
/// good; it is forgotten where it is gone for good and its events were not kept.
pub open spec fn takes_in(
    before: App,
    after: App,
    id: ThreadId,
    read: Result<Thread, color_eyre::Report>,
    available: bool,
) -> bool {
    let known = before.agent_navigation.threads.value(id);
    let entry = after.agent_navigation.threads.value(id);
    let kept = before.thread_event_channels.keys().contains(id);
    &&& available <==> !(read is Err && a_cause_says(read->Err_0, "thread not loaded:"@) && !kept)
    &&& !available ==> entry is None && after.chat_widget == before.chat_widget
    &&& available ==> entry is Some && footer_tells(after)
    &&& knows_others_alike(before, after, id)
    &&& goes_on(before, after)
    &&& read is Ok ==> (entry->0.is_closed <==> read->Ok_0.status is NotLoaded)
    &&& read is Ok && read->Ok_0.agent_nickname is Some ==> entry->0.agent_nickname
        == read->Ok_0.agent_nickname
    &&& read is Ok && read->Ok_0.agent_role is Some ==> entry->0.agent_role
        == read->Ok_0.agent_role
    &&& read is Ok && read->Ok_0.agent_nickname is None && known is Some
        ==> entry->0.agent_nickname == known->0.agent_nickname
    &&& read is Ok && read->Ok_0.agent_role is None && known is Some ==> entry->0.agent_role
        == known->0.agent_role
    &&& read is Ok && known is None && read->Ok_0.agent_nickname is None ==> entry->0.agent_nickname
        is None
    &&& read is Ok && known is None && read->Ok_0.agent_role is None ==> entry->0.agent_role is None
    &&& read is Err && available && known is Some ==> entry->0.agent_nickname
        == known->0.agent_nickname && entry->0.agent_role == known->0.agent_role
        && (entry->0.is_closed <==> known->0.is_closed || a_cause_says(
        read->Err_0,
        "thread not loaded:"@,
    ))
    &&& read is Err && available && known is None ==> entry->0.agent_nickname is None
        && entry->0.agent_role is None && (entry->0.is_closed <==> a_cause_says(
        read->Err_0,
        "thread not loaded:"@,
    ))
    &&& read is Err ==> after.thread_details == before.thread_details
}

proof fn lemma_refreshed(
    before: App,
    after: App,
    id: ThreadId,
    read: Result<Thread, color_eyre::Report>,
)
    requires
        after.refreshed_from(before, id, read),
    ensures
        takes_in(before, after, id, read, before.still_there(id, read)),
{
    if read is Err {
        crate::text_laws::lemma_causes_say(read->Err_0, "thread not loaded:"@);
    }
    let entry = after.agent_navigation.threads.value(id);
    assert forall|other: ThreadId| other != id implies #[trigger]
        after.agent_navigation.threads.value(other)
        == before.agent_navigation.threads.value(other)
        && after.chat_widget.collab_agent_metadata.value(other)
        == before.chat_widget.collab_agent_metadata.value(other) by {
        if before.still_there(id, read) {
            assert(after.chat_widget.collab_agent_metadata.value(other)
                == before.chat_widget.collab_agent_metadata.value(other));
        }
    }
}

/// What reading a thread gave is taken in.
pub proof fn lemma_reading_a_thread(id: ThreadId, read: Result<Thread, color_eyre::Report>)
    ensures
        forall|app: &mut App, available: bool|
            app.wf() && #[trigger] call_ensures(
                App::refresh_agent_picker_thread_liveness,
                (app, id, read),
                available,
            ) ==> takes_in(*app, *final(app), id, read, available),
{
    assert forall|app: &mut App, available: bool|
        app.wf() && #[trigger] call_ensures(
            App::refresh_agent_picker_thread_liveness,
            (app, id, read),
            available,
        ) implies takes_in(*app, *final(app), id, read, available) by {
        lemma_refreshed(*app, *final(app), id, read);
    }
}

/// A thread that was read is remembered with its path and its summary.
pub proof fn lemma_details_are_remembered(
    id: ThreadId,
    thread: Thread,
    view: crate::agent_tree::ThreadStatusView,
)
    requires
        call_ensures(crate::thread::thread_status_view_from_thread, (&thread,), view),
    ensures
        forall|app: &mut App, available: bool|
            app.wf() && #[trigger] call_ensures(
                App::refresh_agent_picker_thread_liveness,
                (app, id, Ok::<Thread, color_eyre::Report>(thread)),
                available,
            ) ==> final(app).thread_details.value(id) is Some && final(app).thread_details.value(
                id,
            )->0.agent_path.deep_view() == view.agent_path.deep_view()
                && final(app).thread_details.value(id)->0.summary.deep_view()
                == view.summary.deep_view(),
{
    assert forall|app: &mut App, available: bool|
        app.wf() && #[trigger] call_ensures(
            App::refresh_agent_picker_thread_liveness,
            (app, id, Ok::<Thread, color_eyre::Report>(thread)),
            available,
        ) implies final(app).thread_details.value(id) is Some && final(app).thread_details.value(
        id,
    )->0.agent_path.deep_view() == view.agent_path.deep_view() && final(app).thread_details.value(
        id,
    )->0.summary.deep_view() == view.summary.deep_view() by {
        assert(final(app).thread_details.value(id) is Some);
    }
}

/// Whether `after` is `before` with another chat, which goes on with the title and the
/// connection of the old one and calls the agents as the picker does.
pub open spec fn has_new_chat(before: App, after: App, chat: ChatWidget) -> bool {
    &&& chat.last_terminal_title is Some ==> after.chat_widget.last_terminal_title
        == chat.last_terminal_title
    &&& chat.last_terminal_title is None ==> after.chat_widget.last_terminal_title
        == before.chat_widget.last_terminal_title
    &&& after.chat_widget.remote_connection == before.chat_widget.remote_connection
    &&& after.chat_widget.pending_thread_approvals == chat.pending_thread_approvals
    &&& forall|id: ThreadId|
        before.agent_navigation.threads.value(id) is Some ==> (
        #[trigger] after.chat_widget.collab_agent_metadata.value(id)) is Some
            && after.chat_widget.collab_agent_metadata.value(id)->0.agent_nickname
            == before.agent_navigation.threads.value(id)->0.agent_nickname
            && after.chat_widget.collab_agent_metadata.value(id)->0.agent_role
            == before.agent_navigation.threads.value(id)->0.agent_role
    &&& forall|id: ThreadId|
        before.agent_navigation.threads.value(id) is None ==> (
        #[trigger] after.chat_widget.collab_agent_metadata.value(id))
            == chat.collab_agent_metadata.value(id)
    &&& footer_tells(after)
}

/// A new chat takes the place of the old one, and nothing else changes.
pub proof fn lemma_replacing_the_chat(chat: ChatWidget)
    requires
        chat.wf(),
    ensures
        forall|app: &mut App|
            app.maps_wf() && #[trigger] call_ensures(App::replace_chat_widget, (app, chat), ())
                ==> has_new_chat(*app, *final(app), chat) && goes_on(*app, *final(app)) && final(app).agent_navigation == app.agent_navigation && final(app).thread_details
                == app.thread_details,
{
}

/// Whether nothing is left of the threads of a session.
pub open spec fn is_forgotten(app: App) -> bool {
    &&& app.agent_navigation.threads.entries@.len() == 0
    &&& app.thread_details.entries@.len() == 0
    &&& app.thread_event_channels.entries@.len() == 0
    &&& app.side_threads.entries@.len() == 0
    &&& app.active_thread_id is None
    &&& !app.has_active_receiver
    &&& app.primary_thread_id is None
    &&& app.last_subagent_backfill_attempt is None
    &&& !app.primary_session_configured
    &&& app.pending_primary_events@.len() == 0
    &&& app.pending_app_server_requests@.len() == 0
    &&& !app.pending_startup_thread_start
    &&& app.chat_widget.active_agent_label is None
}

/// A session that is left, or replaced, is forgotten with all its threads; a chat that
/// takes its place goes on with the title and the connection, and no approval is pending
/// that it does not bring.
pub proof fn lemma_leaving_a_session(chat: ChatWidget)
    requires
        chat.wf(),
    ensures
        forall|app: &mut App|
            app.maps_wf() && #[trigger] call_ensures(App::reset_thread_event_state, (app,), ())
                ==> is_forgotten(*final(app)) && final(app).chat_widget.pending_thread_approvals@.len() == 0
                && final(app).chat_widget.last_terminal_title
                == app.chat_widget.last_terminal_title && final(app).chat_widget.remote_connection
                == app.chat_widget.remote_connection,
        forall|app: &mut App|
            app.maps_wf() && #[trigger] call_ensures(
                App::replace_chat_widget_with_app_server_thread,
                (app, chat),
                (),
            ) ==> is_forgotten(*final(app)) && final(app).chat_widget.remote_connection
                == app.chat_widget.remote_connection
                && final(app).chat_widget.pending_thread_approvals == chat.pending_thread_approvals
                && (chat.last_terminal_title is None ==> final(app).chat_widget.last_terminal_title
                == app.chat_widget.last_terminal_title) && (chat.last_terminal_title is Some
                ==> final(app).chat_widget.last_terminal_title == chat.last_terminal_title),
{
    assert forall|app: &mut App|
        app.maps_wf() && #[trigger] call_ensures(
            App::reset_thread_event_state,
            (app,),
            (),
        ) implies is_forgotten(*final(app)) by {
        lemma_no_entries(final(app).agent_navigation.threads);
        lemma_no_entries(final(app).thread_details);
        lemma_no_entries(final(app).thread_event_channels);
        lemma_no_entries(final(app).side_threads);
    }
    assert forall|app: &mut App|
        app.maps_wf() && #[trigger] call_ensures(
            App::replace_chat_widget_with_app_server_thread,
            (app, chat),
            (),
        ) implies is_forgotten(*final(app)) by {
        lemma_no_entries(final(app).agent_navigation.threads);
        lemma_no_entries(final(app).thread_details);
        lemma_no_entries(final(app).thread_event_channels);
        lemma_no_entries(final(app).side_threads);
    }
}

proof fn lemma_no_entries<V>(map: IdMap<V>)
    requires
        map.keys().len() == 0,
    ensures
        map.entries@.len() == 0,
{
}

/// Whether `after` keeps the events of the thread `id` and of those of which `before` did.
pub open spec fn keeps_events_of(before: App, after: App, id: ThreadId) -> bool {
    forall|other: ThreadId|
        #[trigger] after.thread_event_channels.keys().contains(other) <==> other == id
            || before.thread_event_channels.keys().contains(other)
}

proof fn lemma_pushed(before: Seq<ThreadId>, id: ThreadId, after: Seq<ThreadId>)
    requires
        after == if before.contains(id) {
            before
        } else {
            before.push(id)
        },
    ensures
        forall|other: ThreadId|
            #[trigger] after.contains(other) <==> other == id || before.contains(other),
{
    assert forall|other: ThreadId| #[trigger] after.contains(other) <==> other == id
        || before.contains(other) by {
        if !before.contains(id) {
            assert(after[before.len() as int] == id);
            if before.contains(other) {
                let i = before.index_of(other);
                assert(after[i] == other);
            }
            if after.contains(other) {
                let i = after.index_of(other);
                if i < before.len() {
                    assert(before[i] == other);
                }
            }
        }
    }
}

/// A thread that is brought back joins the session open, by the nickname and the role that
/// reading it told, and its events are kept from then on.
pub proof fn lemma_joining_the_session(resumed: ThreadResume, label: Option<AgentLabel>)
    requires
        resumed.config == ConfigSource::Stored,
    ensures
        forall|app: &mut App|
            app.wf() && #[trigger] call_ensures(
                App::resume_agent_thread_into_session,
                (app, resumed, label),
                (),
            ) ==> is_known_as(
                *final(app),
                resumed.thread_id,
                if label is Some {
                    label->0.agent_nickname
                } else {
                    None
                },
                if label is Some {
                    label->0.agent_role
                } else {
                    None
                },
                false,
            ) && knows_others_alike(*app, *final(app), resumed.thread_id) && keeps_events_of(
                *app,
                *final(app),
                resumed.thread_id,
            ) && final(app).active_thread_id == app.active_thread_id && final(app).primary_thread_id == app.primary_thread_id && keeps_order(*app, *final(app), resumed.thread_id)
                && footer_tells(*final(app)),
{
    let id = resumed.thread_id;
    assert forall|app: &mut App|
        app.wf() && #[trigger] call_ensures(
            App::resume_agent_thread_into_session,
            (app, resumed, label),
            (),
        ) implies is_known_as(
        *final(app),
        id,
        if label is Some {
            label->0.agent_nickname
        } else {
            None
        },
        if label is Some {
            label->0.agent_role
        } else {
            None
        },
        false,
    ) && knows_others_alike(*app, *final(app), id) && keeps_events_of(*app, *final(app), id)
        && final(app).active_thread_id == app.active_thread_id && final(app).primary_thread_id
        == app.primary_thread_id && keeps_order(*app, *final(app), id)
        && footer_tells(*final(app)) by {
        let after = *final(app);
        assert(after.agent_navigation.threads.value(id) is Some);
        assert(after.chat_widget.collab_agent_metadata.value(id) is Some);
        assert forall|other: ThreadId| other != id implies #[trigger]
            after.agent_navigation.threads.value(other)
            == app.agent_navigation.threads.value(other)
            && after.chat_widget.collab_agent_metadata.value(other)
            == app.chat_widget.collab_agent_metadata.value(other) by {
            assert(after.chat_widget.collab_agent_metadata.value(other)
                == app.chat_widget.collab_agent_metadata.value(other));
        }
        lemma_pushed(
            app.thread_event_channels.keys(),
            id,
            after.thread_event_channels.keys(),
        );
    }
}

/// A thread that is displayed again, or made the primary one, is so; the footer tells the
/// displayed agent; events are kept from then on of a thread that they are asked for.
pub proof fn lemma_marking_threads(id: ThreadId)
    ensures
        forall|app: &mut App|
            app.wf() && #[trigger] call_ensures(App::reactivate_thread, (app, id), ()) ==> final(app).active_thread_id == Some(id) && final(app).has_active_receiver && final(app).primary_thread_id == app.primary_thread_id && final(app).agent_navigation
                == app.agent_navigation && footer_tells(*final(app)),
        forall|app: &mut App|
            app.wf() && #[trigger] call_ensures(App::adopt_primary_thread, (app, id), ()) ==> final(app).primary_thread_id == Some(id) && final(app).active_thread_id == app.active_thread_id
                && final(app).agent_navigation == app.agent_navigation && footer_tells(
                *final(app),
            ),
        forall|app: &mut App|
            app.wf() && #[trigger] call_ensures(App::ensure_thread_channel, (app, id), ())
                ==> keeps_events_of(*app, *final(app), id) && final(app).agent_navigation
                == app.agent_navigation && final(app).chat_widget == app.chat_widget && final(app).active_thread_id == app.active_thread_id,
{
    assert forall|app: &mut App|
        app.wf() && #[trigger] call_ensures(
            App::ensure_thread_channel,
            (app, id),
            (),
        ) implies keeps_events_of(*app, *final(app), id) && final(app).agent_navigation
        == app.agent_navigation && final(app).chat_widget == app.chat_widget && final(app).active_thread_id == app.active_thread_id by {
        lemma_pushed(
            app.thread_event_channels.keys(),
            id,
            final(app).thread_event_channels.keys(),
        );
    }
}

/// A thread is attached where its events are not kept and it is not known to be closed; it
/// is resumed with its own configuration; where that fails it is read with its turns, and
/// then without them where it has none to read; a thread without turns is not attached.
pub proof fn lemma_attaching(
    app: &App,
    id: ThreadId,
    attach: bool,
    begin: AttachStep,
    resumed: bool,
    then: AttachStep,
    read: Result<usize, &color_eyre::Report>,
    with_turns: AttachStep,
    is_read: bool,
    without_turns: AttachStep,
)
    requires
        app.maps_wf(),
        call_ensures(App::should_attach_live_thread_for_selection, (app, id), attach),
        call_ensures(App::attach_live_thread_for_selection, (app, id), begin),
        call_ensures(App::attach_resumed, (resumed,), then),
        call_ensures(App::attach_read_with_turns, (id, read), with_turns),
        call_ensures(App::attach_read_without_turns, (id, is_read), without_turns),
    ensures
        attach <==> !app.thread_event_channels.keys().contains(id) && !(
        app.agent_navigation.threads.value(id) is Some && app.agent_navigation.threads.value(
            id,
        )->0.is_closed),
        begin is Attached <==> app.thread_event_channels.keys().contains(id),
        !(begin is Attached) ==> begin is Resume && begin->Resume_0.thread_id == id
            && begin->Resume_0.config == ConfigSource::Stored,
        resumed ==> then is KeepLive,
        !resumed ==> then is ReadWithTurns,
        read is Ok && read->Ok_0 > 0 ==> with_turns is KeepReplay,
        read is Ok && read->Ok_0 == 0 ==> with_turns is Fail && with_turns->Fail_0@
            == "Agent thread "@ + id.text()
            + " is not yet available for replay or live attach."@,
        read is Err ==> (with_turns is ReadWithoutTurns <==> a_cause_says(
            *read->Err_0,
            "includeTurns is unavailable before first user message"@,
        ) || a_cause_says(*read->Err_0, "ephemeral threads do not support includeTurns"@)),
        read is Err && !(with_turns is ReadWithoutTurns) ==> with_turns is PassOn,
        is_read ==> without_turns is Fail && without_turns->Fail_0@ == "Agent thread "@ + id.text()
            + " is not yet available for replay or live attach."@,
        !is_read ==> without_turns is PassOn,
{
    if read is Err {
        crate::text_laws::lemma_causes_say(
            *read->Err_0,
            "includeTurns is unavailable before first user message"@,
        );
        crate::text_laws::lemma_causes_say(
            *read->Err_0,
            "ephemeral threads do not support includeTurns"@,
        );
    }
}

/// A switch to the displayed thread changes nothing; a switch to another one reads it.
pub proof fn lemma_switching_begins(app: &App, id: ThreadId, turn: SelectTurn)
    requires
        call_ensures(App::select_agent_thread, (app, id), turn),
    ensures
        turn is End <==> app.active_thread_id == Some(id),
        turn is End ==> turn->End_0 is Unchanged,
        turn is Wait ==> turn->run.thread_id == id && turn->run.wait is Read && turn->keep
            == Keep::Nothing,
{
}

/// Whether the switch has ended with `message`, and the displayed thread stays.
pub open spec fn fails_saying(before: App, after: App, turn: SelectTurn, message: Seq<char>) -> bool {
    &&& turn is End
    &&& turn->End_0 is Error
    &&& turn->End_0->Error_0@ == message
    &&& after.active_thread_id == before.active_thread_id
}

/// Whether the switch has left the displayed thread, which it remembers, and waits for the
/// events of the thread `id`.
pub open spec fn leaves_for(
    before: App,
    after: App,
    turn: SelectTurn,
    id: ThreadId,
    replay: bool,
    could_not_resume: bool,
    keep: Keep,
) -> bool {
    &&& after.active_thread_id is None
    &&& turn is Wait
    &&& turn->run.thread_id == id
    &&& turn->run.wait is Activate
    &&& turn->run.wait->is_replay_only == replay
    &&& turn->run.wait->attached_replay_only == could_not_resume
    &&& turn->run.wait->previous == before.active_thread_id
    &&& turn->keep == keep
}

/// What follows from reading the thread of a switch: a thread that is gone is said to be;
/// one whose events are kept is displayed, and only replayed where it is closed; another one
/// is resumed with its own configuration, unless it is closed, and then it is gone too.
pub open spec fn goes_on_from_reading(
    before: App,
    after: App,
    id: ThreadId,
    read: Result<Thread, color_eyre::Report>,
    turn: SelectTurn,
) -> bool {
    let entry = after.agent_navigation.threads.value(id);
    let kept = before.thread_event_channels.keys().contains(id);
    let closed = entry is Some && entry->0.is_closed;
    let gone = "Agent thread "@ + id.text() + " is no longer available."@;
    let lost = read is Err && a_cause_says(read->Err_0, "thread not loaded:"@) && !kept;
    &&& lost ==> entry is None && fails_saying(before, after, turn, gone)
    &&& !lost && !kept && closed ==> fails_saying(before, after, turn, gone)
    &&& !lost && !kept && !closed ==> turn is Wait && turn->run.thread_id == id && turn->run.wait
        is Resume && turn->run.wait->Resume_0.thread_id == id && turn->run.wait->Resume_0.config
        == ConfigSource::Stored && turn->keep == Keep::Nothing && after.active_thread_id
        == before.active_thread_id
    &&& kept ==> leaves_for(before, after, turn, id, closed, false, Keep::Nothing)
    &&& after.primary_thread_id == before.primary_thread_id
    &&& after.thread_event_channels == before.thread_event_channels
}

/// What follows when the thread of a switch was read.
pub proof fn lemma_switch_reads(run: SelectRun, read: Result<Thread, color_eyre::Report>)
    requires
        run.wait is Read,
    ensures
        forall|app: &mut App, turn: SelectTurn|
            app.wf() && #[trigger] call_ensures(App::selection_read, (app, run, read), turn)
                ==> goes_on_from_reading(*app, *final(app), run.thread_id, read, turn),
{
    assert forall|app: &mut App, turn: SelectTurn|
        app.wf() && #[trigger] call_ensures(
            App::selection_read,
            (app, run, read),
            turn,
        ) implies goes_on_from_reading(*app, *final(app), run.thread_id, read, turn) by {
        let before = *app;
        let after = *final(app);
        let seen = after.displaying_as(before);
        lemma_refreshed(before, seen, run.thread_id, read);
        assert(seen.agent_navigation == after.agent_navigation);
        assert(seen.thread_event_channels == before.thread_event_channels);
    }
}

/// What follows when the thread of a switch was resumed: it is displayed, and its events
/// are kept; a thread that could not be resumed is read with its turns.
pub proof fn lemma_switch_resumes(run: SelectRun, resumed: bool)
    requires
        run.wait is Resume,
    ensures
        forall|app: &mut App, turn: SelectTurn|
            app.wf() && #[trigger] call_ensures(App::selection_resumed, (app, run, resumed), turn)
                ==> (resumed ==> keeps_events_of(*app, *final(app), run.thread_id) && leaves_for(
                *app,
                *final(app),
                turn,
                run.thread_id,
                app.agent_navigation.threads.value(run.thread_id) is Some
                    && app.agent_navigation.threads.value(run.thread_id)->0.is_closed,
                false,
                Keep::Live,
            )) && (!resumed ==> *final(app) == *app && turn is Wait && turn->run.thread_id
                == run.thread_id && turn->run.wait is ReadWithTurns) && final(app).agent_navigation
                == app.agent_navigation,
{
    assert forall|app: &mut App, turn: SelectTurn|
        app.wf() && #[trigger] call_ensures(
            App::selection_resumed,
            (app, run, resumed),
            turn,
        ) && resumed implies keeps_events_of(*app, *final(app), run.thread_id) by {
        lemma_pushed(
            app.thread_event_channels.keys(),
            run.thread_id,
            final(app).thread_event_channels.keys(),
        );
    }
}

/// What follows when the thread of a switch was read with its turns: it is replayed, and
/// its events are kept; a thread without turns is not attached; one that cannot be read
/// with them is read without them where it has none to read, and else fails for the reason
/// that the app server gave.
pub proof fn lemma_switch_reads_turns(
    run: SelectRun,
    read: Result<usize, color_eyre::Report>,
    last: Result<(), color_eyre::Report>,
    reason: String,
    why: String,
)
    requires
        read is Err ==> call_ensures(report_message, (&read->Err_0,), reason),
        last is Err ==> call_ensures(report_message, (&last->Err_0,), why),
    ensures
        run.wait is ReadWithTurns ==> forall|app: &mut App, turn: SelectTurn|
            app.wf() && #[trigger] call_ensures(
                App::selection_read_with_turns,
                (app, run, read),
                turn,
            ) ==> goes_on_from_turns(*app, *final(app), run.thread_id, read, reason, turn),
        run.wait is ReadWithoutTurns ==> forall|app: &mut App, turn: SelectTurn|
            app.wf() && #[trigger] call_ensures(
                App::selection_read_without_turns,
                (app, run, last),
                turn,
            ) ==> *final(app) == *app && fails_saying(
                *app,
                *final(app),
                turn,
                "Failed to attach to agent thread "@ + run.thread_id.text() + ": "@ + if last is Ok {
                    "Agent thread "@ + run.thread_id.text()
                        + " is not yet available for replay or live attach."@
                } else {
                    why@
                },
            ),
{
    if read is Err {
        crate::text_laws::lemma_causes_say(
            read->Err_0,
            "includeTurns is unavailable before first user message"@,
        );
        crate::text_laws::lemma_causes_say(
            read->Err_0,
            "ephemeral threads do not support includeTurns"@,
        );
    }
    if run.wait is ReadWithTurns {
        assert forall|app: &mut App, turn: SelectTurn|
            app.wf() && #[trigger] call_ensures(
                App::selection_read_with_turns,
                (app, run, read),
                turn,
            ) implies goes_on_from_turns(
            *app,
            *final(app),
            run.thread_id,
            read,
            reason,
            turn,
        ) by {
            if read is Ok && read->Ok_0 > 0 {
                lemma_pushed(
                    app.thread_event_channels.keys(),
                    run.thread_id,
                    final(app).thread_event_channels.keys(),
                );
            }
        }
    }
}

/// Whether the switch goes on as reading the thread with its turns asks for.
pub open spec fn goes_on_from_turns(
    before: App,
    after: App,
    id: ThreadId,
    read: Result<usize, color_eyre::Report>,
    reason: String,
    turn: SelectTurn,
) -> bool {
    let attach = "Failed to attach to agent thread "@ + id.text() + ": "@;
    let no_turns = read is Err && (a_cause_says(
        read->Err_0,
        "includeTurns is unavailable before first user message"@,
    ) || a_cause_says(read->Err_0, "ephemeral threads do not support includeTurns"@));
    &&& read is Ok && read->Ok_0 > 0 ==> keeps_events_of(before, after, id) && leaves_for(
        before,
        after,
        turn,
        id,
        true,
        true,
        Keep::Replay,
    )
    &&& read is Ok && read->Ok_0 == 0 ==> after == before && fails_saying(
        before,
        after,
        turn,
        attach + ("Agent thread "@ + id.text()
            + " is not yet available for replay or live attach."@),
    )
    &&& no_turns ==> after == before && turn is Wait && turn->run.thread_id == id && turn->run.wait
        is ReadWithoutTurns
    &&& read is Err && !no_turns ==> after == before && fails_saying(
        before,
        after,
        turn,
        attach + reason@,
    )
}

/// What follows when the events of the thread are there: the thread is displayed in a new
/// chat, and its pending input is taken up unless it is only replayed, of which a notice
/// tells. Where they cannot be had, an error is shown, and the thread that was displayed
/// comes back.
pub open spec fn ends_switch(
    before: App,
    after: App,
    run: SelectRun,
    chat: Option<ChatWidget>,
    turn: SelectTurn,
) -> bool {
    let id = run.thread_id;
    let end = turn->End_0;
    let replay = run.wait->is_replay_only;
    &&& turn is End
    &&& chat is None ==> after == before && end is NotActivated && end->error@ == "Agent thread "@
        + id.text() + " is already active."@ && end->reactivate == run.wait->previous
    &&& chat is Some ==> after.active_thread_id == Some(id) && after.has_active_receiver
        && has_new_chat(App { active_thread_id: Some(id), ..before }, after, chat->0)
        && after.primary_thread_id == before.primary_thread_id && after.agent_navigation
        == before.agent_navigation && after.thread_event_channels == before.thread_event_channels
    &&& chat is Some ==> end is Displayed && (end->resume_restored_queue <==> !replay) && (
    end->notice is Some <==> replay)
    &&& chat is Some && replay && run.wait->attached_replay_only ==> end->notice->0@
        == "Agent thread "@ + id.text()
        + " could not be resumed live. Replaying saved transcript."@
    &&& chat is Some && replay && !run.wait->attached_replay_only ==> end->notice->0@
        == "Agent thread "@ + id.text() + " is closed. Replaying saved transcript."@
}

/// How a switch ends.
pub proof fn lemma_switch_ends(run: SelectRun, chat: Option<ChatWidget>, y: u16, top: Option<u16>)
    requires
        run.wait is Activate,
        chat is Some ==> chat->0.wf(),
        call_ensures(viewport_top, (y,), top),
    ensures
        forall|app: &mut App, turn: SelectTurn|
            app.wf() && #[trigger] call_ensures(App::selection_activated, (app, run, chat), turn)
                ==> ends_switch(*app, *final(app), run, chat, turn),
        top is Some <==> y > 0,
        top is Some ==> top->0 == 0,
{
}

/// A session that was started in the background is adopted where it is waited for, and
/// discarded where it comes too late; a failure is told only where it is waited for.
pub proof fn lemma_startup(result: Result<ThreadId, String>)
    ensures
        forall|app: &mut App, step: StartupStep| #[trigger]
            call_ensures(App::handle_startup_thread_started, (app, result), step) ==> (
            app.pending_startup_thread_start && result is Ok ==> step == StartupStep::Adopt(
                result->Ok_0,
            )) && (!app.pending_startup_thread_start && result is Ok ==> step
                == StartupStep::Discard(result->Ok_0)) && (!app.pending_startup_thread_start
                && result is Err ==> step is Ignore) && (app.pending_startup_thread_start && result
                is Err ==> step is Fail && step->Fail_0@
                == "Failed to start a fresh session through the app server: "@ + result->Err_0@)
                && !final(app).pending_startup_thread_start && final(app).agent_navigation
                == app.agent_navigation && final(app).active_thread_id == app.active_thread_id
                && final(app).primary_thread_id == app.primary_thread_id,
{
}

proof fn lemma_backfill_ids(loaded: Seq<Option<ThreadId>>, primary: ThreadId, id: ThreadId)
    ensures
        backfill_ids(loaded, primary).contains(id) <==> id != primary && exists|i: int|
            0 <= i < loaded.len() && #[trigger] loaded[i] == Some(id),
    decreases loaded.len(),
{
    let all = backfill_ids(loaded, primary);
    if loaded.len() > 0 {
        let rest = loaded.drop_last();
        let before = backfill_ids(rest, primary);
        lemma_backfill_ids(rest, primary, id);
        if all.contains(id) {
            let k = all.index_of(id);
            if k < before.len() {
                assert(before[k] == id);
                let i = choose|i: int| 0 <= i < rest.len() && #[trigger] rest[i] == Some(id);
                assert(loaded[i] == Some(id));
            } else {
                assert(loaded[loaded.len() - 1] == Some(id));
            }
        }
        if id != primary && exists|i: int|
            0 <= i < loaded.len() && #[trigger] loaded[i] == Some(id) {
            let i = choose|i: int| 0 <= i < loaded.len() && #[trigger] loaded[i] == Some(id);
            if i < rest.len() {
                assert(rest[i] == Some(id));
                let k = before.index_of(id);
                assert(all[k] == id);
            } else {
                assert(all[all.len() - 1] == id);
            }
        }
    }
}

/// The threads that are read in search of agents are the loaded ones but for the primary
/// one; without a primary thread, or without a list, there is no search. All threads whose
/// events are kept are unsubscribed from.
pub proof fn lemma_searched_threads(
    app: &App,
    loaded: Option<Vec<Option<ThreadId>>>,
    ids: Option<Vec<ThreadId>>,
    kept: Vec<ThreadId>,
    id: ThreadId,
)
    requires
        call_ensures(App::threads_to_backfill, (app, loaded), ids),
        call_ensures(App::threads_to_unsubscribe, (app,), kept),
    ensures
        ids is Some <==> app.primary_thread_id is Some && loaded is Some,
        ids is Some ==> (ids->0@.contains(id) <==> Some(id) != app.primary_thread_id && exists|i: int|
            0 <= i < loaded->0@.len() && #[trigger] loaded->0@[i] == Some(id)),
        kept@ == app.thread_event_channels.keys(),
{
    if ids is Some {
        lemma_backfill_ids(loaded->0@, app.primary_thread_id->0, id);
    }
}

/// Whether the agent at `i` is the last of `found` with its thread.
pub open spec fn is_last_found(found: Seq<LoadedSubagent>, i: int) -> bool {
    &&& 0 <= i < found.len()
    &&& forall|j: int| i < j < found.len() ==> (#[trigger] found[j]).thread_id
        != found[i].thread_id
}

/// Whether no agent of `found` has the thread `id`.
pub open spec fn is_not_found(found: Seq<LoadedSubagent>, id: ThreadId) -> bool {
    forall|j: int| 0 <= j < found.len() ==> (#[trigger] found[j]).thread_id != id
}

proof fn lemma_found_entry(found: Seq<LoadedSubagent>, i: int)
    requires
        is_last_found(found, i),
    ensures
        lookup(found_entries(found), found[i].thread_id) == Some(
            AgentPickerThreadEntry {
                agent_nickname: found[i].agent_nickname,
                agent_role: found[i].agent_role,
                is_closed: false,
            },
        ),
{
    let pairs = found_entries(found);
    assert(crate::wait_laws::last_of_its_key(pairs, i)) by {
        assert forall|j: int| i < j < pairs.len() implies (#[trigger] pairs[j]).0 != pairs[i].0 by {
            assert(found[j].thread_id != found[i].thread_id);
        }
    }
    crate::wait_laws::lemma_last_counts(pairs, i);
}

proof fn lemma_not_found_entry(found: Seq<LoadedSubagent>, id: ThreadId)
    requires
        is_not_found(found, id),
    ensures
        lookup(found_entries(found), id) is None,
{
    let pairs = found_entries(found);
    crate::id_map::lemma_lookup(pairs, id);
    if lookup(pairs, id) is Some {
        let k = crate::id_map::keys_of(pairs).index_of(id);
        assert(found[k].thread_id == id);
    }
}

/// Whether `after` is `before` once the agents `found` were learned of, seen from the agent
/// at `i` and from the thread `id`.
pub open spec fn has_learned(
    before: App,
    after: App,
    found: Seq<LoadedSubagent>,
    i: int,
    id: ThreadId,
) -> bool {
    &&& is_last_found(found, i) ==> is_known_as(
        after,
        found[i].thread_id,
        found[i].agent_nickname,
        found[i].agent_role,
        false,
    )
    &&& is_not_found(found, id) ==> after.agent_navigation.threads.value(id)
        == before.agent_navigation.threads.value(id)
        && after.chat_widget.collab_agent_metadata.value(id)
        == before.chat_widget.collab_agent_metadata.value(id)
    &&& goes_on(before, after)
    &&& before.agent_navigation.threads.keys().is_prefix_of(after.agent_navigation.threads.keys())
    &&& found.len() == 0 ==> after == before
    &&& found.len() > 0 ==> footer_tells(after)
}

/// The agents that were found are known from then on, open, by their nicknames and roles;
/// the other threads stay as they were; and the search was complete unless a thread could
/// not be read.
pub proof fn lemma_learning_of_found_agents(
    found: Vec<LoadedSubagent>,
    failed: bool,
    i: int,
    id: ThreadId,
)
    ensures
        forall|app: &mut App, complete: bool|
            app.wf() && #[trigger] call_ensures(
                App::backfill_loaded_subagent_threads,
                (app, found, failed),
                complete,
            ) ==> has_learned(*app, *final(app), found@, i, id) && (complete <==> !failed),
{
    if is_last_found(found@, i) {
        lemma_found_entry(found@, i);
    }
    if is_not_found(found@, id) {
        lemma_not_found_entry(found@, id);
    }
    assert forall|app: &mut App, complete: bool|
        app.wf() && #[trigger] call_ensures(
            App::backfill_loaded_subagent_threads,
            (app, found, failed),
            complete,
        ) implies has_learned(*app, *final(app), found@, i, id) && (complete <==> !failed) by {
        let after = *final(app);
        lemma_learned_keys(app.agent_navigation.threads.keys(), found@);
        if is_last_found(found@, i) {
            let x = found@[i].thread_id;
            assert(after.agent_navigation.threads.value(x) is Some);
            assert(after.chat_widget.collab_agent_metadata.value(x) is Some);
        }
        if is_not_found(found@, id) {
            assert(after.agent_navigation.threads.value(id)
                == app.agent_navigation.threads.value(id));
            assert(after.chat_widget.collab_agent_metadata.value(id)
                == app.chat_widget.collab_agent_metadata.value(id));
        }
    }
}

/// A step to the next agent takes the neighbour that is known; else the agents of the
/// primary thread are searched for, once: a complete search is remembered.
pub proof fn lemma_next_agent(
    app: &App,
    neighbour: Option<ThreadId>,
    step: AdjacentStep,
    primary: ThreadId,
    complete: bool,
)
    requires
        call_ensures(App::adjacent_thread_id_with_backfill, (app, neighbour), step),
    ensures
        neighbour is Some ==> step == AdjacentStep::Found(neighbour->0),
        neighbour is None ==> (step is Backfill <==> app.primary_thread_id is Some
            && app.last_subagent_backfill_attempt != app.primary_thread_id),
        neighbour is None && !(step is Backfill) ==> step is Nothing,
        step is Backfill ==> Some(step->Backfill_0) == app.primary_thread_id,
        forall|before: &mut App| #[trigger]
            call_ensures(App::note_backfill_attempt, (before, primary, complete), ()) ==> (complete
                ==> final(before).last_subagent_backfill_attempt == Some(primary)) && (!complete
                ==> *final(before) == *before) && final(before).agent_navigation
                == before.agent_navigation,
{
}

/// Whether `lines` tell of the session that was left: how much it used, and then how to go
/// on with it.
pub open spec fn tells_of_session(lines: Seq<SummaryLine>, summary: SessionSummary) -> bool {
    let used = summary.usage_line is Some;
    let hint = summary.resume_hint is Some;
    &&& !used && !hint ==> lines.len() == 0
    &&& used && !hint ==> lines.len() == 1
    &&& !used && hint ==> lines.len() == 1
    &&& used && hint ==> lines.len() == 2
    &&& used ==> lines[0].text == summary.usage_line->0 && lines[0].command is None
    &&& hint ==> lines.last().text@ == "To continue this session, run "@ && lines.last().command
        == summary.resume_hint
}

/// The lines about a session that was left.
pub proof fn lemma_summary_of_session(
    summary: SessionSummary,
    lines: Vec<SummaryLine>,
    config: &SessionConfig,
    tier: Option<String>,
    fresh: SessionConfig,
)
    requires
        call_ensures(summary_lines, (summary,), lines),
        call_ensures(fresh_session_config, (config, tier), fresh),
    ensures
        tells_of_session(lines@, summary),
        fresh.service_tier == tier,
        fresh.cwd == config.cwd,
        fresh.model == config.model,
{
}

/// A fresh session tells of the one that was left only where it took its place; where it
/// did not start, the model stays that of the old one.
pub proof fn lemma_fresh_session(
    outcome: FreshOutcome,
    summary: Option<SessionSummary>,
    config: SessionConfig,
    model: String,
    report: FreshReport,
)
    requires
        call_ensures(
            start_fresh_session_with_summary_hint,
            (outcome, summary, config, model),
            report,
        ),
    ensures
        report.error is None <==> outcome is Attached,
        outcome is Attached && summary is Some ==> tells_of_session(report.lines@, summary->0),
        !(outcome is Attached) || summary is None ==> report.lines@.len() == 0,
        outcome is AttachFailed ==> report.error->0@
            == "Failed to attach to fresh app-server thread: "@ + outcome->AttachFailed_0@,
        outcome is StartFailed ==> report.error->0@
            == "Failed to start a fresh session through the app server: "@
            + outcome->StartFailed_0@,
        outcome is StartFailed ==> report.config.model == Some(model),
        !(outcome is StartFailed) ==> report.config.model == config.model,
        report.config.cwd == config.cwd,
        report.config.service_tier == config.service_tier,
{
}

/// How resuming a session goes on: the running one is only drawn again; the user is asked
/// for a directory unless the workspace is remote; the configuration is built for the
/// directory that was chosen, or else for the current one.
pub proof fn lemma_resuming_a_session(
    target: SessionTarget,
    same: bool,
    remote: bool,
    cwd: String,
    turn: ResumeSessionTurn,
    run: ResumeSessionRun,
    outcome: ResolveCwdOutcome,
    then: ResumeSessionTurn,
)
    requires
        call_ensures(resume_target_session, (target, same, remote, cwd), turn),
        run.wait is Cwd,
        call_ensures(ResumeSessionRun::cwd_resolved, (run, outcome), then),
    ensures
        same ==> turn is End && turn->End_0 is Redraw,
        !same ==> turn is Wait && turn->Wait_0.target == target && turn->Wait_0.current_cwd == cwd,
        !same && remote ==> turn->Wait_0.wait is Config && turn->Wait_0.wait->resume_cwd == cwd,
        !same && !remote ==> turn->Wait_0.wait is Cwd,
        outcome is Exit ==> then is End && then->End_0 is Exit,
        outcome is Continue ==> then is Wait && then->Wait_0.target == run.target
            && then->Wait_0.current_cwd == run.current_cwd && then->Wait_0.wait is Config,
        outcome is Continue && outcome->Continue_0 is Some ==> then->Wait_0.wait->resume_cwd
            == outcome->Continue_0->0,
        outcome is Continue && outcome->Continue_0 is None ==> then->Wait_0.wait->resume_cwd
            == run.current_cwd,
{
}

/// How resuming a session ends: the thread that the user chose is resumed with the
/// configuration that was built, and then takes the place of the session; each failure is
/// told.
pub proof fn lemma_resumed_session(
    run: ResumeSessionRun,
    rebuilt: Result<SessionConfig, String>,
    turn: ResumeSessionTurn,
    asking: &ResumeSessionRun,
    asked: ThreadResume,
    resumed: Result<ThreadId, String>,
    then: ResumeSessionTurn,
    attaching: ResumeSessionRun,
    attached: Result<(), String>,
    summary: Option<SessionSummary>,
    end: ResumeSessionTurn,
)
    requires
        run.wait is Config,
        call_ensures(ResumeSessionRun::config_rebuilt, (run, rebuilt), turn),
        asking.wait is Thread,
        call_ensures(ResumeSessionRun::thread_resume, (asking,), asked),
        call_ensures(ResumeSessionRun::thread_resumed, (*asking, resumed), then),
        attaching.wait is Attach,
        call_ensures(ResumeSessionRun::attached, (attaching, attached, summary), end),
    ensures
        rebuilt is Err ==> turn is End && turn->End_0 is Error && turn->End_0->Error_0@
            == "Failed to rebuild configuration for resume: "@ + rebuilt->Err_0@,
        rebuilt is Ok ==> turn is Wait && turn->Wait_0.target == run.target && turn->Wait_0.wait
            is Thread && turn->Wait_0.wait->Thread_config == rebuilt->Ok_0,
        asked.thread_id == asking.target.thread_id,
        asked.config == ConfigSource::Session,
        resumed is Err ==> then is End && then->End_0 is Error && then->End_0->Error_0@
            == "Failed to resume session from "@ + asking.target.label@ + ": "@ + resumed->Err_0@,
        resumed is Ok ==> then is Wait && then->Wait_0.wait is Attach
            && then->Wait_0.wait->Attach_thread_id == resumed->Ok_0
            && then->Wait_0.wait->Attach_config == asking.wait->Thread_config,
        attached is Err ==> end is End && end->End_0 is Error && end->End_0->Error_0@
            == "Failed to attach to resumed app-server thread: "@ + attached->Err_0@,
        attached is Ok ==> end is End && end->End_0 is Resumed && end->End_0->thread_id
            == attaching.wait->Attach_thread_id,
        attached is Ok && summary is Some ==> tells_of_session(end->End_0->lines@, summary->0),
        attached is Ok && summary is None ==> end->End_0->lines@.len() == 0,
{
}

proof fn lemma_learned_keys(known: Seq<ThreadId>, found: Seq<LoadedSubagent>)
    ensures
        known.is_prefix_of(learned_keys(known, found)),
    decreases found.len(),
{
    if found.len() > 0 {
        let rest = found.drop_last();
        lemma_learned_keys(known, rest);
        let before = learned_keys(known, rest);
        let all = learned_keys(known, found);
        assert(all.subrange(0, known.len() as int) =~= before.subrange(0, known.len() as int));
    } else {
        assert(known.subrange(0, known.len() as int) =~= known);
    }
}

/// The picker begins with no thread, learns of one and closes one that it knows; where it
/// says that there is one but the primary thread, there is.
pub proof fn lemma_what_the_picker_knows(
    fresh: AgentNavigationState,
    known: &AgentNavigationState,
    primary: Option<ThreadId>,
    has: bool,
    empty: bool,
    id: ThreadId,
    other: ThreadId,
    nickname: Option<String>,
    role: Option<String>,
    closed: bool,
)
    requires
        call_ensures(AgentNavigationState::new, (), fresh),
        call_ensures(AgentNavigationState::has_non_primary_thread, (known, primary), has),
        call_ensures(AgentNavigationState::is_empty, (known,), empty),
    ensures
        fresh.threads.entries@.len() == 0,
        has ==> exists|i: int|
            0 <= i < known.threads.entries@.len() && Some((#[trigger] known.threads.entries@[i]).0)
                != primary,
        empty <==> known.threads.entries@.len() == 0,
        forall|state: &mut AgentNavigationState|
            state.wf() && #[trigger] call_ensures(
                AgentNavigationState::upsert,
                (state, id, nickname, role, closed),
                (),
            ) ==> final(state).threads.value(id) is Some && final(state).threads.value(
                id,
            )->0.agent_nickname == nickname && final(state).threads.value(id)->0.agent_role == role
                && final(state).threads.value(id)->0.is_closed == closed && (other != id
                ==> final(state).threads.value(other) == state.threads.value(other)),
        forall|state: &mut AgentNavigationState|
            state.wf() && #[trigger] call_ensures(
                AgentNavigationState::mark_closed,
                (state, id),
                (),
            ) ==> (state.threads.value(id) is Some ==> final(state).threads.value(id) is Some
                && final(state).threads.value(id)->0.is_closed) && (other != id ==> final(state).threads.value(other) == state.threads.value(other)),
        forall|app: &mut App|
            app.maps_wf() && #[trigger] call_ensures(App::sync_active_agent_label, (app,), ())
                ==> footer_tells(*final(app)) && final(app).agent_navigation
                == app.agent_navigation && final(app).active_thread_id == app.active_thread_id,
{
    let keys = known.threads.keys();
    let entries = known.threads.entries@;
    assert(fresh.threads.keys().len() == fresh.threads.entries@.len());
    if has {
        let i = choose|i: int| 0 <= i < keys.len() && Some(#[trigger] keys[i]) != primary;
        assert(keys[i] == entries[i].0);
        assert(Some(known.threads.entries@[i].0) != primary);
    }
}

} // verus!
