//! What the `/agent` commands show and lead to, whatever threads there are.

use vstd::prelude::*;

use crate::app_state::{AgentPickerThreadEntry, App};
use crate::cells::{all_printable, plain_fitted, plain_shortened};
use crate::new_agent::{
    agent_new_context_label, agent_roles_from_startup_config, first_dashes, parse_agent_new_prompt,
    show_agent_new_params_prompt, spawn_agent_from_prompt, spawn_notice,
    AgentRoleConfig, AgentRoleSummary, NewAgentPicker, Notice, PromptView, SpawnStep,
};
use crate::id_map::IdMap;
use crate::order::{lemma_ordered, lemma_ordered_contains, ordered, Ranked};
use crate::picker::{
    ids_below, make_picker_row, open_agent_resume_picker, open_agent_resume_scope_picker,
    path_among, picker_row, printable_info,
    path_of_thread, resume_all_recoverable_agent_threads, resume_with_descendants,
    resumed_message, successes, thread_to_select, AgentPicker, AppEvent, PickerInfo, PickerThread, ResumePicker, SelectionItem, SelectionView,
};
use crate::recoverable::{
    ancestor, loaded_thread_ids, parent_in, parents_of, thread_is_descendant_of_primary,
    SortDirection, ThreadListParams, ThreadPages, ThreadPagesStep, ThreadSortKey, ThreadSourceKind,
};
use crate::status_ipc_laws::is_blank;
use crate::table_laws::{is_plain, shows_at};
use crate::text::{
    contains_text, decimal, is_space, joined, lex_less, occurs_at, opt_lex_less, squeeze, trim,
};
use crate::text_laws::{lemma_last_segment, lemma_trim};
use crate::thread::{spawn_path, Thread, ThreadId};

verus! {

proof fn lemma_row(cells: Seq<Seq<char>>, c: int)
    requires
        cells.len() == 7,
        cells[0].len() == 8,
        cells[1].len() == 16,
        cells[2].len() == 24,
        cells[3].len() == 8,
        cells[4].len() == 12,
        cells[5].len() == 14,
    ensures
        ({
            let row = joined(cells, "  "@);
            &&& row.len() == 94 + cells[6].len()
            &&& row.subrange(0, 8) == cells[0]
            &&& row.subrange(10, 26) == cells[1]
            &&& row.subrange(28, 52) == cells[2]
            &&& row.subrange(54, 62) == cells[3]
            &&& row.subrange(64, 76) == cells[4]
            &&& row.subrange(78, 92) == cells[5]
            &&& row.subrange(94, row.len() as int) == cells[6]
        }),
{
    reveal_strlit("  ");
    reveal_with_fuel(joined, 8);
    let sep = "  "@;
    assert(cells.drop_last().drop_last().drop_last().drop_last().drop_last().drop_last().len()
        == 1);
    let whole = cells[0] + sep + cells[1] + sep + cells[2] + sep + cells[3] + sep + cells[4] + sep
        + cells[5] + sep + cells[6];
    let row = joined(cells, sep);
    assert(row =~= whole);
    assert(row.subrange(0, 8) =~= cells[0]);
    assert(row.subrange(10, 26) =~= cells[1]);
    assert(row.subrange(28, 52) =~= cells[2]);
    assert(row.subrange(54, 62) =~= cells[3]);
    assert(row.subrange(64, 76) =~= cells[4]);
    assert(row.subrange(78, 92) =~= cells[5]);
    assert(row.subrange(94, row.len() as int) =~= cells[6]);
}

/// What a row says of an optional text: the text, or `fallback` where it is absent or
/// blank.
pub open spec fn text_or_else(text: Option<String>, fallback: Seq<char>, shown: Seq<char>) -> bool {
    &&& text is Some && !is_blank(text->0@) ==> shown == text->0@
    &&& text is None || is_blank(text->0@) ==> shown == fallback
}

proof fn lemma_or_else(text: Option<String>, fallback: Seq<char>)
    ensures
        text_or_else(text, fallback, crate::picker::or_else(text.deep_view(), fallback)),
{
    if text is Some {
        crate::status_ipc_laws::lemma_trim_is_blank(text->0@);
    }
}

proof fn lemma_plain_info(thread: PickerThread)
    requires
        is_plain(thread.id_text@),
        thread.agent_path is Some ==> is_plain(thread.agent_path->0@),
        thread.agent_role is Some ==> is_plain(thread.agent_role->0@),
        thread.agent_nickname is Some ==> is_plain(thread.agent_nickname->0@),
        is_plain(thread.summary@),
    ensures
        printable_info(thread.deep_view()),
{
    let info = thread.deep_view();
    reveal_strlit("/root/?");
    reveal_strlit("agent");
    reveal_strlit("default");
    reveal_strlit("Agent");
    let path = crate::picker::shown_path(info);
    assert(all_printable(path)) by {
        if thread.agent_path is Some {
            crate::table_laws::lemma_is_plain(thread.agent_path->0@);
        }
    }
    lemma_segment_printable(path);
    crate::table_laws::lemma_is_plain(thread.id_text@);
    let id = crate::picker::short_id(info.id_text);
    assert(all_printable(id)) by {
        assert forall|i: int| 0 <= i < id.len() implies crate::cells::printable(
            #[trigger] id[i],
        ) by {
            assert(crate::cells::printable(info.id_text[i]));
        }
    }
    if thread.agent_role is Some {
        crate::table_laws::lemma_is_plain(thread.agent_role->0@);
    }
    if thread.agent_nickname is Some {
        crate::table_laws::lemma_is_plain(thread.agent_nickname->0@);
    }
    crate::table_laws::lemma_is_plain(thread.summary@);
    crate::table_laws::lemma_squeeze_plain(thread.summary@);
}

proof fn lemma_segment_printable(path: Seq<char>)
    requires
        all_printable(path),
    ensures
        all_printable(crate::text::last_segment(path)),
    decreases path.len(),
{
    if path.len() > 0 && path.last() != '/' {
        let rest = path.drop_last();
        assert(all_printable(rest)) by {
            assert forall|i: int| 0 <= i < rest.len() implies crate::cells::printable(
                #[trigger] rest[i],
            ) by {
                assert(crate::cells::printable(path[i]));
            }
        }
        lemma_segment_printable(rest);
        assert(crate::cells::printable(path[path.len() - 1]));
        let all = crate::text::last_segment(path);
        let before = crate::text::last_segment(rest);
        assert forall|i: int| 0 <= i < all.len() implies crate::cells::printable(
            #[trigger] all[i],
        ) by {
            if i < before.len() {
                assert(crate::cells::printable(before[i]));
            }
        }
    }
}

/// A row shows in its columns whether the thread is closed, its task, its path, the
/// beginning of its id, its role as the type, and its nickname, and behind them the words
/// of its summary.
pub proof fn lemma_picker_row_shows_thread(thread: &PickerThread, row: String)
    requires
        is_plain(thread.id_text@),
        thread.agent_path is Some ==> is_plain(thread.agent_path->0@),
        thread.agent_role is Some ==> is_plain(thread.agent_role->0@),
        thread.agent_nickname is Some ==> is_plain(thread.agent_nickname->0@),
        is_plain(thread.summary@),
        call_ensures(make_picker_row, (thread,), row),
    ensures
        ({
            let line = row@;
            let path = if thread.agent_path is Some {
                thread.agent_path->0@
            } else {
                "/root/?"@
            };
            &&& thread.is_closed ==> shows_at(line, 0, 8, "closed"@)
            &&& !thread.is_closed ==> shows_at(line, 0, 8, "open"@)
            &&& shows_at(line, 28, 24, path)
            &&& forall|above: Seq<char>, name: Seq<char>|
                path == #[trigger] (above.push('/') + name) && name.len() > 0 && (forall|i: int|
                    0 <= i < name.len() ==> #[trigger] name[i] != '/') ==> shows_at(
                    line,
                    10,
                    16,
                    name,
                )
            &&& thread.id_text@.len() >= 8 ==> line.subrange(54, 62) == thread.id_text@.subrange(
                0,
                8,
            )
            &&& exists|shown: Seq<char>|
                text_or_else(thread.agent_role, "default"@, shown) && #[trigger] shows_at(
                    line,
                    64,
                    12,
                    shown,
                )
            &&& exists|shown: Seq<char>|
                text_or_else(thread.agent_nickname, "Agent"@, shown) && #[trigger] shows_at(
                    line,
                    78,
                    14,
                    shown,
                )
            &&& squeeze(thread.summary@).len() <= 32 ==> line.subrange(94, line.len() as int)
                == squeeze(thread.summary@)
        }),
{
    let info = thread.deep_view();
    lemma_plain_info(*thread);
    let line = row@;
    let path = crate::picker::shown_path(info);
    let status = if info.is_closed {
        "closed"@
    } else {
        "open"@
    };
    let task = crate::picker::shown_task(path);
    let id = crate::picker::short_id(info.id_text);
    let role = crate::picker::or_else(info.agent_role, "default"@);
    let nickname = crate::picker::or_else(info.agent_nickname, "Agent"@);
    let cells = seq![
        plain_fitted(status, 8),
        plain_fitted(task, 16),
        plain_fitted(path, 24),
        plain_fitted(id, 8),
        plain_fitted(role, 12),
        plain_fitted(nickname, 14),
        plain_shortened(squeeze(info.summary), 32),
    ];
    assert(line == joined(cells, "  "@));
    crate::table_laws::lemma_plain_fitted(status, 8);
    crate::table_laws::lemma_plain_fitted(task, 16);
    crate::table_laws::lemma_plain_fitted(path, 24);
    crate::table_laws::lemma_plain_fitted(id, 8);
    crate::table_laws::lemma_plain_fitted(role, 12);
    crate::table_laws::lemma_plain_fitted(nickname, 14);
    lemma_row(cells, 0);
    crate::table_laws::lemma_cell_in_line(cells[0], line, 0, 8, status);
    crate::table_laws::lemma_cell_in_line(cells[1], line, 10, 16, task);
    crate::table_laws::lemma_cell_in_line(cells[2], line, 28, 24, path);
    crate::table_laws::lemma_cell_in_line(cells[4], line, 64, 12, role);
    crate::table_laws::lemma_cell_in_line(cells[5], line, 78, 14, nickname);
    assert forall|above: Seq<char>, name: Seq<char>|
        path == #[trigger] (above.push('/') + name) && name.len() > 0 && (forall|i: int|
            0 <= i < name.len() ==> #[trigger] name[i] != '/') implies shows_at(
        line,
        10,
        16,
        name,
    ) by {
        lemma_last_segment(above, name);
    }
    if thread.id_text@.len() >= 8 {
        assert(id =~= thread.id_text@.subrange(0, 8));
        assert(cells[3] =~= id);
    }
    lemma_or_else(thread.agent_role, "default"@);
    lemma_or_else(thread.agent_nickname, "Agent"@);
    assert(text_or_else(thread.agent_role, "default"@, role) && shows_at(line, 64, 12, role));
    assert(text_or_else(thread.agent_nickname, "Agent"@, nickname) && shows_at(
        line,
        78,
        14,
        nickname,
    ));
}

/// The contents of a thread as a picker shows it, and of a role, are its fields.
pub proof fn lemma_picker_contents_are_fields(thread: PickerThread, role: AgentRoleSummary)
    ensures
        thread.deep_view().thread_id == thread.thread_id,
        thread.deep_view().id_text == thread.id_text@,
        thread.deep_view().agent_path == thread.agent_path.deep_view(),
        thread.deep_view().agent_nickname == thread.agent_nickname.deep_view(),
        thread.deep_view().agent_role == thread.agent_role.deep_view(),
        thread.deep_view().is_closed == thread.is_closed,
        thread.deep_view().summary == thread.summary@,
        role.deep_view().agent_type == role.agent_type@,
        role.deep_view().description == role.description.deep_view(),
        role.deep_view().nickname_candidates is Some <==> role.nickname_candidates is Some,
        role.nickname_candidates is Some ==> role.deep_view().nickname_candidates->0
            == role.nickname_candidates->0.deep_view(),
{
}

/// Whether `info` is the thread of a picker entry, with what reading it told of it.
pub open spec fn is_info_of(
    info: PickerInfo,
    app: App,
    id: ThreadId,
    entry: AgentPickerThreadEntry,
) -> bool {
    let details = app.thread_details.value(id);
    &&& info.thread_id == id
    &&& info.id_text == id.text()
    &&& info.agent_nickname == entry.agent_nickname.deep_view()
    &&& info.agent_role == entry.agent_role.deep_view()
    &&& info.is_closed == entry.is_closed
    &&& details is None ==> info.agent_path is None && info.summary.len() == 0
    &&& details is Some ==> info.agent_path == details->0.agent_path.deep_view()
    &&& details is Some && details->0.summary is Some ==> info.summary == details->0.summary->0@
    &&& details is Some && details->0.summary is None ==> info.summary.len() == 0
}

/// Whether choosing `item` displays the thread of an entry, which it shows as it is known.
pub open spec fn offers_thread(
    item: SelectionItem,
    app: App,
    id: ThreadId,
    entry: AgentPickerThreadEntry,
) -> bool {
    &&& item.event == AppEvent::SelectAgentThread(id)
    &&& item.is_closed == Some(entry.is_closed)
    &&& item.is_current <==> app.active_thread_id == Some(id)
    &&& item.description is Some && item.description->0@ == id.text()
    &&& exists|info: PickerInfo| #[trigger]
        is_info_of(info, app, id, entry) && item.name@ == picker_row(info) && item.search_value
            is Some && item.search_value->0@ == picker_row(info) + " "@ + id.text()
}

/// Whether one of `items` offers the thread of an entry.
pub open spec fn is_offered(
    items: Seq<SelectionItem>,
    app: App,
    id: ThreadId,
    entry: AgentPickerThreadEntry,
) -> bool {
    exists|k: int| 0 <= k < items.len() && offers_thread(#[trigger] items[k], app, id, entry)
}

/// Whether `item` offers the thread of one of the entries.
pub open spec fn offers_an_entry(item: SelectionItem, app: App) -> bool {
    exists|e: int|
        0 <= e < app.agent_navigation.threads.entries@.len() && offers_thread(
            item,
            app,
            (#[trigger] app.agent_navigation.threads.entries@[e]).0,
            app.agent_navigation.threads.entries@[e].1,
        )
}

/// The picker offers each thread that it knows once, and nothing else, by path and id; the
/// displayed one is the current one and chosen first. Without a thread but the primary one
/// it offers to switch agents on, where they are off, and says that there are none where
/// it knows none.
pub proof fn lemma_picker_offers_known_threads(
    app: &App,
    enabled: bool,
    subtitle: String,
    picker: AgentPicker,
    e: int,
    i: int,
)
    requires
        app.maps_wf(),
        call_ensures(App::open_agent_picker, (app, enabled, subtitle), picker),
    ensures
        ({
            let entries = app.agent_navigation.threads.entries@;
            let other = exists|k: int|
                0 <= k < entries.len() && Some((#[trigger] entries[k]).0) != app.primary_thread_id;
            let view = picker->Show_0;
            &&& picker is EnablePrompt <==> !enabled && !other
            &&& picker is Info <==> enabled && entries.len() == 0
            &&& picker is Info ==> picker->Info_0@ == "No agents available yet."@
            &&& picker is Show ==> view.items@.len() == entries.len() && view.title@
                == "Subagents"@ && view.subtitle == subtitle && !view.is_searchable
            &&& picker is Show && 0 <= e < entries.len() ==> is_offered(
                view.items@,
                *app,
                entries[e].0,
                entries[e].1,
            )
            &&& picker is Show && 0 <= i < view.items@.len() ==> offers_an_entry(
                view.items@[i],
                *app,
            )
            &&& picker is Show && view.initial_selected_idx is Some
                ==> view.initial_selected_idx->0 < view.items@.len()
                && view.items@[view.initial_selected_idx->0 as int].is_current
            &&& picker is Show && view.initial_selected_idx is None && 0 <= i < view.items@.len()
                ==> !view.items@[i].is_current
        }),
{
    let entries = app.agent_navigation.threads.entries@;
    let keys = app.agent_navigation.threads.keys();
    assert(keys.len() == entries.len());
    assert forall|k: int| 0 <= k < keys.len() implies keys[k] == (#[trigger] entries[k]).0 by {}
    let only_primary = forall|k: int|
        0 <= k < keys.len() ==> Some(#[trigger] keys[k]) == app.primary_thread_id;
    let other = exists|k: int|
        0 <= k < entries.len() && Some((#[trigger] entries[k]).0) != app.primary_thread_id;
    assert(only_primary <==> !other) by {
        if !other {
            assert forall|k: int| 0 <= k < keys.len() implies Some(#[trigger] keys[k])
                == app.primary_thread_id by {
                assert(Some(entries[k].0) == app.primary_thread_id);
            }
        }
        if only_primary && other {
            let k = choose|k: int|
                0 <= k < entries.len() && Some((#[trigger] entries[k]).0) != app.primary_thread_id;
            assert(Some(keys[k]) == app.primary_thread_id);
        }
    }
    if picker is Show {
        let infos = app.picker_infos();
        let items = picker->Show_0.items@;
        crate::picker::lemma_picker_infos(*app, arbitrary());
        if 0 <= e < entries.len() {
            let info = app.picker_info(e);
            crate::picker::lemma_picker_infos(*app, info);
            let k = infos.index_of(info);
            assert(app.item_shows(items[k], infos[k]));
            assert(is_info_of(info, *app, entries[e].0, entries[e].1));
            assert(offers_thread(items[k], *app, entries[e].0, entries[e].1));
        }
        if 0 <= i < items.len() {
            assert(app.item_shows(items[i], infos[i]));
            crate::picker::lemma_picker_infos(*app, infos[i]);
            assert(infos.contains(infos[i]));
            let k = choose|k: int| 0 <= k < keys.len() && infos[i] == #[trigger] app.picker_info(k);
            assert(is_info_of(infos[i], *app, entries[k].0, entries[k].1));
            assert(offers_thread(items[i], *app, entries[k].0, entries[k].1));
        }
        if let Some(idx) = picker->Show_0.initial_selected_idx {
            assert(app.item_shows(items[idx as int], infos[idx as int]));
        }
    }
}

/// The picker offers its threads by path and, where that is the same, by id.
pub proof fn lemma_picker_is_sorted(app: App, i: int, j: int)
    requires
        0 <= i < j < app.picker_infos().len(),
    ensures
        !opt_lex_less(app.picker_infos()[j].agent_path, app.picker_infos()[i].agent_path),
        app.picker_infos()[i].agent_path == app.picker_infos()[j].agent_path ==> !lex_less(
            app.picker_infos()[j].id_text,
            app.picker_infos()[i].id_text,
        ),
{
    let infos = app.picker_infos();
    crate::picker::lemma_picker_infos(app, infos[i]);
    assert(!(<PickerThread as Ranked>::ranks_before(infos[j], infos[i])));
}

/// The threads that are looked at are those that the picker knows or whose events are
/// kept, but no side thread.
pub proof fn lemma_threads_looked_at(app: &App, ids: Vec<ThreadId>, id: ThreadId)
    requires
        call_ensures(App::picker_thread_ids, (app,), ids),
    ensures
        ids@.contains(id) <==> (app.agent_navigation.threads.keys().contains(id)
            || app.thread_event_channels.keys().contains(id)) && !app.side_threads.keys().contains(
            id,
        ),
{
    broadcast use vstd::seq_lib::group_filter_ensures;

    let known = app.agent_navigation.threads.keys();
    let channels = app.thread_event_channels.keys();
    let fresh = |id: ThreadId| !known.contains(id);
    let aside = |id: ThreadId| !app.side_threads.keys().contains(id);
    let more = channels.filter(fresh);
    let all = crate::picker::joined_ids(known, channels);
    assert(all == known + more);
    if ids@.contains(id) {
        let i = ids@.index_of(id);
        assert(aside(ids@[i]));
        all.lemma_filter_contains_rev(aside, id);
        let k = all.index_of(id);
        if k < known.len() {
            assert(known[k] == id);
        } else {
            assert(more[k - known.len()] == id);
            assert(more.contains(id));
            channels.lemma_filter_contains_rev(fresh, id);
        }
    }
    if (known.contains(id) || channels.contains(id)) && aside(id) {
        assert(all.contains(id)) by {
            if known.contains(id) {
                let k = known.index_of(id);
                assert(all[k] == id);
            } else {
                let k = channels.index_of(id);
                assert(fresh(channels[k]));
                assert(more.contains(channels[k]));
                let m = more.index_of(id);
                assert(all[known.len() + m] == id);
            }
        }
        let k = all.index_of(id);
        assert(aside(all[k]));
        assert(all.filter(aside).contains(all[k]));
    }
}

/// Whether choosing `item` asks how much to bring back of a thread that can be brought
/// back, which it shows closed and describes by its task, path, id and summary.
pub open spec fn offers_history(item: SelectionItem, thread: Thread) -> bool {
    &&& item.event == AppEvent::ChooseAgentResumeScope(thread.thread_id->0)
    &&& item.is_closed == Some(true)
    &&& !item.is_current
    &&& exists|info: PickerInfo| #[trigger]
        is_history_of(info, thread) && item.name@ == picker_row(info) && describes(item, info)
    &&& exists|nickname: Seq<char>, role: Seq<char>|
        text_or_else(thread.agent_nickname, "Agent"@, nickname) && text_or_else(
            thread.agent_role,
            "default"@,
            role,
        ) && #[trigger] (nickname + " "@ + role + " "@).is_prefix_of(item.search_value->0@)
}

/// Whether `item` is described and found by the task, path, id and summary of a thread.
pub open spec fn describes(item: SelectionItem, info: PickerInfo) -> bool {
    let path = if info.agent_path is Some {
        info.agent_path->0
    } else {
        "/root/?"@
    };
    &&& item.description is Some && item.search_value is Some
    &&& forall|above: Seq<char>, name: Seq<char>|
        path == #[trigger] (above.push('/') + name) && name.len() > 0 && (forall|i: int|
            0 <= i < name.len() ==> #[trigger] name[i] != '/') && info.id_text.len() >= 8
            ==> item.description->0@ == "task="@ + name + " path="@ + path + (" thread="@
            + info.id_text.subrange(0, 8) + " summary="@ + info.summary)
    &&& contains_text(item.search_value->0@, info.id_text)
    &&& contains_text(item.search_value->0@, path)
    &&& contains_text(item.search_value->0@, info.summary)
}

/// Whether `info` is a thread that can be brought back: it is closed, and its summary is
/// its name, or else how it began.
pub open spec fn is_history_of(info: PickerInfo, thread: Thread) -> bool {
    &&& info.thread_id == thread.thread_id->0
    &&& info.id_text == thread.id@
    &&& info.is_closed
    &&& info.agent_nickname == thread.agent_nickname.deep_view()
    &&& info.agent_role == thread.agent_role.deep_view()
    &&& thread.source is ThreadSpawn ==> info.agent_path == thread.source->agent_path.deep_view()
    &&& !(thread.source is ThreadSpawn) ==> info.agent_path is None
    &&& text_or_else(thread.name, thread.preview@, info.summary)
}

proof fn lemma_join_six_contains(cells: Seq<Seq<char>>, c: int)
    requires
        cells.len() == 6,
        3 <= c < 6,
    ensures
        contains_text(joined(cells, " "@), cells[c]),
{
    reveal_with_fuel(joined, 7);
    let sep = " "@;
    assert(cells.drop_last().drop_last().drop_last().drop_last().drop_last().len() == 1);
    let three = cells[0] + sep + cells[1] + sep + cells[2] + sep;
    let text = joined(cells, sep);
    assert(text =~= three + cells[3] + sep + cells[4] + sep + cells[5]);
    let at: int = if c == 3 {
        three.len() as int
    } else if c == 4 {
        (three + cells[3] + sep).len() as int
    } else {
        (three + cells[3] + sep + cells[4] + sep).len() as int
    };
    assert(text.subrange(at, at + cells[c].len()) =~= cells[c]);
    assert(occurs_at(text, cells[c], at));
}

proof fn lemma_join_six_begins(cells: Seq<Seq<char>>)
    requires
        cells.len() == 6,
    ensures
        (cells[0] + " "@ + cells[1] + " "@).is_prefix_of(joined(cells, " "@)),
{
    reveal_with_fuel(joined, 7);
    let sep = " "@;
    assert(cells.drop_last().drop_last().drop_last().drop_last().drop_last().len() == 1);
    let head = cells[0] + sep + cells[1] + sep;
    let text = joined(cells, sep);
    assert(text =~= head + cells[2] + sep + cells[3] + sep + cells[4] + sep + cells[5]);
    assert(text.subrange(0, head.len() as int) =~= head);
}

proof fn lemma_describes(item: SelectionItem, info: PickerInfo)
    requires
        crate::picker::history_item_shows(item, info),
    ensures
        describes(item, info),
{
    let path = crate::picker::shown_path(info);
    assert forall|above: Seq<char>, name: Seq<char>|
        path == #[trigger] (above.push('/') + name) && name.len() > 0 && (forall|i: int|
            0 <= i < name.len() ==> #[trigger] name[i] != '/') && info.id_text.len()
            >= 8 implies item.description->0@ == "task="@ + name + " path="@ + path + (" thread="@
        + info.id_text.subrange(0, 8) + " summary="@ + info.summary) by {
        lemma_last_segment(above, name);
        assert(crate::picker::short_id(info.id_text) =~= info.id_text.subrange(0, 8));
    }
    let cells = seq![
        crate::picker::or_else(info.agent_nickname, "Agent"@),
        crate::picker::or_else(info.agent_role, "default"@),
        crate::picker::shown_task(path),
        path,
        info.id_text,
        info.summary,
    ];
    lemma_join_six_contains(cells, 3);
    lemma_join_six_contains(cells, 4);
    lemma_join_six_contains(cells, 5);
}

/// The first picker of `/agent resume` offers all of the threads first, and then each of
/// them, in order; without any, or where they could not be listed, it says so.
pub proof fn lemma_resume_picker_offers_history(
    threads: Result<Vec<Thread>, String>,
    picker: ResumePicker,
    i: int,
)
    requires
        threads is Ok ==> forall|k: int|
            0 <= k < threads->Ok_0@.len() ==> (#[trigger] threads->Ok_0@[k]).thread_id is Some,
        call_ensures(open_agent_resume_picker, (threads,), picker),
    ensures
        threads is Err ==> picker is Error && picker->Error_0@
            == "Failed to list recoverable agents: "@ + threads->Err_0@,
        threads is Ok && threads->Ok_0@.len() == 0 ==> picker is Info && picker->message@
            == "No recoverable agents found."@ && picker->hint@
            == "Use /agent to switch among agents already loaded in this session."@,
        threads is Ok && threads->Ok_0@.len() > 0 ==> ({
            let view = picker->Show_0;
            let all = threads->Ok_0@;
            &&& picker is Show
            &&& view.is_searchable
            &&& view.initial_selected_idx is None
            &&& view.title@ == "Subagents"@
            &&& view.subtitle@ == "Recoverable historical agents not loaded in this session."@
            &&& view.items@[0].search_value is Some && view.items@[0].search_value->0@
                == "resume all recoverable agents"@
            &&& view.items@[0].is_closed is None && !view.items@[0].is_current
            &&& view.items@.len() == all.len() + 1
            &&& view.items@[0].event == AppEvent::ResumeAllRecoverableAgents
            &&& view.items@[0].name@ == "Resume all shown agents"@
            &&& view.items@[0].description is Some && view.items@[0].description->0@ == decimal(
                all.len(),
            ) + " recoverable agents"@
            &&& 0 <= i < all.len() ==> offers_history(view.items@[i + 1], all[i])
        }),
{
    if threads is Ok && threads->Ok_0@.len() > 0 && 0 <= i < threads->Ok_0@.len() {
        let thread = threads->Ok_0@[i];
        let info = crate::picker::history_info(thread);
        let item = picker->Show_0.items@[i + 1];
        assert(crate::picker::history_item_shows(item, info));
        lemma_describes(item, info);
        lemma_or_else(thread.name, thread.preview@);
        assert(is_history_of(info, thread));
        let nickname = crate::picker::or_else(info.agent_nickname, "Agent"@);
        let role = crate::picker::or_else(info.agent_role, "default"@);
        lemma_or_else(thread.agent_nickname, "Agent"@);
        lemma_or_else(thread.agent_role, "default"@);
        let path = crate::picker::shown_path(info);
        lemma_join_six_begins(
            seq![
                nickname,
                role,
                crate::picker::shown_task(path),
                path,
                info.id_text,
                info.summary,
            ],
        );
        assert((nickname + " "@ + role + " "@).is_prefix_of(item.search_value->0@));
    }
}

/// Whether a thread can be brought back together with the one at `above`: its id is
/// well-formed and its path lies below.
pub open spec fn is_below_thread(thread: Thread, above: Seq<char>) -> bool {
    &&& thread.thread_id is Some
    &&& thread.source is ThreadSpawn
    &&& thread.source->agent_path is Some
    &&& crate::agent_tool_laws::lies_below(thread.source->agent_path->0@, above)
}

proof fn lemma_ids_below(threads: Seq<Thread>, above: Seq<char>, id: ThreadId)
    ensures
        ids_below(threads, above).contains(id) <==> exists|k: int|
            0 <= k < threads.len() && is_below_thread(#[trigger] threads[k], above)
                && threads[k].thread_id == Some(id),
    decreases threads.len(),
{
    let all = ids_below(threads, above);
    if threads.len() > 0 {
        let rest = threads.drop_last();
        let before = ids_below(rest, above);
        let last = threads.last();
        lemma_ids_below(rest, above, id);
        if spawn_path(last.source) is Some {
            crate::agent_tool_laws::lemma_is_below(spawn_path(last.source)->0, above);
        }
        if all.contains(id) {
            let m = all.index_of(id);
            if m < before.len() {
                assert(before[m] == id);
                let k = choose|k: int|
                    0 <= k < rest.len() && is_below_thread(#[trigger] rest[k], above)
                        && rest[k].thread_id == Some(id);
                assert(threads[k] == rest[k]);
            } else {
                assert(is_below_thread(threads[threads.len() - 1], above));
            }
        }
        if exists|k: int|
            0 <= k < threads.len() && is_below_thread(#[trigger] threads[k], above)
                && threads[k].thread_id == Some(id) {
            let k = choose|k: int|
                0 <= k < threads.len() && is_below_thread(#[trigger] threads[k], above)
                    && threads[k].thread_id == Some(id);
            if k < rest.len() {
                assert(rest[k] == threads[k]);
                let m = before.index_of(id);
                assert(all[m] == id);
            } else {
                assert(all[all.len() - 1] == id);
            }
        }
    }
}

proof fn lemma_path_among(threads: Seq<Thread>, id: ThreadId, k: int)
    requires
        0 <= k < threads.len(),
        threads[k].thread_id == Some(id),
        forall|j: int| 0 <= j < k ==> (#[trigger] threads[j]).thread_id != Some(id),
    ensures
        path_among(threads, id) == spawn_path(threads[k].source),
    decreases threads.len(),
{
    if k > 0 {
        assert(threads[0].thread_id != Some(id));
        let rest = threads.drop_first();
        assert(rest[k - 1] == threads[k]);
        assert forall|j: int| 0 <= j < k - 1 implies (#[trigger] rest[j]).thread_id != Some(id) by {
            assert(rest[j] == threads[j + 1]);
        }
        lemma_path_among(rest, id, k - 1);
    }
}

/// The second picker of `/agent resume` offers, first, the thread that was chosen alone,
/// and then that thread together with every thread whose path lies below its own.
pub proof fn lemma_scope_picker_offers_descendants(
    id: ThreadId,
    threads: &Vec<Thread>,
    view: SelectionView,
    k: int,
    other: ThreadId,
)
    requires
        call_ensures(open_agent_resume_scope_picker, (id, threads), view),
        0 <= k < threads@.len(),
        threads@[k].thread_id == Some(id),
        forall|j: int| 0 <= j < k ==> (#[trigger] threads@[j]).thread_id != Some(id),
    ensures
        view.items@.len() == 2,
        view.initial_selected_idx == Some(0usize),
        view.title@ == "Resume subagent"@,
        view.subtitle@ == "Choose how much of the agent tree to restore."@,
        view.items@[0].name@ == "Resume only this agent"@,
        view.items@[1].name@ == "Resume this agent and its descendants"@,
        view.items@[0].event == AppEvent::ResumeAgentThread(id),
        view.items@[1].event is ResumeAgentThreads,
        view.items@[1].event->ResumeAgentThreads_0@.len() > 0,
        view.items@[1].event->ResumeAgentThreads_0@[0] == id,
        threads@[k].source is ThreadSpawn && threads@[k].source->agent_path is Some && other != id
            ==> (view.items@[1].event->ResumeAgentThreads_0@.contains(other) <==> exists|m: int|
            0 <= m < threads@.len() && is_below_thread(
                #[trigger] threads@[m],
                threads@[k].source->agent_path->0@,
            ) && threads@[m].thread_id == Some(other)),
        !(threads@[k].source is ThreadSpawn && threads@[k].source->agent_path is Some)
            ==> view.items@[1].event->ResumeAgentThreads_0@.len() == 1,
{
    lemma_path_among(threads@, id, k);
    let ids = view.items@[1].event->ResumeAgentThreads_0@;
    if threads@[k].source is ThreadSpawn && threads@[k].source->agent_path is Some {
        let above = threads@[k].source->agent_path->0@;
        let below = ids_below(threads@, above);
        lemma_ids_below(threads@, above, other);
        assert(ids == seq![id] + below);
        if other != id {
            if ids.contains(other) {
                let m = ids.index_of(other);
                assert(below[m - 1] == other);
            }
            if below.contains(other) {
                let m = below.index_of(other);
                assert(ids[m + 1] == other);
            }
        }
    }
}

proof fn lemma_successes(attempts: Seq<bool>)
    ensures
        successes(attempts) == attempts.filter(|done: bool| done).len(),
    decreases attempts.len(),
{
    let pred = |done: bool| done;
    if attempts.len() == 0 {
        reveal(Seq::filter);
    } else {
        let rest = attempts.drop_last();
        lemma_successes(rest);
        assert(attempts =~= rest.push(attempts.last()));
        rest.lemma_filter_push(attempts.last(), pred);
    }
}

/// What is told after all threads have been tried: how many of them came back; and the
/// first of them is displayed where it is one of those.
pub proof fn lemma_after_resuming(
    attempts: &Vec<bool>,
    total: usize,
    message: String,
    ids: &Vec<ThreadId>,
    shown: Option<ThreadId>,
)
    requires
        attempts@.len() <= total,
        ids@.len() == attempts@.len(),
        call_ensures(resume_all_recoverable_agent_threads, (attempts, total), message),
        call_ensures(thread_to_select, (ids, attempts), shown),
    ensures
        message@ == "Resumed "@ + decimal(attempts@.filter(|done: bool| done).len()) + " of "@
            + decimal(total as nat) + " recoverable agents."@,
        shown is Some <==> ids@.len() > 0 && attempts@[0],
        shown is Some ==> shown->0 == ids@[0],
{
    lemma_successes(attempts@);
}

/// The thread that spawned `thread`, as the app server reports it.
pub open spec fn is_spawner(thread: Thread, id: ThreadId) -> bool {
    ||| thread.parent == Some(id)
    ||| thread.parent is None && thread.source is ThreadSpawn && thread.source->parent_thread_id
        == id
}

/// Whether `chain` leads up from `thread` to `primary`: it begins with the thread that
/// spawned `thread`, each of its threads was spawned by the next one, and it ends with
/// `primary`.
pub open spec fn leads_up(
    chain: Seq<ThreadId>,
    thread: Thread,
    primary: ThreadId,
    all: Seq<Thread>,
) -> bool {
    &&& chain.len() > 0
    &&& is_spawner(thread, chain[0])
    &&& chain.last() == primary
    &&& forall|k: int|
        0 <= k < chain.len() - 1 ==> spawned_in(all, #[trigger] chain[k], chain[k + 1])
}

/// Whether `all` says that `parent` spawned the thread `id`.
pub open spec fn spawned_in(all: Seq<Thread>, id: ThreadId, parent: ThreadId) -> bool {
    exists|m: int|
        0 <= m < all.len() && (#[trigger] all[m]).thread_id == Some(id) && is_spawner(
            all[m],
            parent,
        )
}

/// Whether no two threads share an id.
pub open spec fn distinct_threads(all: Seq<Thread>) -> bool {
    forall|i: int, j: int|
        0 <= i < j < all.len() && (#[trigger] all[i]).thread_id is Some ==> all[i].thread_id != (
        #[trigger] all[j]).thread_id
}

proof fn lemma_parents(all: Seq<Thread>, id: ThreadId)
    requires
        distinct_threads(all),
    ensures
        forall|parent: ThreadId|
            #[trigger] spawned_in(all, id, parent) <==> parent_in(parents_of(all), id) == Some(
                parent,
            ),
        (exists|m: int| 0 <= m < all.len() && (#[trigger] all[m]).thread_id == Some(id))
            <==> crate::id_map::lookup(parents_of(all), id) is Some,
    decreases all.len(),
{
    if all.len() > 0 {
        let rest = all.drop_last();
        let last = all.last();
        assert forall|i: int, j: int|
            0 <= i < j < rest.len() && (#[trigger] rest[i]).thread_id is Some implies
            rest[i].thread_id != (#[trigger] rest[j]).thread_id by {
            assert(rest[i] == all[i] && rest[j] == all[j]);
        }
        lemma_parents(rest, id);
        let pairs = parents_of(all);
        if last.thread_id is Some {
            assert(pairs.drop_last() =~= parents_of(rest));
        }
        assert(forall|m: int| 0 <= m < rest.len() ==> rest[m] == #[trigger] all[m]);
        assert forall|parent: ThreadId| #[trigger] spawned_in(all, id, parent) <==> parent_in(
            pairs,
            id,
        ) == Some(parent) by {
            assert(spawned_in(rest, id, parent) <==> parent_in(parents_of(rest), id) == Some(
                parent,
            ));
            if spawned_in(rest, id, parent) {
                let m = choose|m: int|
                    0 <= m < rest.len() && (#[trigger] rest[m]).thread_id == Some(id)
                        && is_spawner(rest[m], parent);
                assert(all[m].thread_id == Some(id) && is_spawner(all[m], parent));
                assert(last.thread_id != Some(id)) by {
                    assert(all[m].thread_id != all[all.len() - 1].thread_id);
                }
            }
            if spawned_in(all, id, parent) {
                let m = choose|m: int|
                    0 <= m < all.len() && (#[trigger] all[m]).thread_id == Some(id) && is_spawner(
                        all[m],
                        parent,
                    );
                if m < rest.len() {
                    assert(rest[m] == all[m]);
                    assert(spawned_in(rest, id, parent));
                }
            }
            if last.thread_id == Some(id) {
                assert(all[all.len() - 1].thread_id == Some(id));
                if parent_in(pairs, id) == Some(parent) {
                    assert(is_spawner(all[all.len() - 1], parent));
                }
            }
        }
        if exists|m: int| 0 <= m < all.len() && (#[trigger] all[m]).thread_id == Some(id) {
            let m = choose|m: int| 0 <= m < all.len() && (#[trigger] all[m]).thread_id == Some(id);
            if m < rest.len() {
                assert(rest[m].thread_id == Some(id));
            }
        }
        if crate::id_map::lookup(pairs, id) is Some {
            if last.thread_id == Some(id) {
                assert(all[all.len() - 1].thread_id == Some(id));
            } else {
                let m = choose|m: int|
                    0 <= m < rest.len() && (#[trigger] rest[m]).thread_id == Some(id);
                assert(all[m].thread_id == Some(id));
            }
        }
    }
}

proof fn lemma_chain_up(
    thread: Thread,
    primary: ThreadId,
    all: Seq<Thread>,
    n: nat,
) -> (chain: Seq<ThreadId>)
    requires
        distinct_threads(all),
        ancestor(parents_of(all), crate::thread::parent_of(thread), n) == Some(primary),
    ensures
        leads_up(chain, thread, primary, all),
    decreases n,
{
    let parents = parents_of(all);
    let start = crate::thread::parent_of(thread);
    if n == 0 {
        seq![primary]
    } else {
        let id = ancestor(parents, start, (n - 1) as nat)->0;
        let below = lemma_chain_up(thread, id, all, (n - 1) as nat);
        let chain = below.push(primary);
        lemma_parents(all, id);
        assert(spawned_in(all, id, primary));
        assert forall|k: int| 0 <= k < chain.len() - 1 implies spawned_in(
            all,
            #[trigger] chain[k],
            chain[k + 1],
        ) by {
            if k < below.len() - 1 {
                assert(spawned_in(all, below[k], below[k + 1]));
            }
        }
        chain
    }
}

proof fn lemma_up_chain(thread: Thread, primary: ThreadId, all: Seq<Thread>, chain: Seq<ThreadId>)
    requires
        distinct_threads(all),
        leads_up(chain, thread, primary, all),
    ensures
        ancestor(
            parents_of(all),
            crate::thread::parent_of(thread),
            (chain.len() - 1) as nat,
        ) == Some(primary),
    decreases chain.len(),
{
    if chain.len() > 1 {
        let below = chain.drop_last();
        let id = below.last();
        assert forall|k: int| 0 <= k < below.len() - 1 implies spawned_in(
            all,
            #[trigger] below[k],
            below[k + 1],
        ) by {
            assert(spawned_in(all, chain[k], chain[k + 1]));
        }
        lemma_up_chain(thread, id, all, below);
        assert(spawned_in(all, chain[chain.len() - 2], chain[chain.len() - 1]));
        lemma_parents(all, id);
    }
}

/// The threads that can be brought back are those that the primary thread spawned,
/// directly or not, and that are neither loaded nor known in the session nor have their
/// events kept: all of them and no others, by path and id.
pub proof fn lemma_recoverable_threads_are_lost_descendants(
    app: &App,
    loaded: &Vec<ThreadId>,
    all: Vec<Thread>,
    threads: Vec<Thread>,
    thread: Thread,
    i: int,
    j: int,
)
    requires
        app.maps_wf(),
        distinct_threads(all@),
        call_ensures(App::recoverable_agent_threads, (app, loaded, all), threads),
    ensures
        app.primary_thread_id is None ==> threads@.len() == 0,
        app.primary_thread_id is Some ==> (threads@.contains(thread) <==> all@.contains(thread)
            && thread.thread_id is Some && !loaded@.contains(thread.thread_id->0)
            && !app.thread_event_channels.keys().contains(thread.thread_id->0)
            && !app.agent_navigation.threads.keys().contains(thread.thread_id->0) && exists|
            chain: Seq<ThreadId>,
        | #[trigger] leads_up(chain, thread, app.primary_thread_id->0, all@)),
        0 <= i < j < threads@.len() ==> !opt_lex_less(
            spawn_path(threads@[j].source),
            spawn_path(threads@[i].source),
        ) && (spawn_path(threads@[i].source) == spawn_path(threads@[j].source) ==> !lex_less(
            threads@[j].id@,
            threads@[i].id@,
        )),
{
    crate::recoverable::lemma_recoverable_threads(*app, loaded@, all@, thread);
    if let Some(primary) = app.primary_thread_id {
        let parents = parents_of(all@);
        let start = crate::thread::parent_of(thread);
        if crate::recoverable::descends_from(thread, primary, parents) {
            let n = choose|n: nat| #[trigger] ancestor(parents, start, n) == Some(primary);
            let chain = lemma_chain_up(thread, primary, all@, n);
            assert(leads_up(chain, thread, primary, all@));
        }
        if exists|chain: Seq<ThreadId>| #[trigger] leads_up(chain, thread, primary, all@) {
            let chain = choose|chain: Seq<ThreadId>| #[trigger]
                leads_up(chain, thread, primary, all@);
            lemma_up_chain(thread, primary, all@, chain);
            assert(crate::recoverable::descends_from(thread, primary, parents));
        }
    }
    if 0 <= i < j < threads@.len() {
        assert(!(<Thread as Ranked>::ranks_before(threads@[j], threads@[i])));
    }
}

/// Threads are listed page by page: those of spawned agents that are not archived, out of
/// the state database, from the oldest on, until there is no further page.
pub proof fn lemma_pages(
    pages: ThreadPages,
    asked: &ThreadPages,
    params: ThreadListParams,
    data: Vec<Thread>,
    cursor: Option<String>,
    step: ThreadPagesStep,
)
    requires
        call_ensures(ThreadPages::next_request, (asked,), params),
        call_ensures(ThreadPages::accept, (pages, data, cursor), step),
    ensures
        params.cursor == asked.cursor,
        params.limit == Some(100u32),
        params.sort_key == Some(ThreadSortKey::CreatedAt),
        params.sort_direction == Some(SortDirection::Asc),
        params.source_kinds is Some && params.source_kinds->0@.len() == 1
            && params.source_kinds->0@[0] == ThreadSourceKind::SubAgentThreadSpawn,
        params.archived == Some(false),
        params.use_state_db_only,
        params.model_providers is None && params.cwd is None && params.search_term is None,
        step is More <==> cursor is Some,
        step is More ==> step->More_0.cursor == cursor && step->More_0.threads@ == pages.threads@
            + data@,
        step is Complete ==> step->Complete_0@ == pages.threads@ + data@,
{
}

/// The ids of the loaded threads are those that are well-formed, and none where the
/// threads could not be listed.
pub proof fn lemma_loaded_ids(
    listed: Option<Vec<Option<ThreadId>>>,
    ids: Vec<ThreadId>,
    id: ThreadId,
)
    requires
        call_ensures(loaded_thread_ids, (listed,), ids),
    ensures
        listed is None ==> ids@.len() == 0,
        listed is Some ==> (ids@.contains(id) <==> exists|i: int|
            0 <= i < listed->0@.len() && #[trigger] listed->0@[i] == Some(id)),
{
    if listed is Some {
        let all = listed->0@;
        if ids@.contains(id) {
            let i = all.index_of(Some(id));
            assert(all[i] == Some(id));
        }
        if exists|i: int| 0 <= i < all.len() && #[trigger] all[i] == Some(id) {
            let i = choose|i: int| 0 <= i < all.len() && #[trigger] all[i] == Some(id);
            assert(all.contains(all[i]));
        }
    }
}

/// A prompt names a task and a message, with two dashes between them: white space around
/// either is left out, and the first two dashes count.
pub proof fn lemma_prompt(
    input: &str,
    parsed: Result<(String, String), String>,
    gaps: (Seq<char>, Seq<char>, Seq<char>, Seq<char>),
    task: Seq<char>,
    message: Seq<char>,
)
    requires
        call_ensures(parse_agent_new_prompt, (input,), parsed),
        is_blank(gaps.0) && is_blank(gaps.1) && is_blank(gaps.2) && is_blank(gaps.3),
        task.len() > 0 && !is_space(task[0]) && !is_space(task.last()),
        message.len() > 0 && !is_space(message[0]) && !is_space(message.last()),
        forall|i: int| 0 <= i < task.len() ==> #[trigger] task[i] != '-',
        input@ == gaps.0 + (task + gaps.1 + seq!['-', '-'] + gaps.2 + message) + gaps.3,
    ensures
        parsed is Ok,
        parsed->Ok_0.0@ == task,
        parsed->Ok_0.1@ == message,
{
    reveal_strlit("--");
    let core = task + gaps.1 + seq!['-', '-'] + gaps.2 + message;
    assert(core[0] == task[0]);
    assert(core.last() == message.last());
    lemma_trim(gaps.0, core, gaps.3);
    let prompt = trim(input@);
    assert(prompt == core);
    let at = (task.len() + gaps.1.len()) as int;
    assert("--"@ =~= seq!['-', '-']);
    assert(prompt.subrange(at, at + 2) =~= "--"@);
    assert(occurs_at(prompt, "--"@, at));
    assert forall|j: int| 0 <= j < at implies !occurs_at(prompt, "--"@, j) by {
        if occurs_at(prompt, "--"@, j) {
            assert(prompt.subrange(j, j + 2)[0] == prompt[j]);
            assert(prompt[j] == '-');
            if j < task.len() {
                assert(prompt[j] == task[j]);
            } else {
                assert(prompt[j] == gaps.1[j - task.len()]);
                assert(is_space(gaps.1[j - task.len()]));
            }
        }
    }
    assert(first_dashes(prompt, at));
    let found = choose|found: int| first_dashes(prompt, found);
    crate::new_agent::lemma_first_dashes_unique(prompt, at, found);
    assert(prompt.take(at) =~= Seq::empty() + task + gaps.1);
    assert(prompt.skip(at + 2) =~= gaps.2 + message + Seq::empty());
    lemma_trim(Seq::empty(), task, gaps.1);
    lemma_trim(gaps.2, message, Seq::empty());
}

/// What is wrong with a prompt: there are no two dashes in it, or nothing stands before or
/// behind them.
pub proof fn lemma_wrong_prompts(
    input: &str,
    parsed: Result<(String, String), String>,
    gap: Seq<char>,
    text: Seq<char>,
)
    requires
        call_ensures(parse_agent_new_prompt, (input,), parsed),
    ensures
        (forall|i: int| 0 <= i < input@.len() ==> #[trigger] input@[i] != '-') ==> parsed is Err
            && parsed->Err_0@ == "Use task_name -- initial message."@,
        is_blank(gap) && text.len() > 0 && !is_space(text.last()) && input@ == gap + (seq!['-', '-']
            + text) ==> parsed is Err && parsed->Err_0@ == "Agent task_name must not be empty."@,
        is_blank(gap) && text.len() > 0 && !is_space(text[0]) && !is_space(text.last()) && (forall|
            i: int,
        |
            0 <= i < text.len() ==> #[trigger] text[i] != '-') && input@ == text + seq!['-', '-']
            + gap ==> parsed is Err && parsed->Err_0@ == "Agent initial message must not be empty."@,
{
    reveal_strlit("--");
    let prompt = trim(input@);
    assert("--"@ =~= seq!['-', '-']);
    if forall|i: int| 0 <= i < input@.len() ==> #[trigger] input@[i] != '-' {
        if contains_text(prompt, "--"@) {
            let at = choose|at: int| occurs_at(prompt, "--"@, at);
            assert(prompt.subrange(at, at + 2)[0] == prompt[at]);
            crate::text_laws::lemma_trim_is_inside(input@, at);
        }
    }
    if is_blank(gap) && text.len() > 0 && !is_space(text.last()) && input@ == gap + (seq!['-', '-']
        + text) {
        let core = seq!['-', '-'] + text;
        lemma_trim(gap, core, Seq::empty());
        assert(gap + core + Seq::empty() =~= input@);
        assert(prompt.subrange(0, 2) =~= "--"@);
        assert(occurs_at(prompt, "--"@, 0));
        assert(first_dashes(prompt, 0));
        let found = choose|found: int| first_dashes(prompt, found);
        crate::new_agent::lemma_first_dashes_unique(prompt, 0, found);
        assert(prompt.take(0) =~= Seq::empty() + Seq::empty() + Seq::empty());
        lemma_trim(Seq::empty(), Seq::empty(), Seq::empty());
    }
    if is_blank(gap) && text.len() > 0 && !is_space(text[0]) && !is_space(text.last()) && (forall|
        i: int,
    |
        0 <= i < text.len() ==> #[trigger] text[i] != '-') && input@ == text + seq!['-', '-']
        + gap {
        let core = text + seq!['-', '-'];
        assert(core[0] == text[0]);
        lemma_trim(Seq::empty(), core, gap);
        assert(Seq::empty() + core + gap =~= input@);
        let at = text.len() as int;
        assert(prompt.subrange(at, at + 2) =~= "--"@);
        assert(occurs_at(prompt, "--"@, at));
        assert forall|j: int| 0 <= j < at implies !occurs_at(prompt, "--"@, j) by {
            if occurs_at(prompt, "--"@, j) {
                assert(prompt.subrange(j, j + 2)[0] == prompt[j]);
                assert(prompt[j] == text[j]);
            }
        }
        assert(first_dashes(prompt, at));
        let found = choose|found: int| first_dashes(prompt, found);
        crate::new_agent::lemma_first_dashes_unique(prompt, at, found);
        assert(prompt.take(at) =~= Seq::empty() + text + Seq::empty());
        assert(prompt.skip(at + 2) =~= Seq::empty() + Seq::empty() + Seq::empty());
        lemma_trim(Seq::empty(), text, Seq::empty());
        lemma_trim(Seq::empty(), Seq::empty(), Seq::empty());
    }
}

/// A prompt that is right spawns an agent of the type that was chosen, below the thread
/// that was asked from, with the task and the message; a wrong one is asked for again.
pub proof fn lemma_spawning(
    parent: ThreadId,
    agent_type: Option<String>,
    prompt: String,
    input: &str,
    step: SpawnStep,
    parsed: Result<(String, String), String>,
)
    requires
        input@ == prompt@,
        call_ensures(spawn_agent_from_prompt, (parent, agent_type, prompt), step),
        call_ensures(parse_agent_new_prompt, (input,), parsed),
    ensures
        step is Spawn <==> parsed is Ok,
        step is Spawn ==> step->Spawn_parent_thread_id == parent && step->Spawn_agent_type
            == agent_type && step->task_name@ == parsed->Ok_0.0@ && step->message@
            == parsed->Ok_0.1@,
        step is AskAgain ==> step->AskAgain_parent_thread_id == parent && step->AskAgain_agent_type
            == agent_type && step->error@ == parsed->Err_0@,
{
}

/// What is told of a new agent, and what the prompt for it shows.
pub proof fn lemma_new_agent_notices(
    task: &str,
    spawned: Result<ThreadId, String>,
    attached: Result<(), String>,
    notice: Notice,
    agent_type: &Option<String>,
    label: String,
    view: PromptView,
)
    requires
        call_ensures(spawn_notice, (task, spawned, attached), notice),
        call_ensures(agent_new_context_label, (agent_type,), label),
        call_ensures(show_agent_new_params_prompt, (agent_type,), view),
    ensures
        notice is Info <==> spawned is Ok && attached is Ok,
        notice is Info ==> notice->Info_0@ == "Spawned subagent "@ + task@ + "."@,
        spawned is Err ==> notice->Error_0@ == "Failed to spawn subagent: "@ + spawned->Err_0@,
        spawned is Ok && attached is Err ==> notice->Error_0@ == "Spawned agent "@
            + spawned->Ok_0.text() + ", but failed to attach it: "@ + attached->Err_0@,
        *agent_type is None ==> label@ == "agent_type: default"@,
        *agent_type is Some ==> label@ == "agent_type: "@ + agent_type->0@,
        view.context_label@ == label@,
        view.initial_text@.len() == 0,
        view.title@ == "New subagent"@,
        view.placeholder@ == "task_name -- initial message"@,
{
}

/// Whether `item` offers a role: under its type, with its description and its nicknames,
/// below the thread `parent`.
pub open spec fn offers(item: SelectionItem, role: AgentRoleSummary, parent: ThreadId) -> bool {
    let names = role.nickname_candidates;
    &&& item.name@ == role.agent_type@
    &&& item.event is OpenAgentNewParamsPrompt
    &&& item.event->OpenAgentNewParamsPrompt_parent_thread_id == parent
    &&& item.event->OpenAgentNewParamsPrompt_agent_type is Some
        && item.event->OpenAgentNewParamsPrompt_agent_type->0@ == role.agent_type@
    &&& role.description is None && names is None ==> item.description is None
    &&& role.description is Some && names is None ==> item.description is Some
        && item.description->0@ == role.description->0@
    &&& role.description is Some && names is Some && names->0@.len() == 1 && names->0@[0]@.len() > 0
        ==> item.description is Some && item.description->0@ == role.description->0@
        + " nicknames="@ + names->0@[0]@
    &&& role.description is None && names is Some && names->0@.len() == 1 && names->0@[0]@.len() > 0
        ==> item.description is Some && item.description->0@ == "nicknames="@ + names->0@[0]@
    &&& names is Some && joined(names->0.deep_view(), ", "@).len() > 0 && role.description is Some
        ==> item.description is Some && item.description->0@ == role.description->0@
        + " nicknames="@ + joined(names->0.deep_view(), ", "@)
    &&& item.search_value is Some && (role.agent_type@ + " "@).is_prefix_of(item.search_value->0@)
}

/// Whether one of `items` offers a role.
pub open spec fn is_role_offered(
    items: Seq<SelectionItem>,
    role: AgentRoleSummary,
    parent: ThreadId,
) -> bool {
    exists|k: int| 1 <= k < items.len() && offers(#[trigger] items[k], role, parent)
}

/// The picker of `/agent new` offers an agent without a type first and then each role that
/// the session knows, or that is configured where it cannot tell, by type; the agent is to
/// belong to the displayed thread, or else to the primary one; without either there is no
/// picker.
pub proof fn lemma_new_agent_picker(
    app: &App,
    listed: Option<Vec<AgentRoleSummary>>,
    configured: Vec<AgentRoleSummary>,
    picker: NewAgentPicker,
    parent: Option<ThreadId>,
    k: int,
)
    requires
        call_ensures(App::open_agent_new_picker, (app, listed, configured), picker),
        call_ensures(App::parent_for_new_agent, (app,), parent),
    ensures
        app.active_thread_id is Some ==> parent == app.active_thread_id,
        app.active_thread_id is None ==> parent == app.primary_thread_id,
        picker is Error <==> parent is None,
        picker is Error ==> picker->Error_0@
            == "/agent new is unavailable before the session starts."@,
        picker is Show ==> ({
            let roles = if listed is Some {
                listed->0@
            } else {
                configured@
            };
            let items = picker->Show_0.items@;
            &&& items.len() == roles.len() + 1
            &&& picker->Show_0.title@ == "New Subagent"@
            &&& picker->Show_0.subtitle@
                == "Choose an agent_type, then enter task_name -- initial message."@
            &&& picker->Show_0.is_searchable
            &&& items[0].description is Some && items[0].description->0@
                == "Spawn without an agent_type override"@
            &&& items[0].name@ == "default"@
            &&& items[0].event == (AppEvent::OpenAgentNewParamsPrompt {
                parent_thread_id: parent->0,
                agent_type: None,
            })
            &&& 0 <= k < roles.len() ==> is_role_offered(items, roles[k], parent->0)
            &&& forall|i: int, j: int|
                1 <= i < j < items.len() ==> !lex_less(
                    (#[trigger] items[j]).name@,
                    (#[trigger] items[i]).name@,
                )
        }),
{
    if picker is Show {
        let list = if listed is Some {
            listed->0
        } else {
            configured
        };
        let given = list.deep_view();
        let roles = ordered::<AgentRoleSummary>(given);
        let items = picker->Show_0.items@;
        lemma_ordered::<AgentRoleSummary>(given, arbitrary());
        assert(given.len() == list@.len());
        if 0 <= k < list@.len() {
            let role = list@[k];
            let x = role.deep_view();
            assert(given[k] == x);
            lemma_ordered_contains::<AgentRoleSummary>(given, x);
            let m = roles.index_of(x);
            assert(crate::new_agent::offers_role(items[m + 1], roles[m], parent->0));
            if role.nickname_candidates is Some && role.nickname_candidates->0@.len() == 1 {
                let names = role.nickname_candidates->0.deep_view();
                assert(names[0] == role.nickname_candidates->0@[0]@);
            }
            let found = items[m + 1].search_value->0@;
            let head = role.agent_type@ + " "@;
            assert(found.subrange(0, head.len() as int) =~= head);
            assert(offers(items[m + 1], role, parent->0));
        }
        assert forall|i: int, j: int| 1 <= i < j < items.len() implies !lex_less(
            (#[trigger] items[j]).name@,
            (#[trigger] items[i]).name@,
        ) by {
            assert(crate::new_agent::offers_role(items[(i - 1) + 1], roles[i - 1], parent->0));
            assert(crate::new_agent::offers_role(items[(j - 1) + 1], roles[j - 1], parent->0));
            assert(!(<AgentRoleSummary as Ranked>::ranks_before(roles[j - 1], roles[i - 1])));
        }
    }
}

/// The roles of the configuration keep their order, and each its type, description and
/// nicknames.
pub proof fn lemma_configured_roles(
    roles: Vec<(String, AgentRoleConfig)>,
    summaries: Vec<AgentRoleSummary>,
    i: int,
)
    requires
        call_ensures(agent_roles_from_startup_config, (roles,), summaries),
    ensures
        summaries@.len() == roles@.len(),
        0 <= i < roles@.len() ==> summaries@[i].agent_type == roles@[i].0
            && summaries@[i].description == roles@[i].1.description
            && summaries@[i].nickname_candidates == roles@[i].1.nickname_candidates,
{
}

/// A thread descends from the primary one where a chain of spawns leads up to it, each
/// thread looked up in `parents`.
pub proof fn lemma_descending(
    thread: &Thread,
    primary: ThreadId,
    parents: &IdMap<Option<ThreadId>>,
    descends: bool,
    above: ThreadId,
)
    requires
        parents.wf(),
        call_ensures(thread_is_descendant_of_primary, (thread, primary, parents), descends),
    ensures
        is_spawner(*thread, primary) ==> descends,
        is_spawner(*thread, above) && parents.value(above) == Some(Some(primary)) ==> descends,
        thread.parent is None && !(thread.source is ThreadSpawn) ==> !descends,
        is_spawner(*thread, above) && above != primary && (parents.value(above) is None
            || parents.value(above) == Some(None::<ThreadId>)) ==> !descends,
{
    let pairs = parents.entries@;
    let start = crate::thread::parent_of(*thread);
    if is_spawner(*thread, primary) {
        assert(ancestor(pairs, start, 0) == Some(primary));
    }
    if is_spawner(*thread, above) && parents.value(above) == Some(Some(primary)) {
        assert(ancestor(pairs, start, 0) == Some(above));
        assert(ancestor(pairs, start, 1) == Some(primary));
    }
    if descends {
        let n = choose|n: nat| #[trigger] ancestor(pairs, start, n) == Some(primary);
        lemma_stays_none(pairs, start, n);
    }
}

/// The way up ends where it meets a thread that nothing is known of.
proof fn lemma_stays_none(
    pairs: Seq<(ThreadId, Option<ThreadId>)>,
    start: Option<ThreadId>,
    n: nat,
)
    ensures
        start is None ==> ancestor(pairs, start, n) is None,
        start is Some && parent_in(pairs, start->0) is None && n > 0 ==> ancestor(
            pairs,
            start,
            n,
        ) is None,
    decreases n,
{
    if n > 0 {
        lemma_stays_none(pairs, start, (n - 1) as nat);
    }
}

/// Where an id is listed more than once, its last thread says who spawned it.
pub proof fn lemma_last_listed_thread_counts(all: Seq<Thread>, m: int, id: ThreadId)
    requires
        0 <= m < all.len(),
        all[m].thread_id == Some(id),
        forall|j: int| m < j < all.len() ==> (#[trigger] all[j]).thread_id != Some(id),
    ensures
        forall|parent: ThreadId|
            parent_in(parents_of(all), id) == Some(parent) <==> #[trigger] is_spawner(
                all[m],
                parent,
            ),
    decreases all.len(),
{
    let rest = all.drop_last();
    let pairs = parents_of(all);
    if m < all.len() - 1 {
        assert(all[all.len() - 1].thread_id != Some(id));
        assert(rest[m] == all[m]);
        assert forall|j: int| m < j < rest.len() implies (#[trigger] rest[j]).thread_id != Some(
            id,
        ) by {
            assert(rest[j] == all[j]);
        }
        lemma_last_listed_thread_counts(rest, m, id);
        if all.last().thread_id is Some {
            assert(pairs.drop_last() =~= parents_of(rest));
        }
    }
}

/// The threads that are looked at: first those that the picker knows, in its order.
pub proof fn lemma_known_threads_are_looked_at_first(app: &App, ids: Vec<ThreadId>)
    requires
        call_ensures(App::picker_thread_ids, (app,), ids),
    ensures
        app.agent_navigation.threads.keys().filter(
            |id: ThreadId| !app.side_threads.keys().contains(id),
        ).is_prefix_of(ids@),
{
    let known = app.agent_navigation.threads.keys();
    let channels = app.thread_event_channels.keys();
    let aside = |id: ThreadId| !app.side_threads.keys().contains(id);
    let more = channels.filter(|id: ThreadId| !known.contains(id));
    lemma_filter_joined(known, more, aside);
}

proof fn lemma_filter_joined(
    a: Seq<ThreadId>,
    b: Seq<ThreadId>,
    pred: spec_fn(ThreadId) -> bool,
)
    ensures
        (a + b).filter(pred) == a.filter(pred) + b.filter(pred),
        a.filter(pred).is_prefix_of((a + b).filter(pred)),
    decreases b.len(),
{
    if b.len() == 0 {
        assert(a + b =~= a);
        assert(b.filter(pred) =~= Seq::empty()) by {
            reveal(Seq::filter);
        }
        assert(a.filter(pred) + b.filter(pred) =~= a.filter(pred));
    } else {
        let rest = b.drop_last();
        lemma_filter_joined(a, rest, pred);
        assert(b =~= rest.push(b.last()));
        assert(a + b =~= (a + rest).push(b.last()));
        rest.lemma_filter_push(b.last(), pred);
        (a + rest).lemma_filter_push(b.last(), pred);
        assert((a + b).filter(pred) =~= a.filter(pred) + b.filter(pred));
    }
    let all = (a + b).filter(pred);
    assert(all.subrange(0, a.filter(pred).len() as int) =~= a.filter(pred));
}

/// Pages begin without a thread and at the first page; the message counts what came back;
/// and a thread is found by its id.
pub proof fn lemma_small_parts(
    pages: ThreadPages,
    resumed: usize,
    total: usize,
    message: String,
    threads: &Vec<Thread>,
    id: ThreadId,
    path: Option<String>,
    k: int,
    ids: Vec<ThreadId>,
    above: &Option<String>,
)
    requires
        call_ensures(ThreadPages::new, (), pages),
        call_ensures(resumed_message, (resumed, total), message),
        call_ensures(path_of_thread, (threads, id), path),
        call_ensures(resume_with_descendants, (id, above, threads), ids),
    ensures
        pages.threads@.len() == 0 && pages.cursor is None,
        message@ == "Resumed "@ + decimal(resumed as nat) + " of "@ + decimal(total as nat)
            + " recoverable agents."@,
        0 <= k < threads@.len() && threads@[k].thread_id == Some(id) && (forall|j: int|
            0 <= j < k ==> (#[trigger] threads@[j]).thread_id != Some(id)) ==> path.deep_view()
            == if threads@[k].source is ThreadSpawn {
            threads@[k].source->agent_path.deep_view()
        } else {
            None
        },
        (forall|j: int| 0 <= j < threads@.len() ==> (#[trigger] threads@[j]).thread_id != Some(id))
            ==> path is None,
        ids@.len() > 0 && ids@[0] == id,
        *above is None ==> ids@.len() == 1,
{
    if 0 <= k < threads@.len() && threads@[k].thread_id == Some(id) && (forall|j: int|
        0 <= j < k ==> (#[trigger] threads@[j]).thread_id != Some(id)) {
        lemma_path_among(threads@, id, k);
    }
    if forall|j: int| 0 <= j < threads@.len() ==> (#[trigger] threads@[j]).thread_id != Some(id) {
        lemma_no_path_among(threads@, id);
    }
}

proof fn lemma_no_path_among(threads: Seq<Thread>, id: ThreadId)
    requires
        forall|j: int| 0 <= j < threads.len() ==> (#[trigger] threads[j]).thread_id != Some(id),
    ensures
        path_among(threads, id) is None,
    decreases threads.len(),
{
    if threads.len() > 0 {
        assert(threads[0].thread_id != Some(id));
        let rest = threads.drop_first();
        assert forall|j: int| 0 <= j < rest.len() implies (#[trigger] rest[j]).thread_id != Some(
            id,
        ) by {
            assert(rest[j] == threads[j + 1]);
        }
        lemma_no_path_among(rest, id);
    }
}

/// The path that reading a thread told of it.
pub open spec fn path_read(app: App, id: ThreadId) -> Option<Seq<char>> {
    let details = app.thread_details.value(id);
    if details is Some {
        details->0.agent_path.deep_view()
    } else {
        None
    }
}

/// The items of the picker stand in the order of the paths of their threads and, where
/// those are the same, of their ids.
pub proof fn lemma_items_stand_by_path(
    app: &App,
    enabled: bool,
    subtitle: String,
    picker: AgentPicker,
    i: int,
    j: int,
)
    requires
        app.maps_wf(),
        call_ensures(App::open_agent_picker, (app, enabled, subtitle), picker),
        picker is Show,
        0 <= i < j < picker->Show_0.items@.len(),
    ensures
        ({
            let a = picker->Show_0.items@[i].event;
            let b = picker->Show_0.items@[j].event;
            let x = a->SelectAgentThread_0;
            let y = b->SelectAgentThread_0;
            &&& a is SelectAgentThread && b is SelectAgentThread
            &&& !opt_lex_less(path_read(*app, y), path_read(*app, x))
            &&& path_read(*app, x) == path_read(*app, y) ==> !lex_less(y.text(), x.text())
        }),
{
    let infos = app.picker_infos();
    let items = picker->Show_0.items@;
    let keys = app.agent_navigation.threads.keys();
    assert(app.item_shows(items[i], infos[i]));
    assert(app.item_shows(items[j], infos[j]));
    crate::picker::lemma_picker_infos(*app, infos[i]);
    crate::picker::lemma_picker_infos(*app, infos[j]);
    assert(infos.contains(infos[i]) && infos.contains(infos[j]));
    let k = choose|k: int| 0 <= k < keys.len() && infos[i] == #[trigger] app.picker_info(k);
    let m = choose|m: int| 0 <= m < keys.len() && infos[j] == #[trigger] app.picker_info(m);
    assert(infos[i] == app.picker_info(k) && infos[j] == app.picker_info(m));
    assert(!(<PickerThread as Ranked>::ranks_before(infos[j], infos[i])));
}

proof fn lemma_ids_below_join(a: Seq<Thread>, b: Seq<Thread>, above: Seq<char>)
    ensures
        ids_below(a + b, above) == ids_below(a, above) + ids_below(b, above),
    decreases b.len(),
{
    if b.len() == 0 {
        assert(a + b =~= a);
        assert(ids_below(a, above) + ids_below(b, above) =~= ids_below(a, above));
    } else {
        lemma_ids_below_join(a, b.drop_last(), above);
        assert((a + b).drop_last() =~= a + b.drop_last());
        assert((a + b).last() == b.last());
        assert(ids_below(a + b, above) =~= ids_below(a, above) + ids_below(b, above));
    }
}

/// What comes back with a thread comes in the order in which it is listed: first what the
/// first part of a list holds, and then what the rest of it holds.
pub proof fn lemma_descendants_keep_their_order(
    id: ThreadId,
    above: &Option<String>,
    first: &Vec<Thread>,
    rest: &Vec<Thread>,
    both: &Vec<Thread>,
    ids_first: Vec<ThreadId>,
    ids_rest: Vec<ThreadId>,
    ids: Vec<ThreadId>,
)
    requires
        both@ == first@ + rest@,
        call_ensures(resume_with_descendants, (id, above, first), ids_first),
        call_ensures(resume_with_descendants, (id, above, rest), ids_rest),
        call_ensures(resume_with_descendants, (id, above, both), ids),
    ensures
        ids@ == ids_first@ + ids_rest@.drop_first(),
{
    if *above is Some {
        lemma_ids_below_join(first@, rest@, above->0@);
        assert(ids_rest@.drop_first() =~= ids_below(rest@, above->0@));
        assert(ids@ =~= ids_first@ + ids_rest@.drop_first());
    } else {
        assert(ids@ =~= ids_first@ + ids_rest@.drop_first());
    }
}

/// A thread that is not listed is offered alone.
pub proof fn lemma_scope_picker_of_an_unlisted_thread(
    id: ThreadId,
    threads: &Vec<Thread>,
    view: SelectionView,
)
    requires
        call_ensures(open_agent_resume_scope_picker, (id, threads), view),
        forall|j: int| 0 <= j < threads@.len() ==> (#[trigger] threads@[j]).thread_id != Some(id),
    ensures
        view.items@.len() == 2,
        view.items@[0].event == AppEvent::ResumeAgentThread(id),
        view.items@[1].event is ResumeAgentThreads,
        view.items@[1].event->ResumeAgentThreads_0@.len() == 1,
        view.items@[1].event->ResumeAgentThreads_0@[0] == id,
{
    lemma_no_path_among(threads@, id);
}

} // verus!
