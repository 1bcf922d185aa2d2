//! The pickers of the `/agent` commands.

use vstd::prelude::*;

use crate::app_state::App;
use crate::cells::{
    all_printable, fit_cell, fitted, lemma_strip_spaces, lemma_truncated, plain_fitted,
    plain_shortened, shortened, strip_spaces, text_columns, truncate_with_ellipsis, truncated,
    SUMMARY_WIDTH,
};
use crate::order::{
    in_order, lemma_ordered, lemma_ordered_contains, ordered, stable_sort, Ranked,
};
use crate::resume_agent::{is_below, path_is_below};
use crate::text::{
    chars_of, copy_opt, decimal, decimal_text, glue, glue3, glue4, is_space, join_texts, joined,
    last_path_segment, last_segment, lemma_lex_less, lemma_opt_lex_less, lemma_squeeze, lex_less,
    opt_lex_less, opt_text_less, same_opt_text, squeeze, squeeze_text, text_less, text_of, trim, trim_text,
};
use crate::thread::{agent_path_from_thread, spawn_path, Thread, ThreadId};

verus! {

pub const PICKER_STATUS_WIDTH: usize = 8;

pub const PICKER_TASK_WIDTH: usize = 16;

pub const PICKER_PATH_WIDTH: usize = 24;

pub const PICKER_ID_WIDTH: usize = 8;

pub const PICKER_TYPE_WIDTH: usize = 12;

pub const PICKER_NICKNAME_WIDTH: usize = 14;

/// What choosing an item does.
#[derive(Debug, PartialEq, Eq)]
pub enum AppEvent {
    SelectAgentThread(ThreadId),
    ResumeAllRecoverableAgents,
    ChooseAgentResumeScope(ThreadId),
    ResumeAgentThread(ThreadId),
    ResumeAgentThreads(Vec<ThreadId>),
    OpenAgentNewParamsPrompt { parent_thread_id: ThreadId, agent_type: Option<String> },
    SpawnAgentFromPrompt {
        parent_thread_id: ThreadId,
        agent_type: Option<String>,
        prompt: String,
    },
}

/// One item of a picker.
#[derive(Debug, PartialEq, Eq)]
pub struct SelectionItem {
    pub name: String,
    pub description: Option<String>,
    pub search_value: Option<String>,
    pub is_current: bool,
    /// Whether the thread of the item is closed, where the item is a thread.
    pub is_closed: Option<bool>,
    pub event: AppEvent,
}

/// A picker.
#[derive(Debug, PartialEq, Eq)]
pub struct SelectionView {
    pub title: String,
    pub subtitle: String,
    pub items: Vec<SelectionItem>,
    pub initial_selected_idx: Option<usize>,
    pub is_searchable: bool,
}

/// An agent thread as a picker shows it.
#[derive(Debug, PartialEq, Eq)]
pub struct PickerThread {
    pub thread_id: ThreadId,
    pub id_text: String,
    pub agent_path: Option<String>,
    pub agent_nickname: Option<String>,
    pub agent_role: Option<String>,
    pub is_closed: bool,
    pub summary: String,
}

/// The contents of a `PickerThread`.
#[verifier::ext_equal]
pub struct PickerInfo {
    pub thread_id: ThreadId,
    pub id_text: Seq<char>,
    pub agent_path: Option<Seq<char>>,
    pub agent_nickname: Option<Seq<char>>,
    pub agent_role: Option<Seq<char>>,
    pub is_closed: bool,
    pub summary: Seq<char>,
}

impl DeepView for PickerThread {
    type V = PickerInfo;

    open spec fn deep_view(&self) -> PickerInfo {
        PickerInfo {
            thread_id: self.thread_id,
            id_text: self.id_text@,
            agent_path: self.agent_path.deep_view(),
            agent_nickname: self.agent_nickname.deep_view(),
            agent_role: self.agent_role.deep_view(),
            is_closed: self.is_closed,
            summary: self.summary@,
        }
    }
}

impl Ranked for PickerThread {
    open spec fn ranks_before(a: PickerInfo, b: PickerInfo) -> bool {
        ||| opt_lex_less(a.agent_path, b.agent_path)
        ||| a.agent_path == b.agent_path && lex_less(a.id_text, b.id_text)
    }

    fn precedes(&self, other: &Self) -> (before: bool) {
        opt_text_less(&self.agent_path, &other.agent_path) || (same_opt_text(
            &self.agent_path,
            &other.agent_path,
        ) && text_less(self.id_text.as_str(), other.id_text.as_str()))
    }

    proof fn lemma_ranks(a: PickerInfo, b: PickerInfo, c: PickerInfo) {
        lemma_opt_lex_less(a.agent_path, b.agent_path, c.agent_path);
        lemma_opt_lex_less(b.agent_path, c.agent_path, a.agent_path);
        lemma_opt_lex_less(c.agent_path, a.agent_path, b.agent_path);
        lemma_opt_lex_less(b.agent_path, a.agent_path, c.agent_path);
        lemma_opt_lex_less(c.agent_path, b.agent_path, a.agent_path);
        lemma_opt_lex_less(a.agent_path, c.agent_path, b.agent_path);
        lemma_lex_less(a.id_text, b.id_text, c.id_text);
        lemma_lex_less(b.id_text, c.id_text, a.id_text);
        lemma_lex_less(c.id_text, a.id_text, b.id_text);
        lemma_lex_less(b.id_text, a.id_text, c.id_text);
        lemma_lex_less(a.id_text, c.id_text, b.id_text);
    }
}

/// `text` unless it is absent or blank, and otherwise `fallback`.
pub open spec fn or_else(text: Option<Seq<char>>, fallback: Seq<char>) -> Seq<char> {
    match text {
        Some(text) => if trim(text).len() > 0 {
            text
        } else {
            fallback
        },
        None => fallback,
    }
}

/// The path that is shown for a thread.
pub open spec fn shown_path(info: PickerInfo) -> Seq<char> {
    match info.agent_path {
        Some(path) => path,
        None => "/root/?"@,
    }
}

/// The task that is shown for a path.
pub open spec fn shown_task(path: Seq<char>) -> Seq<char> {
    if last_segment(path).len() == 0 {
        "agent"@
    } else {
        last_segment(path)
    }
}

/// The first eight characters of an id.
pub open spec fn short_id(id: Seq<char>) -> Seq<char> {
    if id.len() <= 8 {
        id
    } else {
        id.take(8)
    }
}

/// The row of a thread: its status, task, path, the beginning of its id, its
/// agent type, its nickname and its summary, on one line.
pub open spec fn picker_row(info: PickerInfo) -> Seq<char> {
    let path = shown_path(info);
    joined(
        seq![
            fitted(
                if info.is_closed {
                    "closed"@
                } else {
                    "open"@
                },
                PICKER_STATUS_WIDTH as nat,
            ),
            fitted(shown_task(path), PICKER_TASK_WIDTH as nat),
            fitted(path, PICKER_PATH_WIDTH as nat),
            fitted(short_id(info.id_text), PICKER_ID_WIDTH as nat),
            fitted(or_else(info.agent_role, "default"@), PICKER_TYPE_WIDTH as nat),
            fitted(or_else(info.agent_nickname, "Agent"@), PICKER_NICKNAME_WIDTH as nat),
            shortened(squeeze(info.summary), SUMMARY_WIDTH as nat),
        ],
        "  "@,
    )
}

/// `picker_row`, where each character takes one column.
pub open spec fn plain_picker_row(info: PickerInfo) -> Seq<char> {
    let path = shown_path(info);
    joined(
        seq![
            plain_fitted(
                if info.is_closed {
                    "closed"@
                } else {
                    "open"@
                },
                PICKER_STATUS_WIDTH as nat,
            ),
            plain_fitted(shown_task(path), PICKER_TASK_WIDTH as nat),
            plain_fitted(path, PICKER_PATH_WIDTH as nat),
            plain_fitted(short_id(info.id_text), PICKER_ID_WIDTH as nat),
            plain_fitted(or_else(info.agent_role, "default"@), PICKER_TYPE_WIDTH as nat),
            plain_fitted(or_else(info.agent_nickname, "Agent"@), PICKER_NICKNAME_WIDTH as nat),
            plain_shortened(squeeze(info.summary), SUMMARY_WIDTH as nat),
        ],
        "  "@,
    )
}

/// Whether what a row shows of a thread holds nothing but printable ASCII characters.
pub open spec fn printable_info(info: PickerInfo) -> bool {
    let path = shown_path(info);
    &&& all_printable(shown_task(path))
    &&& all_printable(path)
    &&& all_printable(short_id(info.id_text))
    &&& all_printable(or_else(info.agent_role, "default"@))
    &&& all_printable(or_else(info.agent_nickname, "Agent"@))
    &&& all_printable(squeeze(info.summary))
}

fn text_or(text: &Option<String>, fallback: &str) -> (shown: String)
    ensures
        shown@ == or_else(text.deep_view(), fallback@),
{
    match text {
        Some(text) => if trim_text(text.as_str()).as_str().is_empty() {
            fallback.to_string()
        } else {
            text.clone()
        },
        None => fallback.to_string(),
    }
}

fn path_of(thread: &PickerThread) -> (path: String)
    ensures
        path@ == shown_path(thread.deep_view()),
{
    match &thread.agent_path {
        Some(path) => path.clone(),
        None => "/root/?".to_string(),
    }
}

fn task_of(path: &str) -> (task: String)
    ensures
        task@ == shown_task(path@),
{
    let segment = last_path_segment(path);
    if segment.as_str().is_empty() {
        "agent".to_string()
    } else {
        segment
    }
}

fn shorten_id(id: &str) -> (short: String)
    ensures
        short@ == short_id(id@),
{
    let chars = chars_of(id);
    if chars.len() <= 8 {
        id.to_string()
    } else {
        proof {
            assert(id@.subrange(0, 8) =~= id@.take(8));
        }
        text_of(&chars, 0, 8)
    }
}

/// The row of a thread.
pub fn make_picker_row(thread: &PickerThread) -> (row: String)
    ensures
        row@ == picker_row(thread.deep_view()),
        printable_info(thread.deep_view()) ==> row@ == plain_picker_row(thread.deep_view()),
{
    let path = path_of(thread);
    let status = if thread.is_closed {
        "closed"
    } else {
        "open"
    };
    let squeezed = squeeze_text(thread.summary.as_str());
    let end: usize = squeezed.len();
    let summary = text_of(&squeezed, 0, end);
    proof {
        assert(squeezed@.subrange(0, end as int) =~= squeezed@);
    }
    let mut cells: Vec<String> = Vec::new();
    cells.push(fit_cell(status, PICKER_STATUS_WIDTH));
    cells.push(fit_cell(task_of(path.as_str()).as_str(), PICKER_TASK_WIDTH));
    cells.push(fit_cell(path.as_str(), PICKER_PATH_WIDTH));
    cells.push(fit_cell(shorten_id(thread.id_text.as_str()).as_str(), PICKER_ID_WIDTH));
    cells.push(fit_cell(text_or(&thread.agent_role, "default").as_str(), PICKER_TYPE_WIDTH));
    cells.push(fit_cell(text_or(&thread.agent_nickname, "Agent").as_str(), PICKER_NICKNAME_WIDTH));
    cells.push(truncate_with_ellipsis(summary.as_str(), SUMMARY_WIDTH));
    let ghost info = thread.deep_view();
    proof {
        let shown = shown_path(info);
        assert(cells.deep_view() =~= seq![
            fitted(
                if info.is_closed {
                    "closed"@
                } else {
                    "open"@
                },
                PICKER_STATUS_WIDTH as nat,
            ),
            fitted(shown_task(shown), PICKER_TASK_WIDTH as nat),
            fitted(shown, PICKER_PATH_WIDTH as nat),
            fitted(short_id(info.id_text), PICKER_ID_WIDTH as nat),
            fitted(or_else(info.agent_role, "default"@), PICKER_TYPE_WIDTH as nat),
            fitted(or_else(info.agent_nickname, "Agent"@), PICKER_NICKNAME_WIDTH as nat),
            shortened(squeeze(info.summary), SUMMARY_WIDTH as nat),
        ]);
        reveal_strlit("closed");
        reveal_strlit("open");
        if printable_info(info) {
            assert(cells.deep_view() =~= seq![
                plain_fitted(
                    if info.is_closed {
                        "closed"@
                    } else {
                        "open"@
                    },
                    PICKER_STATUS_WIDTH as nat,
                ),
                plain_fitted(shown_task(shown), PICKER_TASK_WIDTH as nat),
                plain_fitted(shown, PICKER_PATH_WIDTH as nat),
                plain_fitted(short_id(info.id_text), PICKER_ID_WIDTH as nat),
                plain_fitted(or_else(info.agent_role, "default"@), PICKER_TYPE_WIDTH as nat),
                plain_fitted(or_else(info.agent_nickname, "Agent"@), PICKER_NICKNAME_WIDTH as nat),
                plain_shortened(squeeze(info.summary), SUMMARY_WIDTH as nat),
            ]);
        }
    }
    join_texts(&cells, "  ")
}

/// Whether `s` stands on one line.
pub open spec fn one_line(s: Seq<char>) -> bool {
    forall|i: int| 0 <= i < s.len() ==> #[trigger] s[i] != '\n'
}

proof fn lemma_prefix_one_line(s: Seq<char>, head: Seq<char>)
    requires
        one_line(s),
        head.is_prefix_of(s),
    ensures
        one_line(head),
{
    assert forall|i: int| 0 <= i < head.len() implies #[trigger] head[i] != '\n' by {
        assert(head[i] == s[i]);
    }
}

proof fn lemma_shortened_one_line(s: Seq<char>, width: nat)
    requires
        one_line(s),
    ensures
        one_line(shortened(s, width)),
        one_line(fitted(s, width)),
{
    reveal_strlit("...");
    if text_columns(s) > width && width > 3 {
        let cut = truncated(s, (width - 3) as nat);
        lemma_truncated(s, (width - 3) as nat);
        lemma_prefix_one_line(s, cut);
        lemma_strip_spaces(cut);
        lemma_prefix_one_line(cut, strip_spaces(cut));
    }
    let short = shortened(s, width);
    assert(one_line(short));
    let long = fitted(s, width);
    assert forall|i: int| 0 <= i < long.len() implies #[trigger] long[i] != '\n' by {
        if i < short.len() {
            assert(long[i] == short[i]);
        }
    }
}

proof fn lemma_joined_one_line(parts: Seq<Seq<char>>, separator: Seq<char>)
    requires
        forall|i: int| 0 <= i < parts.len() ==> one_line(#[trigger] parts[i]),
        one_line(separator),
    ensures
        one_line(joined(parts, separator)),
    decreases parts.len(),
{
    if parts.len() >= 2 {
        let rest = parts.drop_last();
        assert forall|i: int| 0 <= i < rest.len() implies one_line(#[trigger] rest[i]) by {
            assert(rest[i] == parts[i]);
        }
        lemma_joined_one_line(rest, separator);
        assert(one_line(parts[parts.len() - 1]));
    } else if parts.len() == 1 {
        assert(one_line(parts[0]));
    }
}

proof fn lemma_last_segment_one_line(path: Seq<char>)
    requires
        one_line(path),
    ensures
        one_line(last_segment(path)),
    decreases path.len(),
{
    if path.len() > 0 && path.last() != '/' {
        lemma_prefix_one_line(path, path.drop_last());
        lemma_last_segment_one_line(path.drop_last());
        assert(path[path.len() - 1] != '\n');
    }
}

/// A row stands on one line, whatever the summary holds.
pub proof fn lemma_picker_row_is_one_line(info: PickerInfo)
    requires
        info.agent_path is Some ==> one_line(info.agent_path->0),
        info.agent_role is Some ==> one_line(info.agent_role->0),
        info.agent_nickname is Some ==> one_line(info.agent_nickname->0),
        one_line(info.id_text),
    ensures
        one_line(picker_row(info)),
{
    reveal_strlit("closed");
    reveal_strlit("open");
    reveal_strlit("/root/?");
    reveal_strlit("agent");
    reveal_strlit("default");
    reveal_strlit("Agent");
    reveal_strlit("  ");
    let status = if info.is_closed {
        "closed"@
    } else {
        "open"@
    };
    let path = shown_path(info);
    let task = shown_task(path);
    let id = short_id(info.id_text);
    let role = or_else(info.agent_role, "default"@);
    let nickname = or_else(info.agent_nickname, "Agent"@);
    let summary = squeeze(info.summary);
    assert(one_line(path));
    lemma_last_segment_one_line(path);
    assert(one_line(task));
    assert(id.is_prefix_of(info.id_text)) by {
        assert(info.id_text =~= info.id_text.take(info.id_text.len() as int));
    }
    lemma_prefix_one_line(info.id_text, id);
    assert(one_line(role));
    assert(one_line(nickname));
    assert(one_line(summary)) by {
        lemma_squeeze(info.summary);
        assert(is_space('\n'));
    }
    lemma_shortened_one_line(status, PICKER_STATUS_WIDTH as nat);
    lemma_shortened_one_line(task, PICKER_TASK_WIDTH as nat);
    lemma_shortened_one_line(path, PICKER_PATH_WIDTH as nat);
    lemma_shortened_one_line(id, PICKER_ID_WIDTH as nat);
    lemma_shortened_one_line(role, PICKER_TYPE_WIDTH as nat);
    lemma_shortened_one_line(nickname, PICKER_NICKNAME_WIDTH as nat);
    lemma_shortened_one_line(summary, SUMMARY_WIDTH as nat);
    let cells = seq![
        fitted(status, PICKER_STATUS_WIDTH as nat),
        fitted(task, PICKER_TASK_WIDTH as nat),
        fitted(path, PICKER_PATH_WIDTH as nat),
        fitted(id, PICKER_ID_WIDTH as nat),
        fitted(role, PICKER_TYPE_WIDTH as nat),
        fitted(nickname, PICKER_NICKNAME_WIDTH as nat),
        shortened(summary, SUMMARY_WIDTH as nat),
    ];
    lemma_joined_one_line(cells, "  "@);
    assert(picker_row(info) == joined(cells, "  "@));
}

/// `known` and what `more` adds to it.
pub open spec fn joined_ids(known: Seq<ThreadId>, more: Seq<ThreadId>) -> Seq<ThreadId> {
    known + more.filter(|id: ThreadId| !known.contains(id))
}

/// What the `/agent` command shows.
#[derive(Debug, PartialEq, Eq)]
pub enum AgentPicker {
    /// The offer to switch agents on.
    EnablePrompt,
    /// A message.
    Info(String),
    /// The agents of the session.
    Show(SelectionView),
}

impl App {
    /// The threads that are looked at before the picker opens: those that it knows
    /// and those whose events are kept, but no side threads.
    pub open spec fn picker_candidates(&self) -> Seq<ThreadId> {
        joined_ids(
            self.agent_navigation.threads.keys(),
            self.thread_event_channels.keys(),
        ).filter(|id: ThreadId| !self.side_threads.keys().contains(id))
    }

    /// The threads that are looked at before the picker opens.
    pub fn picker_thread_ids(&self) -> (ids: Vec<ThreadId>)
        ensures
            ids@ == self.picker_candidates(),
    {
        let known = self.agent_navigation.threads.ids();
        let channels = self.thread_event_channels.ids();
        let ghost fresh = |id: ThreadId| !known@.contains(id);
        let ghost shown = |id: ThreadId| !self.side_threads.keys().contains(id);
        let mut all: Vec<ThreadId> = self.agent_navigation.threads.ids();
        let mut i: usize = 0;
        proof {
            assert(channels@.take(0).filter(fresh) =~= Seq::empty()) by {
                reveal(Seq::filter);
            }
            assert(known@ + Seq::empty() =~= known@);
        }
        while i < channels.len()
            invariant
                i <= channels@.len(),
                channels@ == self.thread_event_channels.keys(),
                known@ == self.agent_navigation.threads.keys(),
                fresh == (|id: ThreadId| !known@.contains(id)),
                all@ == known@ + channels@.take(i as int).filter(fresh),
            decreases channels@.len() - i,
        {
            proof {
                assert(channels@.take(i + 1) =~= channels@.take(i as int).push(
                    channels@[i as int],
                ));
                channels@.take(i as int).lemma_filter_push(channels@[i as int], fresh);
            }
            if !self.agent_navigation.threads.contains(channels[i]) {
                let ghost before = all@;
                all.push(channels[i]);
                proof {
                    assert(all@ =~= known@ + channels@.take(i + 1).filter(fresh));
                }
            }
            i += 1;
        }
        proof {
            assert(channels@.take(i as int) =~= channels@);
        }
        let mut ids: Vec<ThreadId> = Vec::new();
        let mut k: usize = 0;
        proof {
            assert(all@.take(0).filter(shown) =~= Seq::empty()) by {
                reveal(Seq::filter);
            }
        }
        while k < all.len()
            invariant
                k <= all@.len(),
                all@ == joined_ids(
                    self.agent_navigation.threads.keys(),
                    self.thread_event_channels.keys(),
                ),
                shown == (|id: ThreadId| !self.side_threads.keys().contains(id)),
                ids@ == all@.take(k as int).filter(shown),
            decreases all@.len() - k,
        {
            proof {
                assert(all@.take(k + 1) =~= all@.take(k as int).push(all@[k as int]));
                all@.take(k as int).lemma_filter_push(all@[k as int], shown);
            }
            if !self.side_threads.contains(all[k]) {
                ids.push(all[k]);
            }
            k += 1;
        }
        proof {
            assert(all@.take(k as int) =~= all@);
        }
        ids
    }

    /// The thread with the picker entry at `i`, with what else is known of it.
    pub open spec fn picker_info(&self, i: int) -> PickerInfo {
        let (id, entry) = self.agent_navigation.threads.entries@[i];
        let details = self.thread_details.value(id);
        PickerInfo {
            thread_id: id,
            id_text: id.text(),
            agent_path: match details {
                Some(details) => details.agent_path.deep_view(),
                None => None,
            },
            agent_nickname: entry.agent_nickname.deep_view(),
            agent_role: entry.agent_role.deep_view(),
            is_closed: entry.is_closed,
            summary: match details {
                Some(details) => match details.summary {
                    Some(summary) => summary@,
                    None => Seq::empty(),
                },
                None => Seq::empty(),
            },
        }
    }

    /// The threads that the picker shows, by agent path and id.
    pub open spec fn picker_infos(&self) -> Seq<PickerInfo> {
        ordered::<PickerThread>(
            Seq::new(self.agent_navigation.threads.entries@.len(), |i: int| self.picker_info(i)),
        )
    }

    /// The threads that the picker shows, by agent path and id.
    fn picker_threads(&self) -> (threads: Vec<PickerThread>)
        requires
            self.maps_wf(),
        ensures
            threads.deep_view() == self.picker_infos(),
    {
        let mut threads: Vec<PickerThread> = Vec::new();
        let mut i: usize = 0;
        while i < self.agent_navigation.threads.entries.len()
            invariant
                i <= self.agent_navigation.threads.entries@.len(),
                self.maps_wf(),
                threads@.len() == i,
                forall|k: int|
                    0 <= k < i ==> (#[trigger] threads@[k]).deep_view() == self.picker_info(k),
            decreases self.agent_navigation.threads.entries@.len() - i,
        {
            let id = self.agent_navigation.threads.entries[i].0;
            let entry = &self.agent_navigation.threads.entries[i].1;
            let (agent_path, summary) = match self.thread_details.get(id) {
                Some(details) => (
                    copy_opt(&details.agent_path),
                    match &details.summary {
                        Some(summary) => summary.clone(),
                        None => String::new(),
                    },
                ),
                None => (None, String::new()),
            };
            threads.push(
                PickerThread {
                    thread_id: id,
                    id_text: id.to_text(),
                    agent_path,
                    agent_nickname: copy_opt(&entry.agent_nickname),
                    agent_role: copy_opt(&entry.agent_role),
                    is_closed: entry.is_closed,
                    summary,
                },
            );
            proof {
                assert(threads@[i as int].deep_view().summary =~= self.picker_info(
                    i as int,
                ).summary);
            }
            i += 1;
        }
        proof {
            assert(threads.deep_view() =~= Seq::new(
                self.agent_navigation.threads.entries@.len(),
                |i: int| self.picker_info(i),
            ));
        }
        stable_sort(threads)
    }

    /// Whether `item` shows the thread `info`.
    pub open spec fn item_shows(&self, item: SelectionItem, info: PickerInfo) -> bool {
        &&& item.name@ == picker_row(info)
        &&& item.description is Some
        &&& item.description->0@ == info.id_text
        &&& item.search_value is Some
        &&& item.search_value->0@ == picker_row(info) + " "@ + info.id_text
        &&& item.is_current == (self.active_thread_id == Some(info.thread_id))
        &&& item.is_closed == Some(info.is_closed)
        &&& item.event == AppEvent::SelectAgentThread(info.thread_id)
    }

    /// What the `/agent` command shows, once the threads have been looked at.
    pub fn open_agent_picker(&self, collab_enabled: bool, subtitle: String) -> (picker: AgentPicker)
        requires
            self.maps_wf(),
        ensures
            ({
                let keys = self.agent_navigation.threads.keys();
                let only_primary = forall|i: int|
                    0 <= i < keys.len() ==> Some(#[trigger] keys[i]) == self.primary_thread_id;
                let infos = self.picker_infos();
                if !collab_enabled && only_primary {
                    picker == AgentPicker::EnablePrompt
                } else if keys.len() == 0 {
                    picker is Info && picker->Info_0@ == "No agents available yet."@
                } else {
                    &&& picker is Show
                    &&& picker->Show_0.title@ == "Subagents"@
                    &&& picker->Show_0.subtitle == subtitle
                    &&& !picker->Show_0.is_searchable
                    &&& picker->Show_0.items@.len() == infos.len()
                    &&& forall|i: int|
                        0 <= i < infos.len() ==> self.item_shows(
                            #[trigger] picker->Show_0.items@[i],
                            infos[i],
                        )
                    &&& match picker->Show_0.initial_selected_idx {
                        Some(idx) => idx < infos.len() && self.active_thread_id == Some(
                            infos[idx as int].thread_id,
                        ),
                        None => forall|i: int|
                            0 <= i < infos.len() ==> self.active_thread_id != Some(
                                (#[trigger] infos[i]).thread_id,
                            ),
                    }
                }
            }),
    {
        let has_non_primary = self.agent_navigation.has_non_primary_thread(self.primary_thread_id);
        if !collab_enabled && !has_non_primary {
            return AgentPicker::EnablePrompt;
        }
        if self.agent_navigation.is_empty() {
            return AgentPicker::Info("No agents available yet.".to_string());
        }
        let threads = self.picker_threads();
        let ghost infos = self.picker_infos();
        let mut items: Vec<SelectionItem> = Vec::new();
        let mut initial_selected_idx: Option<usize> = None;
        let mut i: usize = 0;
        while i < threads.len()
            invariant
                i <= threads@.len(),
                threads.deep_view() == infos,
                items@.len() == i,
                forall|k: int| 0 <= k < i ==> self.item_shows(#[trigger] items@[k], infos[k]),
                match initial_selected_idx {
                    Some(idx) => idx < i && self.active_thread_id == Some(
                        infos[idx as int].thread_id,
                    ),
                    None => forall|k: int|
                        0 <= k < i ==> self.active_thread_id != Some(
                            (#[trigger] infos[k]).thread_id,
                        ),
                },
            decreases threads@.len() - i,
        {
            let thread = &threads[i];
            proof {
                assert(infos[i as int] == thread.deep_view());
            }
            let is_current = match self.active_thread_id {
                Some(active) => active == thread.thread_id,
                None => false,
            };
            if is_current {
                initial_selected_idx = Some(i);
            }
            let row = make_picker_row(thread);
            let search_value = glue3(row.as_str(), " ", thread.id_text.as_str());
            items.push(
                SelectionItem {
                    name: row,
                    description: Some(thread.id_text.clone()),
                    search_value: Some(search_value),
                    is_current,
                    is_closed: Some(thread.is_closed),
                    event: AppEvent::SelectAgentThread(thread.thread_id),
                },
            );
            i += 1;
        }
        AgentPicker::Show(
            SelectionView {
                title: "Subagents".to_string(),
                subtitle,
                items,
                initial_selected_idx,
                is_searchable: false,
            },
        )
    }
}

/// The picker shows each thread that it knows, and nothing else, by agent path and
/// id.
pub proof fn lemma_picker_infos(app: App, info: PickerInfo)
    ensures
        app.picker_infos().len() == app.agent_navigation.threads.keys().len(),
        in_order::<PickerThread>(app.picker_infos()),
        app.picker_infos().contains(info) <==> exists|i: int|
            0 <= i < app.agent_navigation.threads.keys().len() && info == #[trigger]
                app.picker_info(i),
{
    let given = Seq::new(
        app.agent_navigation.threads.entries@.len(),
        |i: int| app.picker_info(i),
    );
    lemma_ordered::<PickerThread>(given, info);
    lemma_ordered_contains::<PickerThread>(given, info);
    if given.contains(info) {
        let i = given.index_of(info);
        assert(info == app.picker_info(i));
    }
    if exists|i: int|
        0 <= i < app.agent_navigation.threads.keys().len() && info == #[trigger]
            app.picker_info(i) {
        let i = choose|i: int|
            0 <= i < app.agent_navigation.threads.keys().len() && info == #[trigger]
                app.picker_info(i);
        assert(given[i] == info);
    }
}

/// A thread that can be brought back, as a picker shows it.
pub open spec fn history_info(thread: Thread) -> PickerInfo {
    PickerInfo {
        thread_id: thread.thread_id->0,
        id_text: thread.id@,
        agent_path: spawn_path(thread.source),
        agent_nickname: thread.agent_nickname.deep_view(),
        agent_role: thread.agent_role.deep_view(),
        is_closed: true,
        summary: or_else(thread.name.deep_view(), thread.preview@),
    }
}

fn history_thread(thread: &Thread, thread_id: ThreadId) -> (shown: PickerThread)
    requires
        thread.thread_id == Some(thread_id),
    ensures
        shown.deep_view() == history_info(*thread),
{
    PickerThread {
        thread_id,
        id_text: thread.id.clone(),
        agent_path: agent_path_from_thread(thread),
        agent_nickname: copy_opt(&thread.agent_nickname),
        agent_role: copy_opt(&thread.agent_role),
        is_closed: true,
        summary: text_or(&thread.name, thread.preview.as_str()),
    }
}

/// Whether `item` shows the thread `info`, which can be brought back.
pub open spec fn history_item_shows(item: SelectionItem, info: PickerInfo) -> bool {
    let path = shown_path(info);
    let task = shown_task(path);
    let nickname = or_else(info.agent_nickname, "Agent"@);
    let role = or_else(info.agent_role, "default"@);
    &&& item.name@ == picker_row(info)
    &&& item.description is Some
    &&& item.description->0@ == "task="@ + task + " path="@ + path + (" thread="@ + short_id(
        info.id_text,
    ) + " summary="@ + info.summary)
    &&& item.search_value is Some
    &&& item.search_value->0@ == joined(
        seq![nickname, role, task, path, info.id_text, info.summary],
        " "@,
    )
    &&& !item.is_current
    &&& item.is_closed == Some(true)
    &&& item.event == AppEvent::ChooseAgentResumeScope(info.thread_id)
}

fn history_item(thread: &PickerThread) -> (item: SelectionItem)
    requires
        thread.is_closed,
    ensures
        history_item_shows(item, thread.deep_view()),
{
    let path = path_of(thread);
    let task = task_of(path.as_str());
    let nickname = text_or(&thread.agent_nickname, "Agent");
    let role = text_or(&thread.agent_role, "default");
    let short = shorten_id(thread.id_text.as_str());
    let mut description = glue4("task=", task.as_str(), " path=", path.as_str());
    let rest = glue4(" thread=", short.as_str(), " summary=", thread.summary.as_str());
    description = glue(description.as_str(), rest.as_str());
    let ghost info = thread.deep_view();
    let mut parts: Vec<String> = Vec::new();
    parts.push(nickname);
    parts.push(role);
    parts.push(task);
    parts.push(path);
    parts.push(thread.id_text.clone());
    parts.push(thread.summary.clone());
    proof {
        assert(parts.deep_view() =~= seq![
            or_else(info.agent_nickname, "Agent"@),
            or_else(info.agent_role, "default"@),
            shown_task(shown_path(info)),
            shown_path(info),
            info.id_text,
            info.summary,
        ]);
    }
    SelectionItem {
        name: make_picker_row(thread),
        description: Some(description),
        search_value: Some(join_texts(&parts, " ")),
        is_current: false,
        is_closed: Some(true),
        event: AppEvent::ChooseAgentResumeScope(thread.thread_id),
    }
}

/// What the `/agent resume` command shows.
#[derive(Debug, PartialEq, Eq)]
pub enum ResumePicker {
    Error(String),
    Info { message: String, hint: String },
    Show(SelectionView),
}

/// What the `/agent resume` command shows, given the threads that can be brought
/// back.
pub fn open_agent_resume_picker(threads: Result<Vec<Thread>, String>) -> (picker: ResumePicker)
    requires
        threads is Ok ==> forall|i: int|
            0 <= i < threads->Ok_0@.len() ==> (#[trigger] threads->Ok_0@[i]).thread_id is Some,
    ensures
        match threads {
            Err(err) => picker is Error && picker->Error_0@
                == "Failed to list recoverable agents: "@ + err@,
            Ok(threads) => if threads@.len() == 0 {
                &&& picker is Info
                &&& picker->message@ == "No recoverable agents found."@
                &&& picker->hint@
                    == "Use /agent to switch among agents already loaded in this session."@
            } else {
                &&& picker is Show
                &&& picker->Show_0.title@ == "Subagents"@
                &&& picker->Show_0.subtitle@
                    == "Recoverable historical agents not loaded in this session."@
                &&& picker->Show_0.initial_selected_idx is None
                &&& picker->Show_0.is_searchable
                &&& picker->Show_0.items@.len() == threads@.len() + 1
                &&& picker->Show_0.items@[0].name@ == "Resume all shown agents"@
                &&& picker->Show_0.items@[0].description is Some
                &&& picker->Show_0.items@[0].description->0@ == decimal(threads@.len())
                    + " recoverable agents"@
                &&& picker->Show_0.items@[0].search_value is Some
                &&& picker->Show_0.items@[0].search_value->0@ == "resume all recoverable agents"@
                &&& !picker->Show_0.items@[0].is_current
                &&& picker->Show_0.items@[0].is_closed is None
                &&& picker->Show_0.items@[0].event == AppEvent::ResumeAllRecoverableAgents
                &&& forall|i: int|
                    0 <= i < threads@.len() ==> history_item_shows(
                        #[trigger] picker->Show_0.items@[i + 1],
                        history_info(threads@[i]),
                    )
            },
        },
{
    let threads = match threads {
        Ok(threads) => threads,
        Err(err) => {
            return ResumePicker::Error(
                glue("Failed to list recoverable agents: ", err.as_str()),
            );
        },
    };
    if threads.len() == 0 {
        return ResumePicker::Info {
            message: "No recoverable agents found.".to_string(),
            hint: "Use /agent to switch among agents already loaded in this session.".to_string(),
        };
    }
    let count = decimal_text(threads.len() as u64);
    let mut items: Vec<SelectionItem> = Vec::new();
    items.push(
        SelectionItem {
            name: "Resume all shown agents".to_string(),
            description: Some(glue(count.as_str(), " recoverable agents")),
            search_value: Some("resume all recoverable agents".to_string()),
            is_current: false,
            is_closed: None,
            event: AppEvent::ResumeAllRecoverableAgents,
        },
    );
    let ghost first = items@[0];
    let mut i: usize = 0;
    while i < threads.len()
        invariant
            i <= threads@.len(),
            forall|k: int| 0 <= k < threads@.len() ==> (#[trigger] threads@[k]).thread_id is Some,
            items@.len() == i + 1,
            items@[0] == first,
            forall|k: int|
                0 <= k < i ==> history_item_shows(
                    #[trigger] items@[k + 1],
                    history_info(threads@[k]),
                ),
        decreases threads@.len() - i,
    {
        let ghost before = items@;
        if let Some(id) = threads[i].thread_id {
            let shown = history_thread(&threads[i], id);
            items.push(history_item(&shown));
            proof {
                assert forall|k: int| 0 <= k < i + 1 implies history_item_shows(
                    #[trigger] items@[k + 1],
                    history_info(threads@[k]),
                ) by {
                    if k < i {
                        assert(items@[k + 1] == before[k + 1]);
                    }
                }
            }
        }
        i += 1;
    }
    ResumePicker::Show(
        SelectionView {
            title: "Subagents".to_string(),
            subtitle: "Recoverable historical agents not loaded in this session.".to_string(),
            items,
            initial_selected_idx: None,
            is_searchable: true,
        },
    )
}

/// The ids of the threads among `threads` that lie below `path`.
pub open spec fn ids_below(threads: Seq<Thread>, path: Seq<char>) -> Seq<ThreadId>
    decreases threads.len(),
{
    if threads.len() == 0 {
        Seq::empty()
    } else {
        let before = ids_below(threads.drop_last(), path);
        let thread = threads.last();
        match (thread.thread_id, spawn_path(thread.source)) {
            (Some(id), Some(below)) => if is_below(below, path) {
                before.push(id)
            } else {
                before
            },
            _ => before,
        }
    }
}

/// The thread `id` and those among `threads` that lie below its path.
pub open spec fn ids_with_descendants(
    id: ThreadId,
    path: Option<Seq<char>>,
    threads: Seq<Thread>,
) -> Seq<ThreadId> {
    match path {
        Some(path) => seq![id] + ids_below(threads, path),
        None => seq![id],
    }
}

/// The thread `id` and those among `threads` that lie below its path.
pub fn resume_with_descendants(
    id: ThreadId,
    path: &Option<String>,
    threads: &Vec<Thread>,
) -> (ids: Vec<ThreadId>)
    ensures
        ids@ == ids_with_descendants(id, path.deep_view(), threads@),
{
    let mut ids: Vec<ThreadId> = Vec::new();
    ids.push(id);
    let above = match path {
        Some(path) => path,
        None => {
            return ids;
        },
    };
    let mut i: usize = 0;
    proof {
        assert(threads@.take(0) =~= Seq::empty());
        assert(ids@ =~= seq![id] + Seq::empty());
    }
    while i < threads.len()
        invariant
            i <= threads@.len(),
            ids@ == seq![id] + ids_below(threads@.take(i as int), above@),
        decreases threads@.len() - i,
    {
        let ghost before = ids@;
        proof {
            assert(threads@.take(i + 1).drop_last() =~= threads@.take(i as int));
            assert(threads@.take(i + 1).last() == threads@[i as int]);
        }
        let thread = &threads[i];
        if let Some(thread_id) = thread.thread_id {
            if let Some(below) = agent_path_from_thread(thread) {
                if path_is_below(below.as_str(), above.as_str()) {
                    ids.push(thread_id);
                    proof {
                        assert(ids@ =~= seq![id] + ids_below(threads@.take(i + 1), above@));
                    }
                }
            }
        }
        i += 1;
    }
    proof {
        assert(threads@.take(i as int) =~= threads@);
    }
    ids
}

/// The path of the agent whose thread is `id`, where it is among `threads`.
pub open spec fn path_among(threads: Seq<Thread>, id: ThreadId) -> Option<Seq<char>>
    decreases threads.len(),
{
    if threads.len() == 0 {
        None
    } else if threads[0].thread_id == Some(id) {
        spawn_path(threads[0].source)
    } else {
        path_among(threads.drop_first(), id)
    }
}

/// The path of the agent whose thread is `id`, where it is among `threads`.
pub fn path_of_thread(threads: &Vec<Thread>, id: ThreadId) -> (path: Option<String>)
    ensures
        path.deep_view() == path_among(threads@, id),
{
    let mut i: usize = 0;
    proof {
        assert(threads@.skip(0) =~= threads@);
    }
    while i < threads.len()
        invariant
            i <= threads@.len(),
            path_among(threads@, id) == path_among(threads@.skip(i as int), id),
        decreases threads@.len() - i,
    {
        proof {
            assert(threads@.skip(i as int).drop_first() =~= threads@.skip(i + 1));
            assert(threads@.skip(i as int)[0] == threads@[i as int]);
        }
        if let Some(thread_id) = threads[i].thread_id {
            if thread_id == id {
                return agent_path_from_thread(&threads[i]);
            }
        }
        i += 1;
    }
    None
}

/// The second picker of `/agent resume`: bring back only the thread that was
/// chosen, or also what can be brought back below it.
pub fn open_agent_resume_scope_picker(id: ThreadId, threads: &Vec<Thread>) -> (view:
    SelectionView)
    ensures
        view.title@ == "Resume subagent"@,
        view.subtitle@ == "Choose how much of the agent tree to restore."@,
        !view.is_searchable,
        view.items@.len() == 2,
        forall|i: int|
            0 <= i < 2 ==> (#[trigger] view.items@[i]).description is None
                && view.items@[i].search_value is None && !view.items@[i].is_current
                && view.items@[i].is_closed is None,
        view.initial_selected_idx == Some(0usize),
        view.items@[0].name@ == "Resume only this agent"@,
        view.items@[0].event == AppEvent::ResumeAgentThread(id),
        view.items@[1].name@ == "Resume this agent and its descendants"@,
        view.items@[1].event is ResumeAgentThreads,
        view.items@[1].event->ResumeAgentThreads_0@ == ids_with_descendants(
            id,
            path_among(threads@, id),
            threads@,
        ),
{
    let path = path_of_thread(threads, id);
    let ids = resume_with_descendants(id, &path, threads);
    let mut items: Vec<SelectionItem> = Vec::new();
    items.push(
        SelectionItem {
            name: "Resume only this agent".to_string(),
            description: None,
            search_value: None,
            is_current: false,
            is_closed: None,
            event: AppEvent::ResumeAgentThread(id),
        },
    );
    items.push(
        SelectionItem {
            name: "Resume this agent and its descendants".to_string(),
            description: None,
            search_value: None,
            is_current: false,
            is_closed: None,
            event: AppEvent::ResumeAgentThreads(ids),
        },
    );
    SelectionView {
        title: "Resume subagent".to_string(),
        subtitle: "Choose how much of the agent tree to restore.".to_string(),
        items,
        initial_selected_idx: Some(0),
        is_searchable: false,
    }
}

/// What is told after all threads have been tried: how many could be brought back.
pub fn resumed_message(resumed: usize, total: usize) -> (message: String)
    ensures
        message@ == "Resumed "@ + decimal(resumed as nat) + " of "@ + decimal(total as nat)
            + " recoverable agents."@,
{
    let head = glue4(
        "Resumed ",
        decimal_text(resumed as u64).as_str(),
        " of ",
        decimal_text(total as u64).as_str(),
    );
    glue(head.as_str(), " recoverable agents.")
}

/// The thread to switch to after an attempt to bring back each of `ids`: the first of
/// them, where it is back.
pub fn thread_to_select(ids: &Vec<ThreadId>, attempts: &Vec<bool>) -> (selected: Option<ThreadId>)
    ensures
        selected == if ids@.len() > 0 && attempts@.len() > 0 && attempts@[0] {
            Some(ids@[0])
        } else {
            None
        },
{
    if ids.len() > 0 && attempts.len() > 0 && attempts[0] {
        Some(ids[0])
    } else {
        None
    }
}

/// How many attempts succeeded.
pub open spec fn successes(attempts: Seq<bool>) -> nat
    decreases attempts.len(),
{
    if attempts.len() == 0 {
        0
    } else {
        successes(attempts.drop_last()) + if attempts.last() {
            1nat
        } else {
            0nat
        }
    }
}

/// What is told after an attempt to bring back each of `total` threads; a thread
/// without a well-formed id is not attempted.
pub fn resume_all_recoverable_agent_threads(attempts: &Vec<bool>, total: usize) -> (message: String)
    requires
        attempts@.len() <= total,
    ensures
        message@ == "Resumed "@ + decimal(successes(attempts@)) + " of "@ + decimal(total as nat)
            + " recoverable agents."@,
{
    let mut resumed: usize = 0;
    let mut i: usize = 0;
    proof {
        assert(attempts@.take(0) =~= Seq::empty());
    }
    while i < attempts.len()
        invariant
            i <= attempts@.len(),
            resumed <= i,
            resumed == successes(attempts@.take(i as int)),
        decreases attempts@.len() - i,
    {
        proof {
            assert(attempts@.take(i + 1).drop_last() =~= attempts@.take(i as int));
            assert(attempts@.take(i + 1).last() == attempts@[i as int]);
        }
        if attempts[i] {
            resumed += 1;
        }
        i += 1;
    }
    proof {
        assert(attempts@.take(i as int) =~= attempts@);
    }
    resumed_message(resumed, total)
}

} // verus!
