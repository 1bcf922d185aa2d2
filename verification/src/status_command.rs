//! The `codexx status` command: which sessions it finds and how it shows them.

use vstd::prelude::*;

use crate::agent_tree::{
    AgentTreeNode, AgentTreeResponse, ThreadInfo, Tree, ROOT_AGENT_PATH, ROOT_TASK_NAME,
};
use crate::agent_tree_laws::preorder;
use crate::cells::{
    all_printable, fit_cell, fitted, lemma_shortened_within, plain_fitted, plain_shortened,
    plain_wrapped, repeat_char, repeated, shortened, truncate_with_ellipsis, within_columns,
    wrap_summary_lines, wrapped, SUMMARY_WIDTH,
};
use crate::order::{
    in_order, lemma_ordered, lemma_ordered_contains, ordered, stable_sort, Ranked,
};
use crate::paths::{file_extension, has_extension};
use crate::status_ipc::{StatusMetadata, StatusSummary};
use crate::text::{
    copy_opt, copy_texts, decimal, decimal_text, glue3, join_texts, joined, same_text, squeeze,
};

verus! {

pub const NO_LIVE_TUI_MESSAGE: &'static str = "No live codexx TUI sessions found.";

pub const COLUMN_SEPARATOR: &'static str = "  ";

pub const PID_WIDTH: usize = 8;

pub const TUI_WORK_WIDTH: usize = 16;

pub const THREAD_WORK_WIDTH: usize = 16;

pub const THREAD_ID_WIDTH: usize = 36;

pub const AGENT_PATH_WIDTH: usize = 24;

pub const TASK_NAME_WIDTH: usize = 16;

pub const AGENT_TYPE_WIDTH: usize = 12;

pub const NICKNAME_WIDTH: usize = 14;

/// The columns of a whole line of the table.
pub const STATUS_TABLE_WIDTH: usize = 190;

/// The options of the command.
#[derive(Debug, Clone)]
pub struct StatusCommand {
    /// Print machine-readable JSON instead of the default table.
    pub json: bool,
}

/// A session that answered.
#[derive(Debug, PartialEq, Eq)]
pub struct LiveStatusSession {
    pub summary: StatusSummary,
    pub tree: AgentTreeResponse,
}

/// What a session told: its summary, and the trees of its threads.
#[verifier::ext_equal]
pub struct SessionInfo {
    pub summary: StatusSummary,
    pub forest: Seq<Tree>,
}

impl DeepView for LiveStatusSession {
    type V = SessionInfo;

    open spec fn deep_view(&self) -> SessionInfo {
        SessionInfo { summary: self.summary, forest: self.tree.deep_view() }
    }
}

impl Ranked for LiveStatusSession {
    open spec fn ranks_before(a: SessionInfo, b: SessionInfo) -> bool {
        a.summary.pid < b.summary.pid
    }

    fn precedes(&self, other: &Self) -> (before: bool) {
        self.summary.pid < other.summary.pid
    }

    proof fn lemma_ranks(a: SessionInfo, b: SessionInfo, c: SessionInfo) {
    }
}

/// A thread of a session.
#[derive(Debug, PartialEq, Eq)]
pub struct StatusRow {
    pub pid: u32,
    pub thread_state: String,
    pub active_flags: Vec<String>,
    pub thread_id: String,
    pub agent_path: Option<String>,
    pub task_name: Option<String>,
    pub agent_type: Option<String>,
    pub nickname: Option<String>,
    pub summary: Option<String>,
}

impl StatusRow {
    /// Whether the row shows `thread` of the process `pid`.
    pub open spec fn shows(&self, pid: u32, thread: ThreadInfo) -> bool {
        &&& self.pid == pid
        &&& self.thread_state@ == thread.status
        &&& self.active_flags.deep_view() == thread.active_flags
        &&& self.thread_id@ == thread.thread_id
        &&& self.agent_path.deep_view() == thread.agent_path
        &&& self.task_name.deep_view() == thread.task_name
        &&& self.agent_type.deep_view() == thread.agent_type
        &&& self.nickname.deep_view() == thread.agent_nickname
        &&& self.summary.deep_view() == thread.summary
    }
}

/// Whether `rows` show the threads `threads` of the process `pid`, in order.
pub open spec fn rows_show(rows: Seq<StatusRow>, pid: u32, threads: Seq<ThreadInfo>) -> bool {
    &&& rows.len() == threads.len()
    &&& forall|i: int| 0 <= i < rows.len() ==> (#[trigger] rows[i]).shows(pid, threads[i])
}

/// Appends the rows of a node: its own, and then those of what hangs below it.
pub fn collect_rows(pid: u32, node: &AgentTreeNode, rows: &mut Vec<StatusRow>)
    ensures
        final(rows)@.len() == old(rows)@.len() + 1 + preorder(node.tree().children).len(),
        final(rows)@.take(old(rows)@.len() as int) == old(rows)@,
        rows_show(
            final(rows)@.skip(old(rows)@.len() as int),
            pid,
            seq![node.thread()] + preorder(node.tree().children),
        ),
    decreases node,
{
    let ghost before = rows@;
    let ghost children = node.tree().children;
    let ghost own = seq![node.thread()];
    rows.push(
        StatusRow {
            pid,
            thread_state: node.status.clone(),
            active_flags: copy_texts(&node.active_flags),
            thread_id: node.thread_id.clone(),
            agent_path: copy_opt(&node.agent_path),
            task_name: copy_opt(&node.task_name),
            agent_type: copy_opt(&node.agent_type),
            nickname: copy_opt(&node.agent_nickname),
            summary: copy_opt(&node.summary),
        },
    );
    let mut i: usize = 0;
    proof {
        assert(children.take(0) =~= Seq::empty());
        assert(rows@.take(before.len() as int) =~= before);
    }
    while i < node.children.len()
        invariant
            i <= node.children@.len(),
            children == node.tree().children,
            own == seq![node.thread()],
            rows@.len() == before.len() + 1 + preorder(children.take(i as int)).len(),
            rows@.take(before.len() as int) == before,
            rows_show(
                rows@.skip(before.len() as int),
                pid,
                own + preorder(children.take(i as int)),
            ),
        decreases node.children@.len() - i,
    {
        let ghost known = rows@;
        let ghost child = children[i as int];
        collect_rows(pid, &node.children[i], rows);
        proof {
            assert(child == node.children@[i as int].tree());
            let n = before.len() as int;
            let shown = own + preorder(children.take(i as int));
            let more = seq![child.thread] + preorder(child.children);
            assert(children.take(i + 1).drop_last() =~= children.take(i as int));
            assert(children.take(i + 1).last() == child);
            assert(preorder(children.take(i + 1)) =~= preorder(children.take(i as int)) + more);
            assert(own + preorder(children.take(i + 1)) =~= shown + more);
            assert(rows@.take(n) =~= rows@.take(known.len() as int).take(n));
            let all = rows@.skip(n);
            assert forall|k: int| 0 <= k < all.len() implies (#[trigger] all[k]).shows(
                pid,
                (shown + more)[k],
            ) by {
                if k < shown.len() {
                    assert(all[k] == rows@.take(known.len() as int)[n + k]);
                    assert(known.skip(n)[k] == known[n + k]);
                    assert(known.skip(n)[k].shows(pid, shown[k]));
                } else {
                    let m = k - shown.len();
                    assert(all[k] == rows@.skip(known.len() as int)[m]);
                    assert(rows@.skip(known.len() as int)[m].shows(pid, more[m]));
                }
            }
        }
        i += 1;
    }
    proof {
        assert(children.take(i as int) =~= children);
    }
}

/// The rows of a session: each thread before what hangs below it.
pub fn session_rows(session: &LiveStatusSession) -> (rows: Vec<StatusRow>)
    ensures
        rows_show(rows@, session.summary.pid, preorder(session.tree.deep_view())),
{
    let ghost forest = session.tree.deep_view();
    let pid: u32 = session.summary.pid;
    let mut rows: Vec<StatusRow> = Vec::new();
    let mut i: usize = 0;
    proof {
        assert(forest.take(0) =~= Seq::empty());
    }
    while i < session.tree.roots.len()
        invariant
            i <= session.tree.roots@.len(),
            forest == session.tree.deep_view(),
            pid == session.summary.pid,
            rows_show(rows@, pid, preorder(forest.take(i as int))),
        decreases session.tree.roots@.len() - i,
    {
        let ghost known = rows@;
        let ghost root = forest[i as int];
        collect_rows(pid, &session.tree.roots[i], &mut rows);
        proof {
            assert(root == session.tree.roots@[i as int].tree());
            let shown = preorder(forest.take(i as int));
            let more = seq![root.thread] + preorder(root.children);
            assert(forest.take(i + 1).drop_last() =~= forest.take(i as int));
            assert(forest.take(i + 1).last() == root);
            assert(preorder(forest.take(i + 1)) =~= shown + more);
            assert forall|k: int| 0 <= k < rows@.len() implies (#[trigger] rows@[k]).shows(
                pid,
                (shown + more)[k],
            ) by {
                if k < shown.len() {
                    assert(rows@[k] == rows@.take(known.len() as int)[k]);
                    assert(known[k].shows(pid, shown[k]));
                } else {
                    let m = k - shown.len();
                    assert(rows@[k] == rows@.skip(known.len() as int)[m]);
                    assert(rows@.skip(known.len() as int)[m].shows(pid, more[m]));
                }
            }
        }
        i += 1;
    }
    proof {
        assert(forest.take(i as int) =~= forest);
    }
    rows
}

/// The work state of a thread: what an active thread waits for, or that it
/// works; the status itself of any other thread.
pub open spec fn work_state(state: Seq<char>, flags: Seq<Seq<char>>) -> Seq<char> {
    if state != "active"@ {
        state
    } else if flags.contains("waiting_on_approval"@) {
        "waiting_approval"@
    } else if flags.contains("waiting_on_user_input"@) {
        "waiting_input"@
    } else if flags.len() > 0 {
        "waiting"@
    } else {
        "working"@
    }
}

/// Whether `texts` holds `text`.
fn any_text(texts: &Vec<String>, text: &str) -> (any: bool)
    ensures
        any == texts.deep_view().contains(text@),
{
    let mut i: usize = 0;
    while i < texts.len()
        invariant
            i <= texts@.len(),
            forall|k: int| 0 <= k < i ==> texts.deep_view()[k] != text@,
        decreases texts@.len() - i,
    {
        if same_text(texts[i].as_str(), text) {
            proof {
                assert(texts.deep_view()[i as int] == text@);
            }
            return true;
        }
        i += 1;
    }
    false
}

/// The work state of a thread.
pub fn thread_work_state(thread_state: &str, active_flags: &Vec<String>) -> (work: String)
    ensures
        work@ == work_state(thread_state@, active_flags.deep_view()),
{
    if !same_text(thread_state, "active") {
        thread_state.to_string()
    } else if any_text(active_flags, "waiting_on_approval") {
        "waiting_approval".to_string()
    } else if any_text(active_flags, "waiting_on_user_input") {
        "waiting_input".to_string()
    } else if active_flags.len() > 0 {
        "waiting".to_string()
    } else {
        "working".to_string()
    }
}

/// The work states of `threads`.
pub open spec fn work_states(threads: Seq<ThreadInfo>) -> Seq<Seq<char>> {
    threads.map_values(|t: ThreadInfo| work_state(t.status, t.active_flags))
}

/// The work states that `rows` show.
pub open spec fn row_states(rows: Seq<StatusRow>) -> Seq<Seq<char>> {
    rows.map_values(|row: StatusRow| work_state(row.thread_state@, row.active_flags.deep_view()))
}

/// The work state of a session, from those of its threads and from how many of
/// them it says are active.
pub open spec fn session_work(active_thread_count: nat, states: Seq<Seq<char>>) -> Seq<char> {
    if states.contains("working"@) {
        "working"@
    } else if states.contains("waiting_approval"@) {
        "waiting_approval"@
    } else if states.contains("waiting_input"@) {
        "waiting_input"@
    } else if states.contains("waiting"@) {
        "waiting"@
    } else if active_thread_count > 0 {
        "working"@
    } else {
        "idle"@
    }
}

/// The work state of a session.
pub fn session_work_state(summary: &StatusSummary, rows: &Vec<StatusRow>) -> (work: String)
    ensures
        work@ == session_work(summary.active_thread_count as nat, row_states(rows@)),
{
    let mut states: Vec<String> = Vec::new();
    let mut i: usize = 0;
    while i < rows.len()
        invariant
            i <= rows@.len(),
            states@.len() == i,
            forall|k: int| 0 <= k < i ==> (#[trigger] states@[k])@ == row_states(rows@)[k],
        decreases rows@.len() - i,
    {
        states.push(thread_work_state(rows[i].thread_state.as_str(), &rows[i].active_flags));
        i += 1;
    }
    proof {
        assert(states.deep_view() =~= row_states(rows@));
    }
    if any_text(&states, "working") {
        "working".to_string()
    } else if any_text(&states, "waiting_approval") {
        "waiting_approval".to_string()
    } else if any_text(&states, "waiting_input") {
        "waiting_input".to_string()
    } else if any_text(&states, "waiting") {
        "waiting".to_string()
    } else if summary.active_thread_count > 0 {
        "working".to_string()
    } else {
        "idle".to_string()
    }
}

/// A session works where one of its threads does, and is idle where none is
/// active and it counts none as active.
pub proof fn lemma_session_work(active_thread_count: nat, threads: Seq<ThreadInfo>)
    ensures
        (exists|i: int|
            0 <= i < threads.len() && (#[trigger] threads[i]).status == "active"@
                && threads[i].active_flags.len() == 0) ==> session_work(
            active_thread_count,
            work_states(threads),
        ) == "working"@,
        (forall|i: int|
            0 <= i < threads.len() ==> (#[trigger] threads[i]).status == "idle"@)
            && active_thread_count == 0 ==> session_work(active_thread_count, work_states(threads))
            == "idle"@,
{
    reveal_strlit("active");
    reveal_strlit("idle");
    reveal_strlit("working");
    reveal_strlit("waiting");
    reveal_strlit("waiting_input");
    reveal_strlit("waiting_approval");
    let states = work_states(threads);
    if exists|i: int|
        0 <= i < threads.len() && (#[trigger] threads[i]).status == "active"@
            && threads[i].active_flags.len() == 0 {
        let i = choose|i: int|
            0 <= i < threads.len() && (#[trigger] threads[i]).status == "active"@
                && threads[i].active_flags.len() == 0;
        assert(states[i] == "working"@);
        assert(states.contains(states[i]));
    }
    if forall|i: int| 0 <= i < threads.len() ==> (#[trigger] threads[i]).status == "idle"@ {
        assert("idle"@[0] == 'i' && "active"@[0] == 'a');
        assert("working"@[0] == 'w' && "waiting"@[0] == 'w');
        assert("waiting_input"@[0] == 'w' && "waiting_approval"@[0] == 'w');
        assert forall|k: int| 0 <= k < states.len() implies (#[trigger] states[k]) == "idle"@ by {
            assert(threads[k].status == "idle"@);
        }
    }
}

/// A row of the table, before it is cut to the columns.
#[derive(Debug, PartialEq, Eq)]
pub struct StatusTableRow {
    pub pid: String,
    pub tui_work: String,
    pub thread_work: String,
    pub thread_id: String,
    pub agent_path: String,
    pub task_name: String,
    pub agent_type: String,
    pub nickname: String,
    pub summary: String,
}

/// The contents of a row.
#[verifier::ext_equal]
pub struct TableRow {
    pub cells: Seq<Seq<char>>,
    pub summary: Seq<char>,
}

impl View for StatusTableRow {
    type V = TableRow;

    open spec fn view(&self) -> TableRow {
        TableRow {
            cells: seq![
                self.pid@,
                self.tui_work@,
                self.thread_work@,
                self.thread_id@,
                self.agent_path@,
                self.task_name@,
                self.agent_type@,
                self.nickname@,
            ],
            summary: self.summary@,
        }
    }
}

/// The widths of the cells before the summary.
pub open spec fn cell_widths() -> Seq<nat> {
    seq![
        PID_WIDTH as nat,
        TUI_WORK_WIDTH as nat,
        THREAD_WORK_WIDTH as nat,
        THREAD_ID_WIDTH as nat,
        AGENT_PATH_WIDTH as nat,
        TASK_NAME_WIDTH as nat,
        AGENT_TYPE_WIDTH as nat,
        NICKNAME_WIDTH as nat,
    ]
}

/// The cells of a row, each brought to its width.
pub open spec fn fitted_cells(row: TableRow) -> Seq<Seq<char>> {
    Seq::new(8, |i: int| fitted(row.cells[i], cell_widths()[i]))
}

/// The cells of a line that only continues a summary.
pub open spec fn blank_cells() -> Seq<Seq<char>> {
    Seq::new(8, |i: int| repeated(' ', cell_widths()[i]))
}

/// The lines of the summary of a row.
pub open spec fn summary_lines(row: TableRow, wrap_summary: bool) -> Seq<Seq<char>> {
    if wrap_summary {
        wrapped(squeeze(row.summary))
    } else {
        seq![row.summary]
    }
}

/// One line of the table.
pub open spec fn table_line(cells: Seq<Seq<char>>, summary_line: Seq<char>) -> Seq<char> {
    joined(cells, COLUMN_SEPARATOR@) + COLUMN_SEPARATOR@ + shortened(
        summary_line,
        SUMMARY_WIDTH as nat,
    )
}

/// The lines of a row: the cells stand on the first line only.
pub open spec fn row_lines(row: TableRow, wrap_summary: bool) -> Seq<Seq<char>> {
    let lines = summary_lines(row, wrap_summary);
    Seq::new(
        lines.len(),
        |i: int|
            table_line(
                if i == 0 {
                    fitted_cells(row)
                } else {
                    blank_cells()
                },
                lines[i],
            ),
    )
}

/// `row_lines`, where each character takes one column.
pub open spec fn plain_row_lines(row: TableRow, wrap_summary: bool) -> Seq<Seq<char>> {
    let lines = if wrap_summary {
        plain_wrapped(squeeze(row.summary))
    } else {
        seq![row.summary]
    };
    Seq::new(
        lines.len(),
        |i: int|
            joined(
                if i == 0 {
                    Seq::new(8, |k: int| plain_fitted(row.cells[k], cell_widths()[k]))
                } else {
                    blank_cells()
                },
                COLUMN_SEPARATOR@,
            ) + COLUMN_SEPARATOR@ + plain_shortened(lines[i], SUMMARY_WIDTH as nat),
    )
}

/// Whether a row holds nothing but printable ASCII characters.
pub open spec fn printable_row(row: TableRow) -> bool {
    &&& forall|i: int| 0 <= i < row.cells.len() ==> all_printable(#[trigger] row.cells[i])
    &&& all_printable(row.summary)
}

/// Whether each line from `from` on has at most the length of the table.
pub open spec fn within_table(lines: Seq<Seq<char>>, from: int) -> bool {
    forall|i: int| from <= i < lines.len() ==> (#[trigger] lines[i]).len() <= STATUS_TABLE_WIDTH
}

/// The summary column never takes more than its columns, on any line of a row.
pub proof fn lemma_summary_column_bounded(row: TableRow, wrap_summary: bool, i: int)
    requires
        0 <= i < row_lines(row, wrap_summary).len(),
    ensures
        exists|cells: Seq<Seq<char>>, summary: Seq<char>|
            {
                &&& row_lines(row, wrap_summary)[i] == #[trigger] joined(cells, COLUMN_SEPARATOR@)
                    + COLUMN_SEPARATOR@ + summary
                &&& cells == if i == 0 {
                    fitted_cells(row)
                } else {
                    blank_cells()
                }
                &&& #[trigger] within_columns(summary, SUMMARY_WIDTH as nat)
            },
{
    let line = summary_lines(row, wrap_summary)[i];
    let cells = if i == 0 {
        fitted_cells(row)
    } else {
        blank_cells()
    };
    let summary = shortened(line, SUMMARY_WIDTH as nat);
    lemma_shortened_within(line, SUMMARY_WIDTH as nat);
    assert(row_lines(row, wrap_summary)[i] == joined(cells, COLUMN_SEPARATOR@) + COLUMN_SEPARATOR@
        + summary);
}

/// A row takes one line or two.
pub proof fn lemma_row_has_two_lines_at_most(row: TableRow, wrap_summary: bool)
    ensures
        1 <= row_lines(row, wrap_summary).len() <= 2,
{
}

proof fn lemma_joined_len(cells: Seq<Seq<char>>)
    requires
        cells.len() == 8,
        forall|i: int| 0 <= i < 8 ==> (#[trigger] cells[i]).len() == cell_widths()[i],
    ensures
        joined(cells, COLUMN_SEPARATOR@).len() == STATUS_TABLE_WIDTH - SUMMARY_WIDTH - 2,
{
    reveal_strlit("  ");
    reveal_with_fuel(joined, 9);
    assert(cells[0].len() == 8 && cells[1].len() == 16 && cells[2].len() == 16);
    assert(cells[3].len() == 36 && cells[4].len() == 24 && cells[5].len() == 16);
    assert(cells[6].len() == 12 && cells[7].len() == 14);
}

/// The cells of a row, each brought to its width.
fn fit_cells(row: &StatusTableRow) -> (cells: Vec<String>)
    ensures
        cells.deep_view() == fitted_cells(row@),
        printable_row(row@) ==> forall|i: int|
            0 <= i < 8 ==> (#[trigger] cells.deep_view()[i]).len() == cell_widths()[i],
        printable_row(row@) ==> cells.deep_view() == Seq::new(
            8,
            |i: int| plain_fitted(row@.cells[i], cell_widths()[i]),
        ),
{
    proof {
        let r = row@;
        assert(r.cells[0] == row.pid@ && r.cells[1] == row.tui_work@);
        assert(r.cells[2] == row.thread_work@ && r.cells[3] == row.thread_id@);
        assert(r.cells[4] == row.agent_path@ && r.cells[5] == row.task_name@);
        assert(r.cells[6] == row.agent_type@ && r.cells[7] == row.nickname@);
    }
    let mut cells: Vec<String> = Vec::new();
    cells.push(fit_cell(row.pid.as_str(), PID_WIDTH));
    cells.push(fit_cell(row.tui_work.as_str(), TUI_WORK_WIDTH));
    cells.push(fit_cell(row.thread_work.as_str(), THREAD_WORK_WIDTH));
    cells.push(fit_cell(row.thread_id.as_str(), THREAD_ID_WIDTH));
    cells.push(fit_cell(row.agent_path.as_str(), AGENT_PATH_WIDTH));
    cells.push(fit_cell(row.task_name.as_str(), TASK_NAME_WIDTH));
    cells.push(fit_cell(row.agent_type.as_str(), AGENT_TYPE_WIDTH));
    cells.push(fit_cell(row.nickname.as_str(), NICKNAME_WIDTH));
    proof {
        assert(cells.deep_view() =~= fitted_cells(row@));
        if printable_row(row@) {
            assert(cells.deep_view() =~= Seq::new(
                8,
                |i: int| plain_fitted(row@.cells[i], cell_widths()[i]),
            ));
        }
    }
    cells
}

/// The cells of a line that only continues a summary.
fn make_blank_cells() -> (cells: Vec<String>)
    ensures
        cells.deep_view() == blank_cells(),
{
    let mut cells: Vec<String> = Vec::new();
    cells.push(repeat_char(' ', PID_WIDTH));
    cells.push(repeat_char(' ', TUI_WORK_WIDTH));
    cells.push(repeat_char(' ', THREAD_WORK_WIDTH));
    cells.push(repeat_char(' ', THREAD_ID_WIDTH));
    cells.push(repeat_char(' ', AGENT_PATH_WIDTH));
    cells.push(repeat_char(' ', TASK_NAME_WIDTH));
    cells.push(repeat_char(' ', AGENT_TYPE_WIDTH));
    cells.push(repeat_char(' ', NICKNAME_WIDTH));
    proof {
        assert(cells.deep_view() =~= blank_cells());
    }
    cells
}

/// Appends the lines of a row.
pub fn write_status_table_row(lines: &mut Vec<String>, row: &StatusTableRow, wrap_summary: bool)
    ensures
        final(lines).deep_view() == old(lines).deep_view() + row_lines(row@, wrap_summary),
        printable_row(row@) ==> row_lines(row@, wrap_summary) == plain_row_lines(
            row@,
            wrap_summary,
        ),
        printable_row(row@) ==> within_table(
            final(lines).deep_view(),
            old(lines)@.len() as int,
        ),
{
    let ghost before = lines.deep_view();
    let ghost printable = printable_row(row@);
    let texts = if wrap_summary {
        wrap_summary_lines(row.summary.as_str())
    } else {
        let mut single: Vec<String> = Vec::new();
        single.push(row.summary.clone());
        proof {
            assert(single.deep_view() =~= seq![row.summary@]);
        }
        single
    };
    let fixed_cells = fit_cells(row);
    let blanks = make_blank_cells();
    let mut i: usize = 0;
    proof {
        if printable {
            lemma_joined_len(fixed_cells.deep_view());
        }
        lemma_joined_len(blanks.deep_view());
        reveal_strlit("  ");
    }
    while i < texts.len()
        invariant
            i <= texts@.len(),
            texts.deep_view() == summary_lines(row@, wrap_summary),
            fixed_cells.deep_view() == fitted_cells(row@),
            blanks.deep_view() == blank_cells(),
            COLUMN_SEPARATOR@.len() == 2,
            joined(blanks.deep_view(), COLUMN_SEPARATOR@).len() == STATUS_TABLE_WIDTH
                - SUMMARY_WIDTH - 2,
            printable ==> joined(fixed_cells.deep_view(), COLUMN_SEPARATOR@).len()
                == STATUS_TABLE_WIDTH - SUMMARY_WIDTH - 2,
            printable ==> forall|k: int|
                0 <= k < texts@.len() ==> all_printable(#[trigger] texts@[k]@),
            printable ==> forall|k: int|
                0 <= k < i ==> shortened((#[trigger] texts@[k])@, SUMMARY_WIDTH as nat)
                    == plain_shortened(texts@[k]@, SUMMARY_WIDTH as nat),
            lines.deep_view() == before + row_lines(row@, wrap_summary).take(i as int),
            printable ==> within_table(lines.deep_view(), before.len() as int),
        decreases texts@.len() - i,
    {
        let head = if i == 0 {
            join_texts(&fixed_cells, COLUMN_SEPARATOR)
        } else {
            join_texts(&blanks, COLUMN_SEPARATOR)
        };
        let summary = truncate_with_ellipsis(texts[i].as_str(), SUMMARY_WIDTH);
        let ghost known = lines.deep_view();
        lines.push(glue3(head.as_str(), COLUMN_SEPARATOR, summary.as_str()));
        proof {
            let all = row_lines(row@, wrap_summary);
            assert(all[i as int] == lines@[lines@.len() - 1]@) by {
                assert(summary_lines(row@, wrap_summary)[i as int] == texts@[i as int]@);
            }
            assert(all.take(i + 1) =~= all.take(i as int).push(all[i as int]));
            assert(lines.deep_view() =~= known.push(all[i as int]));
            assert(lines.deep_view() =~= before + all.take(i + 1));
            if printable {
                assert(all_printable(texts@[i as int]@));
                assert forall|k: int| before.len() <= k < lines@.len() implies (
                #[trigger] lines.deep_view()[k]).len() <= STATUS_TABLE_WIDTH by {
                    if k < known.len() {
                        assert(lines.deep_view()[k] == known[k]);
                    }
                }
            }
        }
        i += 1;
    }
    proof {
        let all = row_lines(row@, wrap_summary);
        assert(all.take(i as int) =~= all);
        if printable {
            let plain = plain_row_lines(row@, wrap_summary);
            assert forall|k: int| 0 <= k < all.len() implies all[k] == plain[k] by {
                assert(texts.deep_view()[k] == texts@[k]@);
            }
            assert(all =~= plain);
        }
    }
}

/// `text`, or a dash where there is none.
pub open spec fn or_dash(text: Option<Seq<char>>) -> Seq<char> {
    match text {
        Some(text) => text,
        None => "-"@,
    }
}

fn text_or_dash(text: &Option<String>) -> (shown: String)
    ensures
        shown@ == or_dash(text.deep_view()),
{
    match text {
        Some(text) => text.clone(),
        None => "-".to_string(),
    }
}

/// The row of one thread.
pub open spec fn thread_row(pid: u32, tui_work: Seq<char>, thread: ThreadInfo) -> TableRow {
    TableRow {
        cells: seq![
            decimal(pid as nat),
            tui_work,
            work_state(thread.status, thread.active_flags),
            thread.thread_id,
            or_dash(thread.agent_path),
            or_dash(thread.task_name),
            or_dash(thread.agent_type),
            or_dash(thread.agent_nickname),
        ],
        summary: match thread.summary {
            Some(summary) => summary,
            None => Seq::empty(),
        },
    }
}

/// The row of a session without threads.
pub open spec fn empty_session_row(session: SessionInfo) -> TableRow {
    TableRow {
        cells: seq![
            decimal(session.summary.pid as nat),
            session_work(session.summary.active_thread_count as nat, Seq::empty()),
            "-"@,
            or_dash(session.summary.root_thread_id.deep_view()),
            ROOT_AGENT_PATH@,
            ROOT_TASK_NAME@,
            "-"@,
            "-"@,
        ],
        summary: Seq::empty(),
    }
}

/// The rows of a session.
pub open spec fn session_table_rows(session: SessionInfo) -> Seq<TableRow> {
    let threads = preorder(session.forest);
    if threads.len() == 0 {
        seq![empty_session_row(session)]
    } else {
        let tui_work = session_work(
            session.summary.active_thread_count as nat,
            work_states(threads),
        );
        threads.map_values(|thread: ThreadInfo| thread_row(session.summary.pid, tui_work, thread))
    }
}

/// The rows of all sessions, in order.
pub open spec fn table_rows(sessions: Seq<SessionInfo>) -> Seq<TableRow>
    decreases sessions.len(),
{
    if sessions.len() == 0 {
        Seq::empty()
    } else {
        table_rows(sessions.drop_last()) + session_table_rows(sessions.last())
    }
}

/// The lines of `rows`, in order.
pub open spec fn rows_lines(rows: Seq<TableRow>) -> Seq<Seq<char>>
    decreases rows.len(),
{
    if rows.len() == 0 {
        Seq::empty()
    } else {
        rows_lines(rows.drop_last()) + row_lines(rows.last(), true)
    }
}

/// `rows_lines`, where each character takes one column.
pub open spec fn plain_rows_lines(rows: Seq<TableRow>) -> Seq<Seq<char>>
    decreases rows.len(),
{
    if rows.len() == 0 {
        Seq::empty()
    } else {
        plain_rows_lines(rows.drop_last()) + plain_row_lines(rows.last(), true)
    }
}

/// The names of the columns.
pub open spec fn header_row() -> TableRow {
    TableRow {
        cells: seq![
            "TUI_PID"@,
            "TUI_WORK"@,
            "THREAD_WORK"@,
            "THREAD_ID"@,
            "AGENT_PATH"@,
            "TASK_NAME"@,
            "AGENT_TYPE"@,
            "NICKNAME"@,
        ],
        summary: "SUMMARY"@,
    }
}

/// What the command prints.
pub open spec fn status_table(sessions: Seq<SessionInfo>) -> Seq<Seq<char>> {
    if sessions.len() == 0 {
        seq![NO_LIVE_TUI_MESSAGE@]
    } else {
        row_lines(header_row(), false) + rows_lines(table_rows(sessions))
    }
}

/// `status_table`, where each character takes one column.
pub open spec fn plain_status_table(sessions: Seq<SessionInfo>) -> Seq<Seq<char>> {
    if sessions.len() == 0 {
        seq![NO_LIVE_TUI_MESSAGE@]
    } else {
        plain_row_lines(header_row(), false) + plain_rows_lines(table_rows(sessions))
    }
}

/// Whether all rows hold nothing but printable ASCII characters.
pub open spec fn printable_rows(rows: Seq<TableRow>) -> bool {
    forall|i: int| 0 <= i < rows.len() ==> printable_row(#[trigger] rows[i])
}

proof fn lemma_table_rows_prefix(sessions: Seq<SessionInfo>, n: int)
    requires
        0 <= n <= sessions.len(),
    ensures
        table_rows(sessions.take(n)).is_prefix_of(table_rows(sessions)),
    decreases sessions.len(),
{
    if n < sessions.len() {
        let rest = sessions.drop_last();
        lemma_table_rows_prefix(rest, n);
        assert(rest.take(n) =~= sessions.take(n));
        let a = table_rows(sessions.take(n));
        assert(a =~= table_rows(sessions).take(a.len() as int)) by {
            assert(a =~= table_rows(rest).take(a.len() as int));
        }
    } else {
        assert(sessions.take(n) =~= sessions);
        let a = table_rows(sessions);
        assert(a =~= a.take(a.len() as int));
    }
}

proof fn lemma_header_printable()
    ensures
        printable_row(header_row()),
{
    reveal_strlit("TUI_PID");
    reveal_strlit("TUI_WORK");
    reveal_strlit("THREAD_WORK");
    reveal_strlit("THREAD_ID");
    reveal_strlit("AGENT_PATH");
    reveal_strlit("TASK_NAME");
    reveal_strlit("AGENT_TYPE");
    reveal_strlit("NICKNAME");
    reveal_strlit("SUMMARY");
    let cells = header_row().cells;
    assert(all_printable(cells[0]) && all_printable(cells[1]) && all_printable(cells[2]));
    assert(all_printable(cells[3]) && all_printable(cells[4]) && all_printable(cells[5]));
    assert(all_printable(cells[6]) && all_printable(cells[7]));
}

proof fn lemma_rows_lines_push(rows: Seq<TableRow>, row: TableRow)
    ensures
        rows_lines(rows.push(row)) == rows_lines(rows) + row_lines(row, true),
        plain_rows_lines(rows.push(row)) == plain_rows_lines(rows) + plain_row_lines(row, true),
{
    assert(rows.push(row).drop_last() =~= rows);
}

/// What the rows of a session show of the work of its threads.
proof fn lemma_row_states(rows: Seq<StatusRow>, pid: u32, threads: Seq<ThreadInfo>)
    requires
        rows_show(rows, pid, threads),
    ensures
        row_states(rows) == work_states(threads),
{
    assert forall|i: int| 0 <= i < rows.len() implies row_states(rows)[i] == work_states(
        threads,
    )[i] by {
        assert(rows[i].shows(pid, threads[i]));
    }
    assert(row_states(rows) =~= work_states(threads));
}

/// The table row of a thread.
fn thread_table_row(row: &StatusRow, tui_work: &String) -> (table_row: StatusTableRow)
    ensures
        forall|pid: u32, thread: ThreadInfo| #[trigger]
            row.shows(pid, thread) ==> table_row@ == thread_row(pid, tui_work@, thread),
{
    let summary = match &row.summary {
        Some(summary) => summary.clone(),
        None => String::new(),
    };
    let table_row = StatusTableRow {
        pid: decimal_text(row.pid as u64),
        tui_work: tui_work.clone(),
        thread_work: thread_work_state(row.thread_state.as_str(), &row.active_flags),
        thread_id: row.thread_id.clone(),
        agent_path: text_or_dash(&row.agent_path),
        task_name: text_or_dash(&row.task_name),
        agent_type: text_or_dash(&row.agent_type),
        nickname: text_or_dash(&row.nickname),
        summary,
    };
    proof {
        assert forall|pid: u32, thread: ThreadInfo| #[trigger] row.shows(pid, thread) implies
            table_row@ == thread_row(pid, tui_work@, thread) by {
            assert(table_row@.cells =~= thread_row(pid, tui_work@, thread).cells);
            assert(table_row@.summary =~= thread_row(pid, tui_work@, thread).summary);
        }
    }
    table_row
}

/// The table rows of a session.
fn make_session_rows(session: &LiveStatusSession) -> (table_rows: Vec<StatusTableRow>)
    ensures
        table_rows@.map_values(|row: StatusTableRow| row@) == session_table_rows(
            session.deep_view(),
        ),
{
    let ghost info = session.deep_view();
    let ghost threads = preorder(info.forest);
    let ghost pid = session.summary.pid;
    let rows = session_rows(session);
    let tui_work = session_work_state(&session.summary, &rows);
    proof {
        lemma_row_states(rows@, pid, threads);
    }
    let mut table_rows: Vec<StatusTableRow> = Vec::new();
    if rows.len() == 0 {
        proof {
            assert(work_states(threads) =~= Seq::empty());
        }
        table_rows.push(
            StatusTableRow {
                pid: decimal_text(session.summary.pid as u64),
                tui_work,
                thread_work: "-".to_string(),
                thread_id: text_or_dash(&session.summary.root_thread_id),
                agent_path: ROOT_AGENT_PATH.to_string(),
                task_name: ROOT_TASK_NAME.to_string(),
                agent_type: "-".to_string(),
                nickname: "-".to_string(),
                summary: String::new(),
            },
        );
        proof {
            assert(table_rows@[0]@.cells =~= empty_session_row(info).cells);
            assert(table_rows@[0]@.summary =~= empty_session_row(info).summary);
            assert(table_rows@.map_values(|row: StatusTableRow| row@) =~= session_table_rows(info));
        }
        return table_rows;
    }
    let mut i: usize = 0;
    while i < rows.len()
        invariant
            i <= rows@.len(),
            rows_show(rows@, pid, threads),
            table_rows@.len() == i,
            forall|k: int|
                0 <= k < i ==> (#[trigger] table_rows@[k])@ == thread_row(pid, tui_work@, threads[k]),
        decreases rows@.len() - i,
    {
        proof {
            assert(rows@[i as int].shows(pid, threads[i as int]));
        }
        table_rows.push(thread_table_row(&rows[i], &tui_work));
        i += 1;
    }
    proof {
        assert(table_rows@.map_values(|row: StatusTableRow| row@) =~= session_table_rows(info));
    }
    table_rows
}

/// The lines of the table of `sessions`.
pub fn write_status_table(sessions: &Vec<LiveStatusSession>) -> (lines: Vec<String>)
    ensures
        lines.deep_view() == status_table(sessions.deep_view()),
        printable_rows(table_rows(sessions.deep_view())) ==> lines.deep_view()
            == plain_status_table(sessions.deep_view()),
        printable_rows(table_rows(sessions.deep_view())) ==> within_table(lines.deep_view(), 0),
{
    let ghost infos = sessions.deep_view();
    let ghost printable = printable_rows(table_rows(infos));
    let mut lines: Vec<String> = Vec::new();
    if sessions.len() == 0 {
        lines.push(NO_LIVE_TUI_MESSAGE.to_string());
        proof {
            reveal_strlit("No live codexx TUI sessions found.");
            assert(lines.deep_view() =~= status_table(infos));
        }
        return lines;
    }
    let header = StatusTableRow {
        pid: "TUI_PID".to_string(),
        tui_work: "TUI_WORK".to_string(),
        thread_work: "THREAD_WORK".to_string(),
        thread_id: "THREAD_ID".to_string(),
        agent_path: "AGENT_PATH".to_string(),
        task_name: "TASK_NAME".to_string(),
        agent_type: "AGENT_TYPE".to_string(),
        nickname: "NICKNAME".to_string(),
        summary: "SUMMARY".to_string(),
    };
    proof {
        assert(header@.cells =~= header_row().cells);
        assert(header@ == header_row());
        assert(lines.deep_view() =~= Seq::empty());
        lemma_header_printable();
    }
    write_status_table_row(&mut lines, &header, false);
    let ghost head = row_lines(header_row(), false);
    let mut i: usize = 0;
    proof {
        assert(lines.deep_view() =~= head);
        assert(infos.take(0) =~= Seq::empty());
        assert(head + rows_lines(Seq::empty()) =~= head);
    }
    while i < sessions.len()
        invariant
            i <= sessions@.len(),
            infos == sessions.deep_view(),
            head == row_lines(header_row(), false),
            printable == printable_rows(table_rows(infos)),
            lines.deep_view() == head + rows_lines(table_rows(infos.take(i as int))),
            head == plain_row_lines(header_row(), false),
            printable ==> rows_lines(table_rows(infos.take(i as int))) == plain_rows_lines(
                table_rows(infos.take(i as int)),
            ),
            printable ==> within_table(lines.deep_view(), 0),
        decreases sessions@.len() - i,
    {
        let ghost before = table_rows(infos.take(i as int));
        let ghost own = session_table_rows(infos[i as int]);
        let rows = make_session_rows(&sessions[i]);
        proof {
            assert(infos.take(i + 1).drop_last() =~= infos.take(i as int));
            assert(infos.take(i + 1).last() == infos[i as int]);
            assert(table_rows(infos.take(i + 1)) == before + own);
            lemma_table_rows_prefix(infos, i + 1);
        }
        let mut j: usize = 0;
        proof {
            assert(before + own.take(0) =~= before);
        }
        while j < rows.len()
            invariant
                i < sessions@.len(),
                j <= rows@.len(),
                rows@.map_values(|row: StatusTableRow| row@) == own,
                printable == printable_rows(table_rows(infos)),
                (before + own).is_prefix_of(table_rows(infos)),
                lines.deep_view() == head + rows_lines(before + own.take(j as int)),
                printable ==> rows_lines(before + own.take(j as int)) == plain_rows_lines(
                    before + own.take(j as int),
                ),
                printable ==> within_table(lines.deep_view(), 0),
            decreases rows@.len() - j,
        {
            let ghost known = lines.deep_view();
            let ghost row = own[j as int];
            proof {
                assert(row == rows@[j as int]@);
                if printable {
                    let at = before.len() + j;
                    assert((before + own)[at] == row);
                    assert(table_rows(infos)[at] == row);
                    assert(printable_row(table_rows(infos)[at]));
                }
            }
            write_status_table_row(&mut lines, &rows[j], true);
            proof {
                let shown = before + own.take(j as int);
                assert(before + own.take(j + 1) =~= shown.push(row));
                lemma_rows_lines_push(shown, row);
                assert(lines.deep_view() =~= head + rows_lines(before + own.take(j + 1)));
                if printable {
                    assert forall|k: int| 0 <= k < lines@.len() implies (
                    #[trigger] lines.deep_view()[k]).len() <= STATUS_TABLE_WIDTH by {
                        if k < known.len() {
                            assert(lines.deep_view()[k] == known[k]);
                        }
                    }
                }
            }
            j += 1;
        }
        proof {
            assert(own.take(j as int) =~= own);
        }
        i += 1;
    }
    proof {
        assert(infos.take(i as int) =~= infos);
    }
    lines
}

/// What the command prints with `--json`.
#[derive(Debug, PartialEq, Eq)]
pub struct StatusJsonOutput {
    pub sessions: Vec<StatusJsonSession>,
}

/// One session of that output.
#[derive(Debug, PartialEq, Eq)]
pub struct StatusJsonSession {
    pub pid: u32,
    pub tui_state: String,
    pub tui_work: String,
    pub summary: StatusSummary,
    pub threads: Vec<StatusJsonThread>,
    pub agent_tree: AgentTreeResponse,
}

/// One thread of that output.
#[derive(Debug, PartialEq, Eq)]
pub struct StatusJsonThread {
    pub pid: u32,
    pub thread_work: String,
    pub thread_state: String,
    pub active_flags: Vec<String>,
    pub thread_id: String,
    pub agent_path: Option<String>,
    pub task_name: Option<String>,
    pub agent_type: Option<String>,
    pub nickname: Option<String>,
    pub summary: Option<String>,
}

impl StatusJsonThread {
    /// Whether the entry is that of `thread` of the process `pid`, complete and
    /// not cut.
    pub open spec fn shows(&self, pid: u32, thread: ThreadInfo) -> bool {
        &&& self.pid == pid
        &&& self.thread_work@ == work_state(thread.status, thread.active_flags)
        &&& self.thread_state@ == thread.status
        &&& self.active_flags.deep_view() == thread.active_flags
        &&& self.thread_id@ == thread.thread_id
        &&& self.agent_path.deep_view() == thread.agent_path
        &&& self.task_name.deep_view() == thread.task_name
        &&& self.agent_type.deep_view() == thread.agent_type
        &&& self.nickname.deep_view() == thread.agent_nickname
        &&& self.summary.deep_view() == thread.summary
    }

    /// The entry of the thread that `row` shows.
    pub fn from_row(row: &StatusRow) -> (entry: Self)
        ensures
            forall|pid: u32, thread: ThreadInfo| #[trigger]
                row.shows(pid, thread) ==> entry.shows(pid, thread),
            entry.pid == row.pid,
            entry.thread_work@ == work_state(row.thread_state@, row.active_flags.deep_view()),
            entry.thread_state == row.thread_state,
            entry.active_flags@ == row.active_flags@,
            entry.thread_id == row.thread_id,
            entry.agent_path == row.agent_path,
            entry.task_name == row.task_name,
            entry.agent_type == row.agent_type,
            entry.nickname == row.nickname,
            entry.summary == row.summary,
    {
        StatusJsonThread {
            pid: row.pid,
            thread_work: thread_work_state(row.thread_state.as_str(), &row.active_flags),
            thread_state: row.thread_state.clone(),
            active_flags: copy_texts(&row.active_flags),
            thread_id: row.thread_id.clone(),
            agent_path: copy_opt(&row.agent_path),
            task_name: copy_opt(&row.task_name),
            agent_type: copy_opt(&row.agent_type),
            nickname: copy_opt(&row.nickname),
            summary: copy_opt(&row.summary),
        }
    }
}

impl StatusJsonSession {
    /// Whether the entry is that of `session`.
    pub open spec fn shows(&self, session: LiveStatusSession) -> bool {
        let threads = preorder(session.tree.deep_view());
        &&& self.pid == session.summary.pid
        &&& self.tui_state@ == "alive"@
        &&& self.tui_work@ == session_work(
            session.summary.active_thread_count as nat,
            work_states(threads),
        )
        &&& self.summary == session.summary
        &&& self.agent_tree.deep_view() == session.tree.deep_view()
        &&& self.threads@.len() == threads.len()
        &&& forall|i: int|
            0 <= i < threads.len() ==> (#[trigger] self.threads@[i]).shows(self.pid, threads[i])
    }
}

/// What the command prints of one session with `--json`.
fn json_session(session: &LiveStatusSession) -> (entry: StatusJsonSession)
    ensures
        entry.shows(*session),
{
    let ghost shown = preorder(session.tree.deep_view());
    let ghost pid = session.summary.pid;
    let rows = session_rows(session);
    let tui_work = session_work_state(&session.summary, &rows);
    proof {
        lemma_row_states(rows@, pid, shown);
    }
    let mut threads: Vec<StatusJsonThread> = Vec::new();
    let mut i: usize = 0;
    while i < rows.len()
        invariant
            i <= rows@.len(),
            rows_show(rows@, pid, shown),
            threads@.len() == i,
            forall|k: int| 0 <= k < i ==> (#[trigger] threads@[k]).shows(pid, shown[k]),
        decreases rows@.len() - i,
    {
        proof {
            assert(rows@[i as int].shows(pid, shown[i as int]));
        }
        threads.push(StatusJsonThread::from_row(&rows[i]));
        i += 1;
    }
    StatusJsonSession {
        pid: session.summary.pid,
        tui_state: "alive".to_string(),
        tui_work,
        summary: session.summary.clone(),
        threads,
        agent_tree: session.tree.clone(),
    }
}

/// What the command prints with `--json`.
pub fn write_status_json(sessions: &Vec<LiveStatusSession>) -> (output: StatusJsonOutput)
    ensures
        output.sessions@.len() == sessions@.len(),
        forall|i: int|
            0 <= i < sessions@.len() ==> (#[trigger] output.sessions@[i]).shows(sessions@[i]),
{
    let mut entries: Vec<StatusJsonSession> = Vec::new();
    let mut i: usize = 0;
    while i < sessions.len()
        invariant
            i <= sessions@.len(),
            entries@.len() == i,
            forall|k: int| 0 <= k < i ==> (#[trigger] entries@[k]).shows(sessions@[k]),
        decreases sessions@.len() - i,
    {
        entries.push(json_session(&sessions[i]));
        i += 1;
    }
    StatusJsonOutput { sessions: entries }
}

/// What reading the status directory gave.
#[derive(Debug, PartialEq, Eq)]
pub enum StatusDir {
    /// The names of its entries.
    Entries(Vec<String>),
    /// There is no such directory.
    Missing,
    /// It cannot be read.
    Unreadable,
}

/// The entries of `names` that are metadata files.
pub open spec fn metadata_names(names: Seq<Seq<char>>) -> Seq<Seq<char>> {
    names.filter(|name: Seq<char>| file_extension(name) == Some("json"@))
}

/// The metadata files to look at, in order. Without a directory there are none.
pub fn metadata_files(dir: StatusDir) -> (files: Result<Vec<String>, String>)
    ensures
        match dir {
            StatusDir::Entries(names) => files is Ok && files->Ok_0.deep_view() == ordered::<
                String,
            >(metadata_names(names.deep_view())),
            StatusDir::Missing => files is Ok && files->Ok_0@.len() == 0,
            StatusDir::Unreadable => files is Err && files->Err_0@
                == "failed to read TUI status directory"@,
        },
{
    let names = match dir {
        StatusDir::Entries(names) => names,
        StatusDir::Missing => {
            return Ok(Vec::new());
        },
        StatusDir::Unreadable => {
            return Err("failed to read TUI status directory".to_string());
        },
    };
    let ghost all = names.deep_view();
    let ghost pred = |name: Seq<char>| file_extension(name) == Some("json"@);
    let mut files: Vec<String> = Vec::new();
    let mut i: usize = 0;
    proof {
        assert(all.take(0).filter(pred) =~= Seq::empty()) by {
            reveal(Seq::filter);
        }
        assert(files.deep_view() =~= Seq::empty());
    }
    while i < names.len()
        invariant
            i <= names@.len(),
            all == names.deep_view(),
            pred == (|name: Seq<char>| file_extension(name) == Some("json"@)),
            files.deep_view() == all.take(i as int).filter(pred),
        decreases names@.len() - i,
    {
        proof {
            assert(all.take(i + 1) =~= all.take(i as int).push(all[i as int]));
            all.take(i as int).lemma_filter_push(all[i as int], pred);
        }
        if has_extension(names[i].as_str(), "json") {
            let ghost before = files.deep_view();
            files.push(names[i].clone());
            proof {
                assert(files.deep_view() =~= before.push(all[i as int]));
            }
        }
        i += 1;
    }
    proof {
        assert(all.take(i as int) =~= all);
    }
    Ok(stable_sort(files))
}

/// What is done about a metadata file.
#[derive(Debug, PartialEq, Eq)]
pub enum Triage {
    /// Its process is gone, or it is no metadata file: these files are removed.
    Remove(Vec<String>),
    /// Its process runs: the socket is asked.
    Ask(String),
}

/// What is done about the metadata file at `metadata_path`, given what it holds
/// and whether the process that it names runs.
pub fn triage_metadata(
    metadata_path: String,
    metadata: Result<StatusMetadata, String>,
    process_runs: bool,
) -> (triage: Triage)
    ensures
        match metadata {
            Err(_) => triage is Remove && triage->Remove_0@ == seq![metadata_path],
            Ok(metadata) => if process_runs {
                triage == Triage::Ask(metadata.socket_path)
            } else {
                triage is Remove && triage->Remove_0@ == seq![metadata_path, metadata.socket_path]
            },
        },
{
    let mut files: Vec<String> = Vec::new();
    match metadata {
        Err(_) => {
            files.push(metadata_path);
            Triage::Remove(files)
        },
        Ok(metadata) => if process_runs {
            Triage::Ask(metadata.socket_path)
        } else {
            files.push(metadata_path);
            files.push(metadata.socket_path);
            Triage::Remove(files)
        },
    }
}

/// Whether a process runs, given what sending it no signal returned and the
/// error that was then set: a process that may not be signalled runs too.
pub fn pid_exists(kill_result: i32, errno: Option<i32>, eperm: i32) -> (runs: bool)
    ensures
        runs == (kill_result == 0 || errno == Some(eperm)),
{
    kill_result == 0 || match errno {
        Some(code) => code == eperm,
        None => false,
    }
}

/// What looking at one metadata file gave. What was not asked for is an error.
#[derive(Debug, PartialEq, Eq)]
pub struct ProbedFile {
    pub metadata_path: String,
    pub metadata: Result<StatusMetadata, String>,
    pub process_runs: bool,
    pub summary: Result<StatusSummary, String>,
    pub tree: Result<AgentTreeResponse, String>,
}

/// What a scan of the status directory found.
#[derive(Debug, PartialEq, Eq)]
pub struct StatusScan {
    pub sessions: Vec<LiveStatusSession>,
    pub stale_files: Vec<String>,
}

/// The files that a probe found stale: those of a process that is gone, and what
/// is no metadata file.
pub open spec fn stale_of(probe: ProbedFile) -> Seq<String> {
    match probe.metadata {
        Err(_) => seq![probe.metadata_path],
        Ok(metadata) => if probe.process_runs {
            Seq::empty()
        } else {
            seq![probe.metadata_path, metadata.socket_path]
        },
    }
}

/// The session that a probe found: its process runs and has answered both
/// requests.
pub open spec fn session_of(probe: ProbedFile) -> Seq<SessionInfo> {
    match (probe.metadata, probe.summary, probe.tree) {
        (Ok(_), Ok(summary), Ok(tree)) => if probe.process_runs {
            seq![(LiveStatusSession { summary, tree }).deep_view()]
        } else {
            Seq::empty()
        },
        _ => Seq::empty(),
    }
}

/// The files that the probes found stale.
pub open spec fn stale_files(probes: Seq<ProbedFile>) -> Seq<String>
    decreases probes.len(),
{
    if probes.len() == 0 {
        Seq::empty()
    } else {
        stale_files(probes.drop_last()) + stale_of(probes.last())
    }
}

/// The sessions that the probes found.
pub open spec fn found_sessions(probes: Seq<ProbedFile>) -> Seq<SessionInfo>
    decreases probes.len(),
{
    if probes.len() == 0 {
        Seq::empty()
    } else {
        found_sessions(probes.drop_last()) + session_of(probes.last())
    }
}

/// The sessions that the probes found, by process, and the files to remove. A
/// process that runs but does not answer is passed over, and its files stay.
pub fn live_status_sessions(probes: Vec<ProbedFile>) -> (scan: StatusScan)
    ensures
        scan.sessions.deep_view() == ordered::<LiveStatusSession>(found_sessions(probes@)),
        scan.stale_files@ == stale_files(probes@),
{
    let mut sessions: Vec<LiveStatusSession> = Vec::new();
    let mut stale: Vec<String> = Vec::new();
    proof {
        assert(probes@.take(0) =~= Seq::empty());
        assert(sessions.deep_view() =~= Seq::empty());
    }
    for probe in it: probes
        invariant
            it.seq() == probes@,
            sessions.deep_view() == found_sessions(probes@.take(it.index())),
            stale@ == stale_files(probes@.take(it.index())),
    {
        let ghost n = it.index();
        let ghost before = sessions.deep_view();
        let ghost old_stale = stale@;
        proof {
            assert(probes@.take(n + 1).drop_last() =~= probes@.take(n));
            assert(probes@.take(n + 1).last() == probe);
        }
        match triage_metadata(probe.metadata_path, probe.metadata, probe.process_runs) {
            Triage::Remove(files) => {
                let mut files = files;
                stale.append(&mut files);
                proof {
                    assert(sessions.deep_view() =~= before + session_of(probe));
                    assert(stale@ =~= old_stale + stale_of(probe));
                }
            },
            Triage::Ask(_) => {
                match (probe.summary, probe.tree) {
                    (Ok(summary), Ok(tree)) => {
                        sessions.push(LiveStatusSession { summary, tree });
                    },
                    _ => {},
                }
                proof {
                    assert(sessions.deep_view() =~= before + session_of(probe));
                    assert(stale@ =~= old_stale + stale_of(probe));
                }
            },
        }
    }
    proof {
        assert(probes@.take(probes@.len() as int) =~= probes@);
    }
    StatusScan { sessions: stable_sort(sessions), stale_files: stale }
}

proof fn lemma_found(probes: Seq<ProbedFile>, session: SessionInfo)
    ensures
        found_sessions(probes).contains(session) <==> exists|i: int|
            0 <= i < probes.len() && session_of(#[trigger] probes[i]).contains(session),
    decreases probes.len(),
{
    if probes.len() > 0 {
        let rest = probes.drop_last();
        let before = found_sessions(rest);
        let own = session_of(probes.last());
        lemma_found(rest, session);
        if found_sessions(probes).contains(session) {
            let k = found_sessions(probes).index_of(session);
            if k < before.len() {
                assert(before[k] == session);
                let i = choose|i: int|
                    0 <= i < rest.len() && session_of(#[trigger] rest[i]).contains(session);
                assert(probes[i] == rest[i]);
            } else {
                assert(own[k - before.len()] == session);
                assert(session_of(probes[probes.len() - 1]).contains(session));
            }
        }
        if exists|i: int|
            0 <= i < probes.len() && session_of(#[trigger] probes[i]).contains(session) {
            let i = choose|i: int|
                0 <= i < probes.len() && session_of(#[trigger] probes[i]).contains(session);
            if i < rest.len() {
                assert(probes[i] == rest[i]);
                let k = before.index_of(session);
                assert((before + own)[k] == session);
            } else {
                let k = own.index_of(session);
                assert((before + own)[before.len() + k] == session);
            }
        }
    }
}

/// The sessions that are shown are those whose process runs and answered both
/// requests, by process.
pub proof fn lemma_sessions_shown(probes: Seq<ProbedFile>, session: SessionInfo)
    ensures
        ordered::<LiveStatusSession>(found_sessions(probes)).contains(session) <==> exists|i: int|
            {
                &&& 0 <= i < probes.len()
                &&& (#[trigger] probes[i]).metadata is Ok
                &&& probes[i].process_runs
                &&& probes[i].summary is Ok
                &&& probes[i].tree is Ok
                &&& session.summary == probes[i].summary->Ok_0
                &&& session.forest == probes[i].tree->Ok_0.deep_view()
            },
        in_order::<LiveStatusSession>(ordered::<LiveStatusSession>(found_sessions(probes))),
{
    let found = found_sessions(probes);
    lemma_found(probes, session);
    lemma_ordered::<LiveStatusSession>(found, session);
    lemma_ordered_contains::<LiveStatusSession>(found, session);
    if found.contains(session) {
        let i = choose|i: int|
            0 <= i < probes.len() && session_of(#[trigger] probes[i]).contains(session);
        let own = session_of(probes[i]);
        let k = own.index_of(session);
        assert(own[k] == session);
        assert(probes[i].metadata is Ok && probes[i].process_runs);
    }
    assert forall|i: int|
        {
            &&& 0 <= i < probes.len()
            &&& (#[trigger] probes[i]).metadata is Ok
            &&& probes[i].process_runs
            &&& probes[i].summary is Ok
            &&& probes[i].tree is Ok
            &&& session.summary == probes[i].summary->Ok_0
            &&& session.forest == probes[i].tree->Ok_0.deep_view()
        } implies found.contains(session) by {
        assert(session_of(probes[i])[0] == session);
        assert(session_of(probes[i]).contains(session));
    }
}

/// A session is shown only where its process runs and answered, and no file of a
/// running process is removed.
pub proof fn lemma_scan(probe: ProbedFile)
    ensures
        session_of(probe).len() > 0 ==> probe.process_runs && stale_of(probe).len() == 0,
        probe.metadata is Ok && probe.process_runs ==> stale_of(probe).len() == 0,
        probe.metadata is Ok && !probe.process_runs ==> stale_of(probe) == seq![
            probe.metadata_path,
            probe.metadata->Ok_0.socket_path,
        ],
{
}

} // verus!
