//! Where the table of `codexx status` shows what, for printable texts.

use vstd::prelude::*;

use crate::agent_tree::ThreadInfo;
use crate::agent_tree_laws::preorder;
use crate::cells::{
    all_printable, append_ellipsis, char_columns, columns, fit_cell, pad_to_width, plain_ellipsized, plain_fitted,
    plain_shortened, plain_truncated, plain_wrapped, printable, repeated,
    skip_space, strip_spaces, text_columns, truncate_to_width, truncate_with_ellipsis, truncated,
    wrap_summary_lines,
};
use crate::status_command::{
    blank_cells, cell_widths, header_row, plain_row_lines, plain_rows_lines, printable_row,
    printable_rows, row_lines, rows_lines, session_table_rows, table_rows, write_status_table,
    write_status_table_row, LiveStatusSession, SessionInfo, StatusTableRow, TableRow,
};
use crate::status_laws::{is_a_status, is_work_of, is_work_of_session, states_of};
use crate::text::{decimal, is_space, joined, squeeze, trim_end};

verus! {

/// The printable ASCII characters are those from the space to the tilde.
pub proof fn lemma_printable(c: char)
    ensures
        printable(c) <==> 0x20 <= c as u32 <= 0x7e,
{
}

/// Whether `s` holds printable ASCII characters only.
pub open spec fn is_plain(s: Seq<char>) -> bool {
    forall|i: int| 0 <= i < s.len() ==> ' ' <= #[trigger] s[i] <= '~'
}

pub(crate) proof fn lemma_is_plain(s: Seq<char>)
    ensures
        is_plain(s) <==> all_printable(s),
{
    if is_plain(s) {
        assert forall|i: int| 0 <= i < s.len() implies printable(#[trigger] s[i]) by {
            assert(' ' <= s[i] <= '~');
        }
    }
    if all_printable(s) {
        assert forall|i: int| 0 <= i < s.len() implies ' ' <= #[trigger] s[i] <= '~' by {
            assert(printable(s[i]));
        }
    }
}

/// Whether the fields of a row hold printable ASCII characters only.
pub open spec fn is_plain_row(row: StatusTableRow) -> bool {
    &&& is_plain(row.pid@)
    &&& is_plain(row.tui_work@)
    &&& is_plain(row.thread_work@)
    &&& is_plain(row.thread_id@)
    &&& is_plain(row.agent_path@)
    &&& is_plain(row.task_name@)
    &&& is_plain(row.agent_type@)
    &&& is_plain(row.nickname@)
    &&& is_plain(row.summary@)
}

proof fn lemma_is_plain_row(row: StatusTableRow)
    requires
        is_plain_row(row),
    ensures
        printable_row(row@),
{
    lemma_is_plain(row.pid@);
    lemma_is_plain(row.tui_work@);
    lemma_is_plain(row.thread_work@);
    lemma_is_plain(row.thread_id@);
    lemma_is_plain(row.agent_path@);
    lemma_is_plain(row.task_name@);
    lemma_is_plain(row.agent_type@);
    lemma_is_plain(row.nickname@);
    lemma_is_plain(row.summary@);
    assert forall|i: int| 0 <= i < row@.cells.len() implies all_printable(
        #[trigger] row@.cells[i],
    ) by {
        assert(row@.cells[i] == column_text(row, i));
    }
}

/// Whether what is told of a thread holds printable ASCII characters only, and its status
/// is one that a thread can have.
pub open spec fn is_plain_thread(thread: ThreadInfo) -> bool {
    &&& is_a_status(thread.status)
    &&& is_plain(thread.thread_id)
    &&& thread.agent_path is Some ==> is_plain(thread.agent_path->0)
    &&& thread.task_name is Some ==> is_plain(thread.task_name->0)
    &&& thread.agent_type is Some ==> is_plain(thread.agent_type->0)
    &&& thread.agent_nickname is Some ==> is_plain(thread.agent_nickname->0)
    &&& thread.summary is Some ==> is_plain(thread.summary->0)
}

proof fn lemma_plain_words()
    ensures
        all_printable("-"@),
        all_printable("/root"@),
        all_printable("root"@),
        all_printable("idle"@),
        all_printable("not_loaded"@),
        all_printable("system_error"@),
        all_printable("working"@),
        all_printable("waiting"@),
        all_printable("waiting_input"@),
        all_printable("waiting_approval"@),
{
    reveal_strlit("-");
    reveal_strlit("/root");
    reveal_strlit("root");
    reveal_strlit("idle");
    reveal_strlit("not_loaded");
    reveal_strlit("system_error");
    reveal_strlit("working");
    reveal_strlit("waiting");
    reveal_strlit("waiting_input");
    reveal_strlit("waiting_approval");
}

proof fn lemma_plain_decimal(n: nat)
    ensures
        all_printable(decimal(n)),
    decreases n,
{
    crate::text_laws::lemma_decimal(n);
    let s = decimal(n);
    if n >= 10 {
        lemma_plain_decimal(n / 10);
        assert forall|i: int| 0 <= i < s.len() implies printable(#[trigger] s[i]) by {
            if i < s.len() - 1 {
                assert(s[i] == s.drop_last()[i]);
                assert(printable(decimal(n / 10)[i]));
            }
        }
    } else {
        assert forall|i: int| 0 <= i < s.len() implies printable(#[trigger] s[i]) by {
            assert(s[i] == s.last());
        }
    }
}

proof fn lemma_plain_work(state: Seq<char>, flags: Seq<Seq<char>>)
    requires
        is_a_status(state),
    ensures
        all_printable(crate::status_command::work_state(state, flags)),
{
    lemma_plain_words();
}

proof fn lemma_plain_session(session: SessionInfo)
    requires
        ({
            let threads = preorder(session.forest);
            &&& forall|m: int| 0 <= m < threads.len() ==> is_plain_thread(#[trigger] threads[m])
            &&& threads.len() == 0 && session.summary.root_thread_id is Some ==> is_plain(
                session.summary.root_thread_id->0@,
            )
        }),
    ensures
        printable_rows(session_table_rows(session)),
{
    let threads = preorder(session.forest);
    let rows = session_table_rows(session);
    lemma_plain_words();
    lemma_plain_decimal(session.summary.pid as nat);
    if session.summary.root_thread_id is Some {
        lemma_is_plain(session.summary.root_thread_id->0@);
    }
    let empty = Seq::<char>::empty();
    assert(all_printable(empty));
    assert forall|k: int| 0 <= k < rows.len() implies printable_row(#[trigger] rows[k]) by {
        if threads.len() > 0 {
            let thread = threads[k];
            assert(is_plain_thread(thread));
            lemma_plain_work(thread.status, thread.active_flags);
            lemma_is_plain(thread.thread_id);
            lemma_is_plain(thread.agent_path->0);
            lemma_is_plain(thread.task_name->0);
            lemma_is_plain(thread.agent_type->0);
            lemma_is_plain(thread.agent_nickname->0);
            lemma_is_plain(thread.summary->0);
            let cells = rows[k].cells;
            assert forall|c: int| 0 <= c < cells.len() implies all_printable(
                #[trigger] cells[c],
            ) by {
                if c == 0 {
                } else if c == 1 {
                } else if c == 2 {
                } else if c == 3 {
                } else if c == 4 {
                } else if c == 5 {
                } else if c == 6 {
                } else {
                    assert(c == 7);
                }
            }
        } else {
            let cells = rows[k].cells;
            assert forall|c: int| 0 <= c < cells.len() implies all_printable(
                #[trigger] cells[c],
            ) by {
                if c == 0 {
                } else if c == 1 {
                } else if c == 2 {
                } else if c == 3 {
                } else if c == 4 {
                } else if c == 5 {
                } else if c == 6 {
                } else {
                    assert(c == 7);
                }
            }
        }
    }
}

/// Whether `line` shows `text` in the `width` columns from `start` on: the text with
/// spaces behind it where it fits; and else its beginning, without spaces at its end, with
/// three dots behind it.
pub open spec fn shows_at(line: Seq<char>, start: int, width: int, text: Seq<char>) -> bool {
    &&& start + width <= line.len()
    &&& text.len() <= width ==> forall|i: int|
        0 <= i < width ==> #[trigger] line[start + i] == if i < text.len() {
            text[i]
        } else {
            ' '
        }
    &&& text.len() > width ==> exists|n: int| #[trigger] shows_beginning(line, start, width, text, n)
}

/// Whether `line` shows the first `n` characters of `text` in the `width` columns from
/// `start` on, and three dots behind them: as many as there is room for, but no space at
/// their end.
pub open spec fn shows_beginning(
    line: Seq<char>,
    start: int,
    width: int,
    text: Seq<char>,
    n: int,
) -> bool {
    &&& 0 <= n <= width - 3
    &&& forall|i: int| 0 <= i < n ==> #[trigger] line[start + i] == text[i]
    &&& forall|i: int| n <= i < n + 3 ==> #[trigger] line[start + i] == '.'
    &&& forall|i: int| n + 3 <= i < width ==> #[trigger] line[start + i] == ' '
    &&& forall|i: int| n <= i < width - 3 ==> #[trigger] text[i] == ' '
    &&& n > 0 ==> text[n - 1] != ' '
}

proof fn lemma_strip(s: Seq<char>) -> (n: int)
    ensures
        0 <= n <= s.len(),
        strip_spaces(s) == s.take(n),
        forall|i: int| n <= i < s.len() ==> #[trigger] s[i] == ' ',
        n > 0 ==> s[n - 1] != ' ',
    decreases s.len(),
{
    if s.len() > 0 && s.last() == ' ' {
        let n = lemma_strip(s.drop_last());
        assert(s.drop_last().take(n) =~= s.take(n));
        assert forall|i: int| n <= i < s.len() implies #[trigger] s[i] == ' ' by {
            if i < s.len() - 1 {
                assert(s.drop_last()[i] == s[i]);
            }
        }
        n
    } else {
        assert(s.take(s.len() as int) =~= s);
        s.len() as int
    }
}

pub(crate) proof fn lemma_plain_fitted(text: Seq<char>, width: nat)
    requires
        width > 3,
    ensures
        plain_fitted(text, width).len() == width,
        shows_at(plain_fitted(text, width), 0, width as int, text),
{
    reveal_strlit("...");
    let cell = plain_fitted(text, width);
    if text.len() > width {
        let head = text.take(width - 3);
        let n = lemma_strip(head);
        assert(strip_spaces(head) =~= text.take(n));
        assert forall|i: int| n <= i < width - 3 implies #[trigger] text[i] == ' ' by {
            assert(head[i] == text[i]);
        }
        if n > 0 {
            assert(head[n - 1] == text[n - 1]);
        }
        assert(cell.len() == width);
        assert forall|i: int| 0 <= i < n implies #[trigger] cell[0 + i] == text[i] by {}
        assert forall|i: int| n <= i < n + 3 implies #[trigger] cell[0 + i] == '.' by {}
        assert(shows_beginning(cell, 0, width as int, text, n));
    }
}

pub(crate) proof fn lemma_cell_in_line(
    cell: Seq<char>,
    line: Seq<char>,
    start: int,
    width: int,
    text: Seq<char>,
)
    requires
        cell.len() == width,
        shows_at(cell, 0, width, text),
        0 <= start,
        start + width <= line.len(),
        line.subrange(start, start + width) == cell,
    ensures
        shows_at(line, start, width, text),
{
    assert forall|i: int| 0 <= i < width implies #[trigger] line[start + i] == cell[0 + i] by {
        assert(line.subrange(start, start + width)[i] == line[start + i]);
    }
    if text.len() > width {
        let n = choose|n: int| #[trigger] shows_beginning(cell, 0, width, text, n);
        assert(shows_beginning(line, start, width, text, n));
    }
}

/// A cell shows its text in its width.
pub proof fn lemma_cell_shows_text(value: &str, width: usize, cell: String)
    requires
        width > 3,
        is_plain(value@),
        call_ensures(fit_cell, (value, width), cell),
    ensures
        cell@.len() == width,
        shows_at(cell@, 0, width as int, value@),
{
    lemma_is_plain(value@);
    lemma_plain_fitted(value@, width as nat);
}

/// A text is cut behind as many characters as fit, padded with spaces, or cut to make room
/// for three dots; one that fits stays as it is.
pub proof fn lemma_cuts(
    value: &str,
    width: usize,
    cut: String,
    shown: String,
    dotted: String,
    wide: String,
)
    requires
        width > 3,
        is_plain(value@),
        call_ensures(truncate_to_width, (value, width), cut),
        call_ensures(truncate_with_ellipsis, (value, width), shown),
        call_ensures(append_ellipsis, (value, width), dotted),
        call_ensures(pad_to_width, (value, width), wide),
    ensures
        value@.len() <= width ==> cut@ == value@ && shown@ == value@,
        value@.len() > width ==> cut@ == value@.subrange(0, width as int) && shown@ == dotted@,
        dotted@.len() <= width,
        dotted@.len() >= 3,
        forall|i: int| dotted@.len() - 3 <= i < dotted@.len() ==> #[trigger] dotted@[i] == '.',
        forall|i: int| 0 <= i < dotted@.len() - 3 ==> #[trigger] dotted@[i] == value@[i],
        dotted@.len() > 3 ==> dotted@[dotted@.len() - 4] != ' ',
        forall|i: int|
            dotted@.len() - 3 <= i < value@.len() && i < width - 3 ==> #[trigger] value@[i] == ' ',
        value@.len() >= width ==> wide@ == value@,
        value@.len() < width ==> wide@.len() == width && (forall|i: int|
            0 <= i < width ==> #[trigger] wide@[i] == if i < value@.len() {
                value@[i]
            } else {
                ' '
            }),
{
    reveal_strlit("...");
    lemma_is_plain(value@);
    let head = plain_truncated(value@, (width - 3) as nat);
    let n = lemma_strip(head);
    assert(dotted@ == head.take(n) + "..."@);
    assert forall|i: int| dotted@.len() - 3 <= i < value@.len() && i < width - 3 implies #[trigger]
        value@[i] == ' ' by {
        assert(head[i] == value@[i]);
    }
    assert(value@.take(width as int) =~= value@.subrange(0, width as int) || value@.len() < width);
}

/// Where the columns begin.
pub open spec fn column_start(c: int) -> int {
    if c == 0 {
        0
    } else if c == 1 {
        10
    } else if c == 2 {
        28
    } else if c == 3 {
        46
    } else if c == 4 {
        84
    } else if c == 5 {
        110
    } else if c == 6 {
        128
    } else if c == 7 {
        142
    } else {
        158
    }
}

/// How wide the columns are; between two of them stand two spaces.
pub open spec fn column_width(c: int) -> int {
    if c == 8 {
        32
    } else {
        column_start(c + 1) - column_start(c) - 2
    }
}

/// The text of each column of a row.
pub open spec fn column_text(row: StatusTableRow, c: int) -> Seq<char> {
    if c == 0 {
        row.pid@
    } else if c == 1 {
        row.tui_work@
    } else if c == 2 {
        row.thread_work@
    } else if c == 3 {
        row.thread_id@
    } else if c == 4 {
        row.agent_path@
    } else if c == 5 {
        row.task_name@
    } else if c == 6 {
        row.agent_type@
    } else {
        row.nickname@
    }
}

proof fn lemma_line(cells: Seq<Seq<char>>, tail: Seq<char>, line: Seq<char>, c: int)
    requires
        cells.len() == 8,
        forall|k: int| 0 <= k < 8 ==> (#[trigger] cells[k]).len() == column_width(k),
        line == joined(cells, "  "@) + "  "@ + tail,
        0 <= c < 8,
    ensures
        line.len() == 158 + tail.len(),
        line.subrange(column_start(c), column_start(c) + column_width(c)) == cells[c],
        line.skip(158) == tail,
{
    reveal_strlit("  ");
    reveal_with_fuel(joined, 9);
    let sep = "  "@;
    assert(cells[0].len() == 8 && cells[1].len() == 16 && cells[2].len() == 16);
    assert(cells[3].len() == 36 && cells[4].len() == 24 && cells[5].len() == 16);
    assert(cells[6].len() == 12 && cells[7].len() == 14);
    assert(cells.drop_last().drop_last().drop_last().drop_last().drop_last().drop_last().drop_last()
        .len() == 1);
    let whole = cells[0] + sep + cells[1] + sep + cells[2] + sep + cells[3] + sep + cells[4] + sep
        + cells[5] + sep + cells[6] + sep + cells[7];
    assert(joined(cells, sep) =~= whole);
    assert(line =~= whole + sep + tail);
    assert(line.skip(158) =~= tail);
    if c == 0 {
        assert(line.subrange(0, 8) =~= cells[0]);
    } else if c == 1 {
        assert(line.subrange(10, 26) =~= cells[1]);
    } else if c == 2 {
        assert(line.subrange(28, 44) =~= cells[2]);
    } else if c == 3 {
        assert(line.subrange(46, 82) =~= cells[3]);
    } else if c == 4 {
        assert(line.subrange(84, 108) =~= cells[4]);
    } else if c == 5 {
        assert(line.subrange(110, 126) =~= cells[5]);
    } else if c == 6 {
        assert(line.subrange(128, 140) =~= cells[6]);
    } else {
        assert(line.subrange(142, 156) =~= cells[7]);
    }
}

proof fn lemma_row_first_line(row: TableRow, wrap: bool, c: int)
    requires
        row.cells.len() == 8,
        0 <= c < 8,
    ensures
        plain_row_lines(row, wrap).len() >= 1,
        plain_row_lines(row, wrap)[0].len() >= 158,
        shows_at(
            plain_row_lines(row, wrap)[0],
            column_start(c),
            column_width(c),
            row.cells[c],
        ),
        plain_row_lines(row, wrap)[0].skip(158) == plain_shortened(
            if wrap {
                plain_wrapped(squeeze(row.summary))[0]
            } else {
                row.summary
            },
            32,
        ),
{
    reveal_strlit("  ");
    let cells = Seq::new(8, |k: int| plain_fitted(row.cells[k], cell_widths()[k]));
    assert forall|k: int| 0 <= k < 8 implies (#[trigger] cells[k]).len() == column_width(k)
        && shows_at(cells[k], 0, column_width(k), row.cells[k]) by {
        lemma_plain_fitted(row.cells[k], cell_widths()[k]);
    }
    let first = if wrap {
        plain_wrapped(squeeze(row.summary))[0]
    } else {
        row.summary
    };
    let tail = plain_shortened(first, 32);
    let line = plain_row_lines(row, wrap)[0];
    assert(line == joined(cells, "  "@) + "  "@ + tail);
    lemma_line(cells, tail, line, c);
    lemma_cell_in_line(cells[c], line, column_start(c), column_width(c), row.cells[c]);
}

/// Each field of a row stands in the column of its name, on the first line that is added
/// for the row, and the lines that were there stay.
pub proof fn lemma_row_shows_its_fields(row: &StatusTableRow, wrap: bool, c: int)
    requires
        is_plain_row(*row),
        0 <= c < 8,
    ensures
        forall|lines: &mut Vec<String>| #[trigger]
            call_ensures(write_status_table_row, (lines, row, wrap), ()) ==> final(lines)@.len()
                > lines@.len() && shows_at(
                final(lines).deep_view()[lines@.len() as int],
                column_start(c),
                column_width(c),
                column_text(*row, c),
            ) && (forall|i: int|
                0 <= i < lines@.len() ==> (#[trigger] final(lines).deep_view()[i])
                    == lines.deep_view()[i]),
{
    lemma_is_plain_row(*row);
    lemma_row_first_line(row@, wrap, c);
    assert(row@.cells[c] == column_text(*row, c));
    assert forall|lines: &mut Vec<String>| #[trigger]
        call_ensures(write_status_table_row, (lines, row, wrap), ()) implies final(lines)@.len()
        > lines@.len() && shows_at(
        final(lines).deep_view()[lines@.len() as int],
        column_start(c),
        column_width(c),
        column_text(*row, c),
    ) && (forall|i: int|
        0 <= i < lines@.len() ==> (#[trigger] final(lines).deep_view()[i])
            == lines.deep_view()[i]) by {
        let after = final(lines).deep_view();
        let more = row_lines(row@, wrap);
        assert(after == lines.deep_view() + more);
        assert(after.len() == final(lines)@.len());
        assert(after[lines@.len() as int] == more[0]);
    }
}

/// Whether `gap` holds spaces only.
pub open spec fn only_spaces(gap: Seq<char>) -> bool {
    forall|i: int| 0 <= i < gap.len() ==> #[trigger] gap[i] == ' '
}

proof fn lemma_trim_printable(s: Seq<char>) -> (n: int)
    requires
        all_printable(s),
    ensures
        0 <= n <= s.len(),
        trim_end(s) == s.take(n),
        only_spaces(s.skip(n)),
        n > 0 ==> s[n - 1] != ' ',
    decreases s.len(),
{
    if s.len() > 0 && is_space(s.last()) {
        let rest = s.drop_last();
        assert(printable(s[s.len() - 1]));
        assert(s.last() == ' ');
        assert(all_printable(rest)) by {
            assert forall|i: int| 0 <= i < rest.len() implies printable(#[trigger] rest[i]) by {
                assert(printable(s[i]));
            }
        }
        let n = lemma_trim_printable(rest);
        assert(rest.take(n) =~= s.take(n));
        assert forall|i: int| 0 <= i < s.skip(n).len() implies #[trigger] s.skip(n)[i] == ' ' by {
            if i < rest.skip(n).len() {
                assert(rest.skip(n)[i] == s.skip(n)[i]);
            }
        }
        n
    } else {
        assert(s.take(s.len() as int) =~= s);
        if s.len() > 0 {
            assert(s[s.len() - 1] != ' ');
        }
        s.len() as int
    }
}

pub(crate) proof fn lemma_squeeze_plain(s: Seq<char>)
    requires
        all_printable(s),
    ensures
        all_printable(squeeze(s)),
    decreases s.len(),
{
    if s.len() > 0 {
        let rest = s.drop_last();
        assert(all_printable(rest)) by {
            assert forall|i: int| 0 <= i < rest.len() implies printable(#[trigger] rest[i]) by {
                assert(printable(s[i]));
            }
        }
        lemma_squeeze_plain(rest);
        assert(printable(s[s.len() - 1]));
        let all = squeeze(s);
        let before = squeeze(rest);
        assert forall|i: int| 0 <= i < all.len() implies printable(#[trigger] all[i]) by {
            if i < before.len() {
                assert(printable(before[i]));
            }
        }
    }
}

/// The words of a summary, with one space between them, stand on one line where they fit.
/// Else the first line holds the first 32 characters, without spaces at their end; the
/// second line what is left behind them and one space, or the beginning of it with three
/// dots behind it.
pub proof fn lemma_summary_wraps(summary: &str, lines: Vec<String>)
    requires
        is_plain(summary@),
        call_ensures(wrap_summary_lines, (summary,), lines),
    ensures
        ({
            let words = squeeze(summary@);
            let rest = if words.len() > 32 && words[32] == ' ' {
                words.subrange(33, words.len() as int)
            } else {
                words.subrange(32, words.len() as int)
            };
            &&& words.len() <= 32 ==> lines@.len() == 1 && lines@[0]@ == words
            &&& words.len() > 32 ==> lines@.len() == 2 && lines@[0]@.len() <= 32
                && lines@[0]@.is_prefix_of(words) && only_spaces(
                words.subrange(lines@[0]@.len() as int, 32),
            )
            &&& words.len() > 32 && rest.len() <= 32 ==> lines@[1]@ == rest
            &&& words.len() > 32 && rest.len() > 32 ==> 3 <= lines@[1]@.len() <= 32
                && lines@[1]@.subrange(lines@[1]@.len() - 3, lines@[1]@.len() as int) == seq![
                '.',
                '.',
                '.',
            ] && lines@[1]@.subrange(0, lines@[1]@.len() - 3).is_prefix_of(rest)
        }),
{
    reveal_strlit("...");
    let words = squeeze(summary@);
    lemma_is_plain(summary@);
    lemma_squeeze_plain(summary@);
    crate::text::lemma_squeeze(summary@);
    let told = lines.deep_view();
    assert(told.len() == lines@.len());
    assert forall|i: int| 0 <= i < lines@.len() implies told[i] == (#[trigger] lines@[i])@ by {}
    let first = plain_truncated(words, 32);
    let rest = skip_space(words.skip(first.len() as int));
    assert(all_printable(first)) by {
        assert forall|i: int| 0 <= i < first.len() implies printable(#[trigger] first[i]) by {
            assert(printable(words[i]));
        }
    }
    let n = lemma_trim_printable(first);
    if words.len() <= 32 {
        assert(rest.len() == 0);
        if words.len() > 0 {
            assert(words.last() != ' ');
        }
        assert(trim_end(first) =~= words) by {
            if n < words.len() {
                assert(first.skip(n)[words.len() - 1 - n] == words.last());
            }
        }
        assert(told[0] == words);
    } else {
        assert(words.skip(32) =~= words.subrange(32, words.len() as int));
        if words[32] == ' ' {
            if words.len() == 33 {
                assert(words.last() == ' ');
            }
            assert(words.skip(32).drop_first() =~= words.subrange(33, words.len() as int));
        }
        assert(rest.len() > 0);
        assert(first =~= words.take(32));
        assert(told[0] =~= words.take(n));
        assert(told[0] =~= words.subrange(0, n));
        assert(words.subrange(n, 32) =~= first.skip(n));
        let second = plain_truncated(rest, 32);
        assert(all_printable(second)) by {
            assert forall|i: int| 0 <= i < second.len() implies printable(#[trigger] second[i]) by {
                let k = words.len() - rest.len() + i;
                assert(printable(words[k]));
                assert(rest[i] == words[k]);
            }
        }
        let m = lemma_trim_printable(second);
        if rest.len() <= 32 {
            assert(second == rest);
            assert(rest.last() == words.last());
            assert(trim_end(second) =~= rest) by {
                if m < rest.len() {
                    assert(second.skip(m)[rest.len() - 1 - m] == rest.last());
                }
            }
        } else {
            let line = trim_end(second);
            let cut = plain_truncated(line, 29);
            let k = lemma_strip(cut);
            let shown = cut.take(k) + "..."@;
            assert(told[1] == plain_ellipsized(line, 32));
            assert(told[1] == shown);
            assert(shown.subrange(shown.len() - 3, shown.len() as int) =~= seq!['.', '.', '.']);
            assert(shown.subrange(0, shown.len() - 3) =~= cut.take(k));
            assert(cut.take(k) =~= rest.subrange(0, k));
        }
    }
}

proof fn lemma_rows_lines_join(a: Seq<TableRow>, b: Seq<TableRow>)
    ensures
        rows_lines(a + b) == rows_lines(a) + rows_lines(b),
    decreases b.len(),
{
    if b.len() > 0 {
        lemma_rows_lines_join(a, b.drop_last());
        assert((a + b).drop_last() =~= a + b.drop_last());
        assert((a + b).last() == b.last());
        assert(rows_lines(a + b) =~= rows_lines(a) + rows_lines(b));
    } else {
        assert(a + b =~= a);
        assert(rows_lines(a) + rows_lines(b) =~= rows_lines(a));
    }
}

proof fn lemma_table_rows_join(a: Seq<SessionInfo>, b: Seq<SessionInfo>)
    ensures
        table_rows(a + b) == table_rows(a) + table_rows(b),
    decreases b.len(),
{
    if b.len() > 0 {
        lemma_table_rows_join(a, b.drop_last());
        assert((a + b).drop_last() =~= a + b.drop_last());
        assert((a + b).last() == b.last());
        assert(table_rows(a + b) =~= table_rows(a) + table_rows(b));
    } else {
        assert(a + b =~= a);
        assert(table_rows(a) + table_rows(b) =~= table_rows(a));
    }
}

/// The table of several sessions is that of the first ones, with that of the others below
/// it; the head is not repeated.
pub proof fn lemma_tables_stack(
    a: &Vec<LiveStatusSession>,
    b: &Vec<LiveStatusSession>,
    both: &Vec<LiveStatusSession>,
    lines_a: Vec<String>,
    lines_b: Vec<String>,
    lines: Vec<String>,
)
    requires
        a@.len() > 0,
        b@.len() > 0,
        both@ == a@ + b@,
        call_ensures(write_status_table, (a,), lines_a),
        call_ensures(write_status_table, (b,), lines_b),
        call_ensures(write_status_table, (both,), lines),
    ensures
        lines_a@.len() > 0 && lines_b@.len() > 0,
        lines_a.deep_view()[0] == lines_b.deep_view()[0],
        lines.deep_view() == lines_a.deep_view() + lines_b.deep_view().drop_first(),
{
    let x = a.deep_view();
    let y = b.deep_view();
    assert(both.deep_view() =~= x + y);
    lemma_table_rows_join(x, y);
    lemma_rows_lines_join(table_rows(x), table_rows(y));
    let head = row_lines(header_row(), false);
    assert(head.len() == 1);
    assert((head + rows_lines(table_rows(y))).drop_first() =~= rows_lines(table_rows(y)));
    assert(lines.deep_view() =~= lines_a.deep_view() + lines_b.deep_view().drop_first());
}

/// The names of the columns.
pub open spec fn column_name(c: int) -> Seq<char> {
    if c == 0 {
        "TUI_PID"@
    } else if c == 1 {
        "TUI_WORK"@
    } else if c == 2 {
        "THREAD_WORK"@
    } else if c == 3 {
        "THREAD_ID"@
    } else if c == 4 {
        "AGENT_PATH"@
    } else if c == 5 {
        "TASK_NAME"@
    } else if c == 6 {
        "AGENT_TYPE"@
    } else {
        "NICKNAME"@
    }
}

/// Whether `line` shows `thread` of a session: its process, the work state of the session
/// and its own, its id, path, task, type and nickname, a dash where it has none.
pub open spec fn shows_thread(
    line: Seq<char>,
    session: SessionInfo,
    thread: ThreadInfo,
) -> bool {
    let dash = |text: Option<Seq<char>>|
        if text is Some {
            text->0
        } else {
            "-"@
        };
    &&& shows_at(line, 0, 8, decimal(session.summary.pid as nat))
    &&& exists|work: Seq<char>|
        is_work_of_session(
            work,
            session.summary.active_thread_count as nat,
            states_of(preorder(session.forest)),
        ) && #[trigger] shows_at(line, 10, 16, work)
    &&& exists|work: Seq<char>|
        is_work_of(work, thread.status, thread.active_flags) && #[trigger] shows_at(
            line,
            28,
            16,
            work,
        )
    &&& shows_at(line, 46, 36, thread.thread_id)
    &&& shows_at(line, 84, 24, dash(thread.agent_path))
    &&& shows_at(line, 110, 16, dash(thread.task_name))
    &&& shows_at(line, 128, 12, dash(thread.agent_type))
    &&& shows_at(line, 142, 14, dash(thread.agent_nickname))
}

proof fn lemma_one_line_rows(rows: Seq<TableRow>)
    requires
        forall|k: int|
            0 <= k < rows.len() ==> plain_row_lines(#[trigger] rows[k], true).len() == 1,
    ensures
        plain_rows_lines(rows).len() == rows.len(),
        forall|k: int|
            0 <= k < rows.len() ==> #[trigger] plain_rows_lines(rows)[k] == plain_row_lines(
                rows[k],
                true,
            )[0],
    decreases rows.len(),
{
    if rows.len() > 0 {
        let rest = rows.drop_last();
        assert forall|k: int| 0 <= k < rest.len() implies plain_row_lines(
            #[trigger] rest[k],
            true,
        ).len() == 1 by {
            assert(rest[k] == rows[k]);
        }
        lemma_one_line_rows(rest);
        assert(plain_row_lines(rows[rows.len() - 1], true).len() == 1);
        assert forall|k: int| 0 <= k < rows.len() implies #[trigger] plain_rows_lines(rows)[k]
            == plain_row_lines(rows[k], true)[0] by {
            if k < rest.len() {
                assert(plain_rows_lines(rows)[k] == plain_rows_lines(rest)[k]);
                assert(rest[k] == rows[k]);
            }
        }
    }
}

proof fn lemma_short_summary(summary: Seq<char>)
    requires
        squeeze(summary).len() <= 32,
    ensures
        plain_wrapped(squeeze(summary)) == seq![squeeze(summary)],
{
    let words = squeeze(summary);
    crate::text::lemma_squeeze(summary);
    let first = plain_truncated(words, 32);
    assert(words.skip(first.len() as int).len() == 0);
    assert(trim_end(words) == words);
    assert(plain_wrapped(words) =~= seq![words]);
}

/// The table of one session, whose summaries each fit on one line: the names of the
/// columns, and one line for each thread, in the order of the tree, each field in the
/// column of its name and the words of the summary behind them.
pub proof fn lemma_table_shows_threads(
    sessions: &Vec<LiveStatusSession>,
    lines: Vec<String>,
    k: int,
    c: int,
)
    requires
        sessions@.len() == 1,
        ({
            let threads = preorder(sessions@[0].tree.deep_view());
            &&& threads.len() > 0
            &&& forall|m: int|
                0 <= m < threads.len() ==> is_plain_thread(#[trigger] threads[m]) && (
                threads[m].summary is Some ==> squeeze(threads[m].summary->0).len() <= 32)
        }),
        0 <= c < 8,
        call_ensures(write_status_table, (sessions,), lines),
    ensures
        ({
            let session = sessions@[0].deep_view();
            let threads = preorder(session.forest);
            &&& lines@.len() == threads.len() + 1
            &&& shows_at(lines.deep_view()[0], column_start(c), column_width(c), column_name(c))
            &&& lines.deep_view()[0].skip(158) == "SUMMARY"@
            &&& 0 <= k < threads.len() ==> shows_thread(
                lines.deep_view()[k + 1],
                session,
                threads[k],
            )
            &&& 0 <= k < threads.len() ==> lines.deep_view()[k + 1].skip(158) == if
            threads[k].summary is Some {
                squeeze(threads[k].summary->0)
            } else {
                Seq::empty()
            }
        }),
{
    let infos = sessions.deep_view();
    let session = infos[0];
    let threads = preorder(session.forest);
    let rows = table_rows(infos);
    assert(infos.drop_last() =~= Seq::empty());
    assert(table_rows(infos.drop_last()) =~= Seq::empty());
    assert(rows =~= session_table_rows(session));
    lemma_plain_session(session);
    let count = session.summary.active_thread_count as nat;
    let tui_work = crate::status_command::session_work(
        count,
        crate::status_command::work_states(threads),
    );
    assert forall|m: int| 0 <= m < rows.len() implies plain_row_lines(
        #[trigger] rows[m],
        true,
    ).len() == 1 && plain_wrapped(squeeze(rows[m].summary)) == seq![
        squeeze(rows[m].summary),
    ] by {
        assert(is_plain_thread(threads[m]));
        assert(squeeze(Seq::<char>::empty()) =~= Seq::empty());
        lemma_short_summary(rows[m].summary);
    }
    lemma_one_line_rows(rows);
    let head = plain_row_lines(header_row(), false);
    let told = lines.deep_view();
    assert(head.len() == 1);
    assert(told == head + plain_rows_lines(rows));
    lemma_row_first_line(header_row(), false, c);
    assert(header_row().cells[c] == column_name(c));
    reveal_strlit("SUMMARY");
    assert("SUMMARY"@.len() == 7);
    if 0 <= k < threads.len() {
        let row = rows[k];
        let line = plain_row_lines(row, true)[0];
        assert(told[k + 1] == line);
        lemma_row_first_line(row, true, 0);
        lemma_row_first_line(row, true, 1);
        lemma_row_first_line(row, true, 2);
        lemma_row_first_line(row, true, 3);
        lemma_row_first_line(row, true, 4);
        lemma_row_first_line(row, true, 5);
        lemma_row_first_line(row, true, 6);
        lemma_row_first_line(row, true, 7);
        assert forall|m: int| 0 <= m < threads.len() implies is_a_status(
            (#[trigger] threads[m]).status,
        ) by {
            assert(is_plain_thread(threads[m]));
        }
        crate::status_laws::lemma_work_of_threads(count, threads);
        assert(is_work_of_session(tui_work, count, states_of(threads)));
        assert(row.cells[1] == tui_work);
        assert(shows_at(line, 10, 16, tui_work));
        let own = row.cells[2];
        crate::status_laws::lemma_work_of_thread(threads[k]);
        assert(is_work_of(own, threads[k].status, threads[k].active_flags));
        assert(shows_at(line, 28, 16, own));
        assert(plain_row_lines(row, true).len() == 1);
        assert(squeeze(row.summary).len() <= 32) by {
            assert(is_plain_thread(threads[k]));
            assert(squeeze(Seq::<char>::empty()) =~= Seq::empty());
        }
        let thread = threads[k];
        assert(row == crate::status_command::thread_row(session.summary.pid, tui_work, thread));
        assert(row.cells[0] == decimal(session.summary.pid as nat));
        assert(row.cells[3] == thread.thread_id);
        assert(shows_at(line, 46, 36, thread.thread_id));
        assert(shows_at(line, 84, 24, row.cells[4]));
        assert(shows_at(line, 110, 16, row.cells[5]));
        assert(shows_at(line, 128, 12, row.cells[6]));
        assert(shows_at(line, 142, 14, row.cells[7]));
        assert(shows_thread(line, session, thread));
        assert(line.skip(158) == squeeze(row.summary));
        assert(squeeze(Seq::<char>::empty()) =~= Seq::empty());
    }
    assert(told.len() == lines@.len());
    assert(told[0] == head[0]);
    assert(told[0].skip(158) == "SUMMARY"@);
}

/// Without a session the table says so in one line; a session without threads takes one
/// row, with its root thread and a dash for what it lacks.
pub proof fn lemma_tables_without_threads(
    sessions: &Vec<LiveStatusSession>,
    lines: Vec<String>,
)
    requires
        call_ensures(write_status_table, (sessions,), lines),
    ensures
        sessions@.len() == 0 ==> lines@.len() == 1 && lines.deep_view()[0]
            == "No live codexx TUI sessions found."@,
        sessions@.len() == 1 && preorder(sessions@[0].tree.deep_view()).len() == 0 && (
        sessions@[0].summary.root_thread_id is Some ==> is_plain(
            sessions@[0].summary.root_thread_id->0@,
        )) ==> ({
            let summary = sessions@[0].summary;
            let line = lines.deep_view()[1];
            &&& lines@.len() == 2
            &&& shows_at(line, 0, 8, decimal(summary.pid as nat))
            &&& shows_at(
                line,
                10,
                16,
                if summary.active_thread_count > 0 {
                    "working"@
                } else {
                    "idle"@
                },
            )
            &&& shows_at(line, 28, 16, "-"@)
            &&& shows_at(
                line,
                46,
                36,
                if summary.root_thread_id is Some {
                    summary.root_thread_id->0@
                } else {
                    "-"@
                },
            )
            &&& shows_at(line, 84, 24, "/root"@)
            &&& shows_at(line, 110, 16, "root"@)
            &&& shows_at(line, 128, 12, "-"@)
            &&& shows_at(line, 142, 14, "-"@)
            &&& line.skip(158).len() == 0
        }),
{
    let infos = sessions.deep_view();
    let told = lines.deep_view();
    assert(told.len() == lines@.len());
    if sessions@.len() == 1 && preorder(sessions@[0].tree.deep_view()).len() == 0 && (
    sessions@[0].summary.root_thread_id is Some ==> is_plain(
        sessions@[0].summary.root_thread_id->0@,
    )) {
        let rows = table_rows(infos);
        let session = infos[0];
        lemma_plain_session(session);
        assert(infos.drop_last() =~= Seq::empty());
        assert(table_rows(infos.drop_last()) =~= Seq::empty());
        assert(rows =~= session_table_rows(session));
        let row = rows[0];
        assert(squeeze(Seq::<char>::empty()) =~= Seq::empty());
        assert(row.summary =~= Seq::empty());
        lemma_short_summary(row.summary);
        assert forall|m: int| 0 <= m < rows.len() implies plain_row_lines(
            #[trigger] rows[m],
            true,
        ).len() == 1 by {}
        lemma_one_line_rows(rows);
        let head = plain_row_lines(header_row(), false);
        assert(head.len() == 1);
        assert(told == head + plain_rows_lines(rows));
        assert(told[1] == plain_row_lines(row, true)[0]);
        lemma_row_first_line(row, true, 0);
        lemma_row_first_line(row, true, 1);
        lemma_row_first_line(row, true, 2);
        lemma_row_first_line(row, true, 3);
        lemma_row_first_line(row, true, 4);
        lemma_row_first_line(row, true, 5);
        lemma_row_first_line(row, true, 6);
        lemma_row_first_line(row, true, 7);
    }
}

/// A row whose summary is wrapped takes as many lines as its summary does. Each of them
/// shows one line of the summary behind the columns, and only the first line shows the
/// other fields: on the others there are spaces in their place.
pub proof fn lemma_row_wraps_its_summary(
    row: &StatusTableRow,
    summary: &str,
    texts: Vec<String>,
    k: int,
)
    requires
        is_plain_row(*row),
        summary@ == row.summary@,
        call_ensures(wrap_summary_lines, (summary,), texts),
        0 <= k < texts@.len(),
    ensures
        forall|lines: &mut Vec<String>| #[trigger]
            call_ensures(write_status_table_row, (lines, row, true), ()) ==> final(lines)@.len()
                == lines@.len() + texts@.len() && final(lines).deep_view()[lines@.len() + k].skip(
                158,
            ) == texts@[k]@ && (k > 0 ==> only_spaces(
                final(lines).deep_view()[lines@.len() + k].take(158),
            )),
{
    let words = squeeze(row.summary@);
    lemma_is_plain_row(*row);
    let told = plain_wrapped(words);
    let all = plain_row_lines(row@, true);
    assert(texts.deep_view() == told);
    assert(told[k] == texts@[k]@);
    assert(told[k].len() <= 32);
    let cells = if k == 0 {
        Seq::new(8, |c: int| plain_fitted(row@.cells[c], cell_widths()[c]))
    } else {
        blank_cells()
    };
    assert forall|c: int| 0 <= c < 8 implies (#[trigger] cells[c]).len() == column_width(c) by {
        lemma_plain_fitted(row@.cells[c], cell_widths()[c]);
    }
    let line = all[k];
    assert(line == joined(cells, "  "@) + "  "@ + told[k]);
    lemma_line(cells, told[k], line, 0);
    if k > 0 {
        lemma_blank_line(cells, told[k], line);
    }
    assert forall|lines: &mut Vec<String>| #[trigger]
        call_ensures(write_status_table_row, (lines, row, true), ()) implies final(lines)@.len()
        == lines@.len() + texts@.len() && final(lines).deep_view()[lines@.len() + k].skip(158)
        == texts@[k]@ && (k > 0 ==> only_spaces(
        final(lines).deep_view()[lines@.len() + k].take(158),
    )) by {
        let after = final(lines).deep_view();
        assert(after == lines.deep_view() + row_lines(row@, true));
        assert(after.len() == final(lines)@.len());
        assert(after[lines@.len() + k] == all[k]);
    }
}

proof fn lemma_blank_line(cells: Seq<Seq<char>>, tail: Seq<char>, line: Seq<char>)
    requires
        cells == blank_cells(),
        line == joined(cells, "  "@) + "  "@ + tail,
    ensures
        line.len() >= 158,
        only_spaces(line.take(158)),
{
    reveal_strlit("  ");
    reveal_with_fuel(joined, 9);
    let sep = "  "@;
    assert forall|c: int| 0 <= c < 8 implies only_spaces(#[trigger] cells[c]) && cells[c].len()
        == column_width(c) by {}
    assert(only_spaces(sep));
    assert(cells[0].len() == 8 && cells[1].len() == 16 && cells[2].len() == 16);
    assert(cells[3].len() == 36 && cells[4].len() == 24 && cells[5].len() == 16);
    assert(cells[6].len() == 12 && cells[7].len() == 14);
    assert(cells.drop_last().drop_last().drop_last().drop_last().drop_last().drop_last().drop_last()
        .len() == 1);
    let a = cells[0] + sep + cells[1] + sep;
    let b = cells[2] + sep + cells[3] + sep;
    let c = cells[4] + sep + cells[5] + sep;
    let d = cells[6] + sep + cells[7] + sep;
    assert(only_spaces(a) && only_spaces(b) && only_spaces(c) && only_spaces(d));
    let whole = a + b + c + d;
    assert(only_spaces(whole));
    assert(line =~= whole + tail);
    assert(line.take(158) =~= whole);
}

/// Text of any kind: what fits stays as it is; else the longest beginning that leaves room
/// for three dots, without spaces at its end, stands before them. A shorter one is padded
/// with spaces.
pub proof fn lemma_cuts_of_any_text(
    value: &str,
    width: usize,
    shown: String,
    wide: String,
    cut: String,
    cell: String,
)
    requires
        width > 3,
        call_ensures(truncate_with_ellipsis, (value, width), shown),
        call_ensures(pad_to_width, (value, width), wide),
        call_ensures(truncate_to_width, (value, width), cut),
        call_ensures(fit_cell, (value, width), cell),
    ensures
        text_columns(value@) <= width ==> shown@ == value@,
        text_columns(value@) > width ==> exists|head: Seq<char>, n: int|
            #[trigger] is_longest_beginning(head, value@, (width - 3) as nat) && 0 <= n
                <= head.len() && shown@ == #[trigger] head.subrange(0, n) + seq!['.', '.', '.']
                && only_spaces(head.subrange(n, head.len() as int)) && (n > 0 ==> head[n - 1]
                != ' '),
        is_longest_beginning(cut@, value@, width as nat),
        text_columns(value@) >= width ==> wide@ == value@,
        text_columns(value@) < width ==> wide@.len() == value@.len() + width - text_columns(value@)
            && value@.is_prefix_of(wide@) && only_spaces(
            wide@.subrange(value@.len() as int, wide@.len() as int),
        ),
        text_columns(value@) == width ==> cell@ == value@,
        text_columns(value@) < width ==> cell@ == wide@,
        text_columns(value@) > width && text_columns(shown@) >= width ==> cell@ == shown@,
{
    reveal_strlit("...");
    if text_columns(value@) > width {
        let head = truncated(value@, (width - 3) as nat);
        lemma_is_longest(value@, (width - 3) as nat);
        let n = lemma_strip(head);
        assert(head.take(n) =~= head.subrange(0, n));
        assert("..."@ =~= seq!['.', '.', '.']);
        assert(only_spaces(head.subrange(n, head.len() as int))) by {
            assert forall|i: int|
                0 <= i < head.subrange(n, head.len() as int).len() implies #[trigger] head.subrange(
                n,
                head.len() as int,
            )[i] == ' ' by {
                assert(head[n + i] == ' ');
            }
        }
        assert(shown@ == head.subrange(0, n) + seq!['.', '.', '.']);
    }
    lemma_is_longest(value@, width as nat);
    if text_columns(value@) < width {
        assert(wide@.subrange(0, value@.len() as int) =~= value@);
    }
}

/// Whether `head` is the longest beginning of `s` whose characters take at most `width`
/// columns, each by itself.
pub open spec fn is_longest_beginning(head: Seq<char>, s: Seq<char>, width: nat) -> bool {
    &&& head.len() <= s.len()
    &&& head == s.subrange(0, head.len() as int)
    &&& columns(head) <= width
    &&& head.len() < s.len() ==> columns(s.subrange(0, head.len() as int + 1)) > width
}

proof fn lemma_is_longest(s: Seq<char>, width: nat)
    ensures
        is_longest_beginning(truncated(s, width), s, width),
    decreases s.len(),
{
    if columns(s) <= width || s.len() == 0 {
        assert(s.subrange(0, s.len() as int) =~= s);
    } else {
        let rest = s.drop_last();
        lemma_is_longest(rest, width);
        let head = truncated(rest, width);
        assert(rest.subrange(0, head.len() as int) =~= s.subrange(0, head.len() as int));
        if head.len() < rest.len() {
            assert(rest.subrange(0, head.len() as int + 1) =~= s.subrange(
                0,
                head.len() as int + 1,
            ));
        } else {
            assert(s.subrange(0, head.len() as int + 1) =~= s);
        }
    }
}

/// The columns of a text are those of its characters, and a character without a width
/// takes none.
pub proof fn lemma_columns(a: Seq<char>, c: char)
    ensures
        columns(Seq::empty()) == 0,
        columns(a.push(c)) == columns(a) + if char_columns(c) is Some {
            char_columns(c)->0
        } else {
            0
        },
{
    assert(a.push(c).drop_last() =~= a);
}

/// Where there is no room for more than three dots, there are only dots.
pub proof fn lemma_narrow_cells(value: &str, width: usize, dotted: String, shown: String, i: int)
    requires
        width <= 3,
        call_ensures(append_ellipsis, (value, width), dotted),
        call_ensures(truncate_with_ellipsis, (value, width), shown),
    ensures
        dotted@.len() == width,
        0 <= i < width ==> dotted@[i] == '.',
        text_columns(value@) <= width ==> shown@ == value@,
        text_columns(value@) > width ==> shown@ == dotted@,
{
}

} // verus!
