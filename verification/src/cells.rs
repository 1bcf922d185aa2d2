//! Text cut and padded to a number of terminal columns.

use vstd::prelude::*;
use vstd::string::*;

use unicode_width::UnicodeWidthChar;
use unicode_width::UnicodeWidthStr;

use crate::text::{
    chars_of, is_space, squeeze, squeeze_text, text_of, trim_end, trimmed_end,
};

verus! {

/// What `UnicodeWidthChar::width` returns for `c`.
pub uninterp spec fn char_columns(c: char) -> Option<nat>;

/// What `UnicodeWidthStr::width` returns for the text `s`.
pub uninterp spec fn text_columns(s: Seq<char>) -> nat;

/// Whether `c` is a printable ASCII character.
pub open spec fn printable(c: char) -> bool {
    ' ' <= c <= '~'
}

/// Whether `s` holds nothing but printable ASCII characters.
pub open spec fn all_printable(s: Seq<char>) -> bool {
    forall|i: int| 0 <= i < s.len() ==> printable(#[trigger] s[i])
}

/// Whether `c` is a control character.
pub open spec fn is_control(c: char) -> bool {
    c < ' ' || '\u{7f}' <= c < '\u{a0}'
}

/// `UnicodeWidthChar::width`: how many columns `c` takes by itself. The result
/// depends on `c` alone; it is `None` for a control character and for nothing
/// else, 1 for a printable ASCII character, and never more than 3. The widths of
/// other characters are those of the Unicode tables of the crate, which are not
/// restated.
#[verifier::external_body]
fn char_width(c: char) -> (width: Option<usize>)
    ensures
        match width {
            Some(w) => char_columns(c) == Some(w as nat),
            None => char_columns(c) is None,
        },
        width is None == is_control(c),
        printable(c) ==> width == Some(1usize),
        width is Some ==> width->0 <= 3,
{
    UnicodeWidthChar::width(c)
}

/// `UnicodeWidthStr::width`: how many columns `value` takes. The result depends
/// on the characters of `value` alone, and is their number where all of them are
/// printable ASCII characters. How other characters combine is left to the
/// Unicode tables of the crate.
#[verifier::external_body]
fn display_width(value: &str) -> (width: usize)
    ensures
        width == text_columns(value@),
        all_printable(value@) ==> width == value@.len(),
{
    UnicodeWidthStr::width(value)
}

/// How many columns `c` takes; a control character takes none.
pub open spec fn columns_of(c: char) -> nat {
    match char_columns(c) {
        Some(w) => w,
        None => 0,
    }
}

/// How many columns the characters of `s` take, each by itself.
pub open spec fn columns(s: Seq<char>) -> nat
    decreases s.len(),
{
    if s.len() == 0 {
        0
    } else {
        columns(s.drop_last()) + columns_of(s.last())
    }
}

/// The longest beginning of `s` that takes at most `width` columns.
pub open spec fn truncated(s: Seq<char>, width: nat) -> Seq<char>
    decreases s.len(),
{
    if columns(s) <= width || s.len() == 0 {
        s
    } else {
        truncated(s.drop_last(), width)
    }
}

/// `s` without the spaces at its end.
pub open spec fn strip_spaces(s: Seq<char>) -> Seq<char>
    decreases s.len(),
{
    if s.len() > 0 && s.last() == ' ' {
        strip_spaces(s.drop_last())
    } else {
        s
    }
}

/// `n` times the character `c`.
pub open spec fn repeated(c: char, n: nat) -> Seq<char> {
    Seq::new(n, |i: int| c)
}

/// `s` cut to leave room for an ellipsis within `width` columns.
pub open spec fn ellipsized(s: Seq<char>, width: nat) -> Seq<char> {
    if width <= 3 {
        repeated('.', width)
    } else {
        strip_spaces(truncated(s, (width - 3) as nat)) + "..."@
    }
}

/// `s`, or what is left of it within `width` columns.
pub open spec fn shortened(s: Seq<char>, width: nat) -> Seq<char> {
    if text_columns(s) <= width {
        s
    } else {
        ellipsized(s, width)
    }
}

/// `s` with spaces behind it up to `width` columns.
pub open spec fn padded(s: Seq<char>, width: nat) -> Seq<char> {
    if text_columns(s) < width {
        s + repeated(' ', (width - text_columns(s)) as nat)
    } else {
        s
    }
}

/// `s` shortened or padded to `width` columns.
pub open spec fn fitted(s: Seq<char>, width: nat) -> Seq<char> {
    padded(shortened(s, width), width)
}

/// Whether `s` takes no more than `width` columns: it does so as a whole, or it
/// is a beginning that does so by itself, with an ellipsis.
pub open spec fn within_columns(s: Seq<char>, width: nat) -> bool {
    ||| text_columns(s) <= width
    ||| width >= 3 && exists|head: Seq<char>| #[trigger]
        columns(head) <= width - 3 && s == head + "..."@
}

/// Whether the characters of `s`, each by itself, take no more than `width` columns:
/// all of them do, or a beginning does and leaves room for the ellipsis behind it.
pub open spec fn fits_columns(s: Seq<char>, width: nat) -> bool {
    ||| columns(s) <= width
    ||| width >= 3 && exists|head: Seq<char>| #[trigger]
        columns(head) <= width - 3 && s == head + "..."@
}

/// The first `width` characters of `s`, or all of them.
pub open spec fn plain_truncated(s: Seq<char>, width: nat) -> Seq<char> {
    if s.len() <= width {
        s
    } else {
        s.take(width as int)
    }
}

/// `ellipsized`, where each character takes one column.
pub open spec fn plain_ellipsized(s: Seq<char>, width: nat) -> Seq<char> {
    if width <= 3 {
        repeated('.', width)
    } else {
        strip_spaces(plain_truncated(s, (width - 3) as nat)) + "..."@
    }
}

/// `shortened`, where each character takes one column.
pub open spec fn plain_shortened(s: Seq<char>, width: nat) -> Seq<char> {
    if s.len() <= width {
        s
    } else {
        plain_ellipsized(s, width)
    }
}

/// `padded`, where each character takes one column.
pub open spec fn plain_padded(s: Seq<char>, width: nat) -> Seq<char> {
    if s.len() < width {
        s + repeated(' ', (width - s.len()) as nat)
    } else {
        s
    }
}

/// `fitted`, where each character takes one column.
pub open spec fn plain_fitted(s: Seq<char>, width: nat) -> Seq<char> {
    plain_padded(plain_shortened(s, width), width)
}

/// A longer text takes no fewer columns.
pub proof fn lemma_columns_monotone(s: Seq<char>, n: int)
    requires
        0 <= n <= s.len(),
    ensures
        columns(s.take(n)) <= columns(s),
    decreases s.len(),
{
    if n < s.len() {
        lemma_columns_monotone(s.drop_last(), n);
        assert(s.drop_last().take(n) =~= s.take(n));
    } else {
        assert(s.take(n) =~= s);
    }
}

/// What `truncated` leaves is a beginning of the text, takes at most `width`
/// columns, and one more character would not fit.
pub proof fn lemma_truncated(s: Seq<char>, width: nat)
    ensures
        truncated(s, width).is_prefix_of(s),
        columns(truncated(s, width)) <= width,
        truncated(s, width).len() < s.len() ==> columns(
            s.take(truncated(s, width).len() as int + 1),
        ) > width,
    decreases s.len(),
{
    if columns(s) > width {
        if s.len() > 0 {
            let rest = s.drop_last();
            lemma_truncated(rest, width);
            let n = truncated(rest, width).len() as int;
            assert(truncated(rest, width) =~= s.take(n));
            if n == rest.len() {
                assert(s.take(n + 1) =~= s);
            } else {
                assert(s.take(n + 1) =~= rest.take(n + 1));
            }
        }
    } else {
        assert(s =~= s.take(s.len() as int));
    }
}

/// A beginning that fits, and that one more character would not, is what
/// `truncated` leaves.
proof fn lemma_truncated_is(s: Seq<char>, n: int, width: nat)
    requires
        0 <= n <= s.len(),
        columns(s.take(n)) <= width,
        n < s.len() ==> columns(s.take(n + 1)) > width,
    ensures
        truncated(s, width) == s.take(n),
    decreases s.len(),
{
    if n < s.len() {
        lemma_columns_monotone(s, n + 1);
        let rest = s.drop_last();
        assert(rest.take(n) =~= s.take(n));
        if n < rest.len() {
            assert(rest.take(n + 1) =~= s.take(n + 1));
        }
        lemma_truncated_is(rest, n, width);
    } else {
        assert(s.take(n) =~= s);
    }
}

/// What `strip_spaces` leaves is a beginning of the text.
pub proof fn lemma_strip_spaces(s: Seq<char>)
    ensures
        strip_spaces(s).is_prefix_of(s),
    decreases s.len(),
{
    if s.len() > 0 && s.last() == ' ' {
        lemma_strip_spaces(s.drop_last());
        let n = strip_spaces(s).len() as int;
        assert(strip_spaces(s) =~= s.take(n));
    } else {
        assert(s =~= s.take(s.len() as int));
    }
}

/// A shortened text keeps within its columns.
pub proof fn lemma_shortened_within(s: Seq<char>, width: nat)
    requires
        width > 3,
    ensures
        within_columns(shortened(s, width), width),
{
    if text_columns(s) > width {
        let cut = truncated(s, (width - 3) as nat);
        lemma_truncated(s, (width - 3) as nat);
        lemma_strip_spaces(cut);
        let n = strip_spaces(cut).len() as int;
        lemma_columns_monotone(cut, n);
        assert(strip_spaces(cut) =~= cut.take(n));
        assert(columns(strip_spaces(cut)) <= width - 3);
    }
}

/// `n` times the character `c`.
pub fn repeat_char(c: char, n: usize) -> (text: String)
    ensures
        text@ == repeated(c, n as nat),
{
    let mut text = String::new();
    let mut i: usize = 0;
    proof {
        assert(text@ =~= repeated(c, 0));
    }
    while i < n
        invariant
            i <= n,
            text@ == repeated(c, i as nat),
        decreases n - i,
    {
        text.push(c);
        i += 1;
        proof {
            assert(text@ =~= repeated(c, i as nat));
        }
    }
    text
}

/// How much of `chars[from..]` fits into `width` columns.
fn fitting_end(chars: &Vec<char>, from: usize, width: usize) -> (end: usize)
    requires
        from <= chars@.len(),
    ensures
        from <= end <= chars@.len(),
        chars@.subrange(from as int, end as int) == truncated(
            chars@.skip(from as int),
            width as nat,
        ),
        all_printable(chars@.skip(from as int)) ==> chars@.subrange(from as int, end as int)
            == plain_truncated(chars@.skip(from as int), width as nat),
        from < chars@.len() && width >= 3 ==> from < end,
{
    let ghost rest = chars@.skip(from as int);
    let mut end: usize = from;
    let mut used: usize = 0;
    proof {
        assert(rest.take(0) =~= Seq::empty());
    }
    while end < chars.len()
        invariant
            from <= end <= chars@.len(),
            rest == chars@.skip(from as int),
            used <= width,
            used == columns(rest.take(end - from)),
            all_printable(rest) ==> used == end - from,
            end == from ==> used == 0,
        decreases chars@.len() - end,
    {
        let c = chars[end];
        let w: usize = match char_width(c) {
            Some(w) => w,
            None => 0,
        };
        proof {
            assert(rest[end - from] == c);
            assert(rest.take(end - from + 1).drop_last() =~= rest.take(end - from));
            assert(rest.take(end - from + 1).last() == c);
        }
        if w > width - used {
            proof {
                lemma_truncated_is(rest, end - from, width as nat);
                assert(chars@.subrange(from as int, end as int) =~= rest.take(end - from));
                if all_printable(rest) {
                    assert(printable(rest[end - from]));
                    assert(end - from == width);
                }
            }
            return end;
        }
        used += w;
        end += 1;
    }
    proof {
        assert(rest.take(end - from) =~= rest);
        assert(chars@.subrange(from as int, end as int) =~= rest);
    }
    end
}

/// The longest beginning of `value` that takes at most `width` columns.
pub fn truncate_to_width(value: &str, width: usize) -> (output: String)
    ensures
        output@ == truncated(value@, width as nat),
        all_printable(value@) ==> output@ == plain_truncated(value@, width as nat),
{
    let chars = chars_of(value);
    let end = fitting_end(&chars, 0, width);
    proof {
        assert(chars@.skip(0) =~= value@);
    }
    text_of(&chars, 0, end)
}

/// `value` cut to leave room for an ellipsis within `width` columns.
pub fn append_ellipsis(value: &str, width: usize) -> (output: String)
    ensures
        output@ == ellipsized(value@, width as nat),
        all_printable(value@) ==> output@ == plain_ellipsized(value@, width as nat)
            && output@.len() <= width && all_printable(output@),
{
    if width <= 3 {
        return repeat_char('.', width);
    }
    let cut = truncate_to_width(value, width - 3);
    let chars = chars_of(cut.as_str());
    let mut end: usize = chars.len();
    proof {
        assert(cut@.take(cut@.len() as int) =~= cut@);
        lemma_truncated(value@, (width - 3) as nat);
    }
    while end > 0 && chars[end - 1] == ' '
        invariant
            end <= chars@.len(),
            chars@ == cut@,
            strip_spaces(cut@) == strip_spaces(cut@.take(end as int)),
        decreases end,
    {
        proof {
            assert(cut@.take(end as int).drop_last() =~= cut@.take(end - 1));
        }
        end -= 1;
    }
    let mut output = text_of(&chars, 0, end);
    proof {
        assert(chars@.subrange(0, end as int) =~= cut@.take(end as int));
        reveal_strlit("...");
    }
    output.append("...");
    output
}

/// `value`, or what is left of it within `width` columns.
pub fn truncate_with_ellipsis(value: &str, width: usize) -> (output: String)
    ensures
        output@ == shortened(value@, width as nat),
        all_printable(value@) ==> output@ == plain_shortened(value@, width as nat)
            && output@.len() <= width && all_printable(output@),
{
    if display_width(value) <= width {
        return value.to_string();
    }
    append_ellipsis(value, width)
}

/// `value` with spaces behind it up to `width` columns.
pub fn pad_to_width(value: &str, width: usize) -> (output: String)
    ensures
        output@ == padded(value@, width as nat),
        all_printable(value@) ==> output@ == plain_padded(value@, width as nat) && all_printable(
            output@,
        ),
{
    let mut output = value.to_string();
    let output_width = display_width(output.as_str());
    if output_width < width {
        output.append(repeat_char(' ', width - output_width).as_str());
    }
    output
}

/// `value` shortened or padded to `width` columns.
pub fn fit_cell(value: &str, width: usize) -> (cell: String)
    ensures
        cell@ == fitted(value@, width as nat),
        all_printable(value@) ==> cell@ == plain_fitted(value@, width as nat) && cell@.len()
            == width && all_printable(cell@),
{
    let truncated = truncate_with_ellipsis(value, width);
    pad_to_width(truncated.as_str(), width)
}

/// How many columns a summary may take.
pub const SUMMARY_WIDTH: usize = 32;

/// The part of `s` that goes on one line of a summary.
pub open spec fn line_head(s: Seq<char>) -> Seq<char> {
    truncated(s, SUMMARY_WIDTH as nat)
}

/// `s` without one leading space.
pub open spec fn skip_space(s: Seq<char>) -> Seq<char> {
    if s.len() > 0 && s[0] == ' ' {
        s.drop_first()
    } else {
        s
    }
}

/// The lines of a summary whose words are `s`: one, or two of which the second
/// ends in an ellipsis where even two are too few.
pub open spec fn wrapped(s: Seq<char>) -> Seq<Seq<char>> {
    let first = line_head(s);
    let rest = skip_space(s.skip(first.len() as int));
    let second = line_head(rest);
    if rest.len() == 0 {
        seq![trim_end(first)]
    } else if second.len() == rest.len() {
        seq![trim_end(first), trim_end(second)]
    } else {
        seq![trim_end(first), ellipsized(trim_end(second), SUMMARY_WIDTH as nat)]
    }
}

/// `wrapped`, where each character takes one column.
pub open spec fn plain_wrapped(s: Seq<char>) -> Seq<Seq<char>> {
    let first = plain_truncated(s, SUMMARY_WIDTH as nat);
    let rest = skip_space(s.skip(first.len() as int));
    let second = plain_truncated(rest, SUMMARY_WIDTH as nat);
    if rest.len() == 0 {
        seq![trim_end(first)]
    } else if second.len() == rest.len() {
        seq![trim_end(first), trim_end(second)]
    } else {
        seq![trim_end(first), plain_ellipsized(trim_end(second), SUMMARY_WIDTH as nat)]
    }
}

/// A line of a summary takes no more than its columns, whatever its characters are.
pub proof fn lemma_wrapped_fits(s: Seq<char>, i: int)
    requires
        0 <= i < wrapped(s).len(),
    ensures
        fits_columns(wrapped(s)[i], SUMMARY_WIDTH as nat),
{
    let first = line_head(s);
    let rest = skip_space(s.skip(first.len() as int));
    let second = line_head(rest);
    let width = SUMMARY_WIDTH as nat;
    lemma_trimmed_fits(s);
    lemma_trimmed_fits(rest);
    if i == 1 && second.len() != rest.len() {
        let line = trim_end(second);
        let cut = truncated(line, (width - 3) as nat);
        lemma_truncated(line, (width - 3) as nat);
        lemma_strip_spaces(cut);
        let n = strip_spaces(cut).len() as int;
        lemma_columns_monotone(cut, n);
        assert(strip_spaces(cut) =~= cut.take(n));
        assert(columns(strip_spaces(cut)) <= width - 3);
        assert(wrapped(s)[1] == strip_spaces(cut) + "..."@);
    }
}

proof fn lemma_trimmed_fits(s: Seq<char>)
    ensures
        columns(trim_end(line_head(s))) <= SUMMARY_WIDTH,
{
    let head = line_head(s);
    lemma_truncated(s, SUMMARY_WIDTH as nat);
    let tail = lemma_trim_end(head);
    let n = trim_end(head).len() as int;
    lemma_columns_monotone(head, n);
    assert(trim_end(head) =~= head.take(n));
}

/// The lines of a summary, at most two.
pub fn wrap_summary_lines(summary: &str) -> (lines: Vec<String>)
    ensures
        lines.deep_view() == wrapped(squeeze(summary@)),
        1 <= lines@.len() <= 2,
        forall|i: int|
            0 <= i < lines@.len() ==> fits_columns(
                (#[trigger] lines@[i])@,
                SUMMARY_WIDTH as nat,
            ),
        all_printable(summary@) ==> lines.deep_view() == plain_wrapped(squeeze(summary@)),
        all_printable(summary@) ==> forall|i: int|
            0 <= i < lines@.len() ==> all_printable(#[trigger] lines@[i]@) && lines@[i]@.len()
                <= SUMMARY_WIDTH,
{
    let chars = squeeze_text(summary);
    proof {
        if all_printable(summary@) {
            lemma_squeeze_printable(summary@);
        }
    }
    let lines = wrap_chars(&chars);
    proof {
        assert forall|i: int| 0 <= i < lines@.len() implies fits_columns(
            (#[trigger] lines@[i])@,
            SUMMARY_WIDTH as nat,
        ) by {
            assert(lines.deep_view()[i] == lines@[i]@);
            lemma_wrapped_fits(squeeze(summary@), i);
        }
    }
    lines
}

/// The lines of a summary whose words are `chars`.
fn wrap_chars(chars: &Vec<char>) -> (lines: Vec<String>)
    ensures
        lines.deep_view() == wrapped(chars@),
        1 <= lines@.len() <= 2,
        all_printable(chars@) ==> lines.deep_view() == plain_wrapped(chars@),
        all_printable(chars@) ==> forall|i: int|
            0 <= i < lines@.len() ==> all_printable(#[trigger] lines@[i]@) && lines@[i]@.len()
                <= SUMMARY_WIDTH,
{
    let ghost s = chars@;
    let mut lines: Vec<String> = Vec::new();
    if chars.len() == 0 {
        lines.push(String::new());
        proof {
            assert(s =~= Seq::empty());
            assert(columns(s) == 0);
            assert(line_head(s) == s);
            assert(s.skip(0) =~= s);
            assert(skip_space(s) == s);
            assert(trim_end(s) == s);
            assert(lines.deep_view() =~= seq![trim_end(s)]);
        }
        return lines;
    }
    let (first, _, next) = take_line(chars, 0);
    lines.push(first);
    let ghost rest = s.skip(next as int);
    proof {
        assert(s.skip(0) =~= s);
        assert(rest == skip_space(s.skip(line_head(s).len() as int)));
    }
    if next == chars.len() {
        proof {
            assert(rest.len() == 0);
            assert(lines.deep_view() =~= seq![trim_end(line_head(s))]);
        }
        return lines;
    }
    let (second, last, _) = take_line(chars, next);
    proof {
        assert(second@ == trim_end(line_head(rest)));
    }
    if last < chars.len() {
        lines.push(append_ellipsis(second.as_str(), SUMMARY_WIDTH));
        proof {
            assert(lines.deep_view() =~= seq![
                trim_end(line_head(s)),
                ellipsized(trim_end(line_head(rest)), SUMMARY_WIDTH as nat),
            ]);
        }
    } else {
        lines.push(second);
        proof {
            assert(lines.deep_view() =~= seq![trim_end(line_head(s)), trim_end(line_head(rest))]);
        }
    }
    lines
}

/// The line that starts at `chars[from]`, where it ends, and where the next one
/// starts.
fn take_line(chars: &Vec<char>, from: usize) -> (line: (String, usize, usize))
    requires
        from < chars@.len(),
    ensures
        line.0@ == trim_end(line_head(chars@.skip(from as int))),
        line.1 == from + line_head(chars@.skip(from as int)).len(),
        from < line.1 <= line.2 <= chars@.len(),
        chars@.skip(line.2 as int) == skip_space(
            chars@.skip(from as int).skip(line_head(chars@.skip(from as int)).len() as int),
        ),
        all_printable(chars@) ==> all_printable(line.0@) && line.0@.len() <= SUMMARY_WIDTH
            && line_head(chars@.skip(from as int)) == plain_truncated(
            chars@.skip(from as int),
            SUMMARY_WIDTH as nat,
        ),
{
    let ghost rest = chars@.skip(from as int);
    let end = fitting_end(chars, from, SUMMARY_WIDTH);
    let trimmed = trimmed_end(chars, from, end);
    proof {
        assert(chars@.subrange(from as int, end as int).len() == end - from);
        assert(rest.skip(end - from) =~= chars@.skip(end as int));
        if all_printable(chars@) {
            assert forall|i: int| 0 <= i < rest.len() implies printable(#[trigger] rest[i]) by {
                assert(rest[i] == chars@[from + i]);
            }
        }
    }
    let line = text_of(chars, from, trimmed);
    let mut next: usize = end;
    if next < chars.len() && chars[next] == ' ' {
        proof {
            assert(chars@.skip(end as int).drop_first() =~= chars@.skip(end + 1));
        }
        next += 1;
    }
    (line, end, next)
}

proof fn lemma_squeeze_printable(s: Seq<char>)
    requires
        all_printable(s),
    ensures
        all_printable(squeeze(s)),
    decreases s.len(),
{
    if s.len() > 0 {
        let rest = s.drop_last();
        assert forall|i: int| 0 <= i < rest.len() implies printable(#[trigger] rest[i]) by {
            assert(rest[i] == s[i]);
        }
        lemma_squeeze_printable(rest);
        assert(printable(s[s.len() - 1]));
    }
}

/// Whether `s` holds nothing but white space.
pub open spec fn all_space(s: Seq<char>) -> bool {
    forall|i: int| 0 <= i < s.len() ==> is_space(#[trigger] s[i])
}

/// What `trim_end` takes away is white space.
proof fn lemma_trim_end(s: Seq<char>) -> (tail: Seq<char>)
    ensures
        s == trim_end(s) + tail,
        all_space(tail),
    decreases s.len(),
{
    if s.len() > 0 && is_space(s.last()) {
        let rest = lemma_trim_end(s.drop_last());
        let tail = rest.push(s.last());
        assert(s =~= s.drop_last().push(s.last()));
        assert(trim_end(s) == trim_end(s.drop_last()));
        assert((trim_end(s) + rest).push(s.last()) =~= trim_end(s) + tail);
        assert forall|i: int| 0 <= i < tail.len() implies is_space(#[trigger] tail[i]) by {
            if i < rest.len() {
                assert(tail[i] == rest[i]);
            }
        }
        tail
    } else {
        assert(s =~= s + Seq::empty());
        Seq::empty()
    }
}

/// Where the words of a summary fit on two lines none of them is lost: the lines,
/// with white space between them, are the words.
pub proof fn lemma_wrapped_loses_nothing(text: Seq<char>)
    ensures
        ({
            let s = squeeze(text);
            let rest = skip_space(s.skip(line_head(s).len() as int));
            let lines = wrapped(s);
            &&& rest.len() == 0 ==> lines == seq![s]
            &&& rest.len() > 0 && line_head(rest).len() == rest.len() ==> exists|gap: Seq<char>|
                #[trigger] all_space(gap) && s == lines[0] + gap + lines[1]
        }),
{
    let s = squeeze(text);
    let first = line_head(s);
    let n = first.len() as int;
    let rest = skip_space(s.skip(n));
    let lines = wrapped(s);
    assert(s.len() > 0 ==> !is_space(s.last())) by {
        crate::text::lemma_squeeze(text);
    }
    assert(first.is_prefix_of(s)) by {
        lemma_truncated(s, SUMMARY_WIDTH as nat);
    }
    assert(first =~= s.take(n));
    assert(s =~= first + s.skip(n));
    let tail = lemma_trim_end(first);
    if rest.len() == 0 {
        if s.skip(n).len() > 0 {
            assert(s.skip(n) =~= seq![' ']);
            assert(s.last() == ' ');
        }
        assert(first =~= s);
        assert(trim_end(s) == s);
        assert(lines =~= seq![s]);
    } else if line_head(rest).len() == rest.len() {
        assert(line_head(rest) =~= rest) by {
            lemma_truncated(rest, SUMMARY_WIDTH as nat);
        }
        assert(rest.last() == s.last());
        assert(trim_end(rest) == rest);
        let skipped = if s.skip(n)[0] == ' ' {
            seq![' ']
        } else {
            Seq::empty()
        };
        assert(s.skip(n) =~= skipped + rest);
        let gap = tail + skipped;
        assert(all_space(gap)) by {
            assert forall|i: int| 0 <= i < gap.len() implies is_space(#[trigger] gap[i]) by {
                if i < tail.len() {
                    assert(gap[i] == tail[i]);
                }
            }
        }
        assert(s =~= lines[0] + gap + lines[1]);
    }
}

} // verus!
