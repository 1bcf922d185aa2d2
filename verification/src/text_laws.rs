//! What holds of texts, file names and maps, whatever they hold.

use vstd::prelude::*;

use crate::app_state::App;
use crate::id_map::{lemma_lookup, lemma_lookup_at, IdMap};
use crate::order::{lemma_ordered, same_rank, sort_and_dedup, stable_sort, Ranked};
use crate::paths::{file_extension, file_stem, file_stem_of, has_extension, join_path, last_dot};
use crate::report::cause_messages;
use crate::text::{
    contains_text, decimal, decimal_text, find_text, is_space, is_whitespace, joined,
    last_path_segment, last_segment, lex_less, occurs_at, opt_text_less, squeeze, text_contains,
    text_starts_with, trim, trim_end, trim_start, trim_text,
};
use crate::thread::{hex, ThreadId};

verus! {

/// Of two texts that agree up to a place, the one with the smaller character there
/// comes first; a text comes before every longer one that it begins.
pub proof fn lemma_first_difference_decides(a: Seq<char>, b: Seq<char>, at: int)
    requires
        0 <= at <= a.len(),
        at < b.len(),
        forall|i: int| 0 <= i < at ==> a[i] == b[i],
        at == a.len() || a[at] < b[at],
    ensures
        lex_less(a, b),
        !lex_less(b, a),
    decreases at,
{
    if at > 0 {
        assert(a[0] == b[0]);
        let x = a.drop_first();
        let y = b.drop_first();
        assert forall|i: int| 0 <= i < at - 1 implies x[i] == y[i] by {
            assert(a[i + 1] == b[i + 1]);
        }
        lemma_first_difference_decides(x, y, at - 1);
    }
}

/// `text_less` tells which of two texts comes first, and an absent text comes first.
pub proof fn lemma_text_less_decides(a: &Option<String>, b: &Option<String>, at: int, less: bool)
    requires
        call_ensures(opt_text_less, (a, b), less),
    ensures
        *a is None ==> (less <==> *b is Some),
        *b is None ==> !less,
        *a is Some && *b is Some && a->0@ == b->0@ ==> !less,
        ({
            let x = a->0@;
            let y = b->0@;
            &&& *a is Some && *b is Some && 0 <= at <= x.len() && at < y.len() && (forall|i: int|
                0 <= i < at ==> x[i] == y[i]) && (at == x.len() || x[at] < y[at]) ==> less
            &&& *a is Some && *b is Some && 0 <= at <= y.len() && at < x.len() && (forall|i: int|
                0 <= i < at ==> x[i] == y[i]) && (at == y.len() || y[at] < x[at]) ==> !less
        }),
{
    crate::text::lemma_opt_lex_less(a.deep_view(), b.deep_view(), None);
    if *a is Some && *b is Some {
        let x = a->0@;
        let y = b->0@;
        if 0 <= at <= x.len() && at < y.len() && (forall|i: int| 0 <= i < at ==> x[i] == y[i]) && (
        at == x.len() || x[at] < y[at]) {
            lemma_first_difference_decides(x, y, at);
        }
        if 0 <= at <= y.len() && at < x.len() && (forall|i: int| 0 <= i < at ==> x[i] == y[i]) && (
        at == y.len() || y[at] < x[at]) {
            lemma_first_difference_decides(y, x, at);
        }
    }
}

/// White space is the space, the five characters from the tab to the carriage return, and
/// what else Unicode counts as such.
pub proof fn lemma_white_space(c: char, space: bool)
    requires
        call_ensures(is_whitespace, (c,), space),
    ensures
        space <==> c as u32 == 0x20 || 9 <= c as u32 <= 13 || c as u32 == 0x85 || c as u32 == 0xa0
            || c as u32 == 0x1680 || 0x2000 <= c as u32 <= 0x200a || c as u32 == 0x2028 || c as u32
            == 0x2029 || c as u32 == 0x202f || c as u32 == 0x205f || c as u32 == 0x3000,
        space <==> is_space(c),
{
}

proof fn lemma_trim_start(s: Seq<char>) -> (from: int)
    ensures
        0 <= from <= s.len(),
        trim_start(s) == s.skip(from),
        forall|i: int| 0 <= i < from ==> is_space(#[trigger] s[i]),
        from < s.len() ==> !is_space(s[from]),
    decreases s.len(),
{
    if s.len() > 0 && is_space(s[0]) {
        let less = lemma_trim_start(s.drop_first());
        assert(s.drop_first().skip(less) =~= s.skip(less + 1));
        assert forall|i: int| 0 <= i < less + 1 implies is_space(#[trigger] s[i]) by {
            if i > 0 {
                assert(s.drop_first()[i - 1] == s[i]);
            }
        }
        if less + 1 < s.len() {
            assert(s.drop_first()[less] == s[less + 1]);
        }
        less + 1
    } else {
        assert(s.skip(0) =~= s);
        0
    }
}

proof fn lemma_trim_end(s: Seq<char>) -> (to: int)
    ensures
        0 <= to <= s.len(),
        trim_end(s) == s.take(to),
        forall|i: int| to <= i < s.len() ==> is_space(#[trigger] s[i]),
        to > 0 ==> !is_space(s[to - 1]),
    decreases s.len(),
{
    if s.len() > 0 && is_space(s.last()) {
        let to = lemma_trim_end(s.drop_last());
        assert(s.drop_last().take(to) =~= s.take(to));
        assert forall|i: int| to <= i < s.len() implies is_space(#[trigger] s[i]) by {
            if i < s.len() - 1 {
                assert(s.drop_last()[i] == s[i]);
            }
        }
        if to > 0 {
            assert(s.drop_last()[to - 1] == s[to - 1]);
        }
        to
    } else {
        assert(s.take(s.len() as int) =~= s);
        s.len() as int
    }
}

/// Trimming a text takes white space away at both ends, all of it, and nothing else.
pub proof fn lemma_trim(before: Seq<char>, core: Seq<char>, after: Seq<char>)
    requires
        forall|i: int| 0 <= i < before.len() ==> is_space(#[trigger] before[i]),
        forall|i: int| 0 <= i < after.len() ==> is_space(#[trigger] after[i]),
        core.len() > 0 ==> !is_space(core[0]) && !is_space(core.last()),
    ensures
        trim(before + core + after) == core,
{
    let s = before + core + after;
    let from = lemma_trim_start(s);
    let rest = s.skip(from);
    let to = lemma_trim_end(rest);
    if core.len() > 0 {
        assert(s[before.len() as int] == core[0]);
        if from < before.len() {
            assert(s[from] == before[from]);
        }
        assert(from == before.len());
        assert(rest =~= core + after);
        assert(rest[core.len() - 1] == core.last());
        if to > core.len() {
            assert(rest[to - 1] == after[to - 1 - core.len()]);
        }
        assert(to == core.len());
        assert(rest.take(to) =~= core);
    } else {
        if from < s.len() {
            if from < before.len() {
                assert(s[from] == before[from]);
            } else {
                assert(s[from] == after[from - before.len()]);
            }
        }
        assert(rest.take(to) =~= core);
    }
}

/// What is left of a trimmed text stood in it before.
pub(crate) proof fn lemma_trim_is_inside(s: Seq<char>, at: int)
    requires
        0 <= at < trim(s).len(),
    ensures
        exists|i: int| 0 <= i < s.len() && #[trigger] s[i] == trim(s)[at],
{
    let from = lemma_trim_start(s);
    let to = lemma_trim_end(s.skip(from));
    assert(trim(s)[at] == s[from + at]);
}

/// `trim_text` gives back the middle of a text with white space around it.
pub proof fn lemma_trim_text(
    s: &str,
    before: Seq<char>,
    core: Seq<char>,
    after: Seq<char>,
    trimmed: String,
)
    requires
        call_ensures(trim_text, (s,), trimmed),
        s@ == before + core + after,
        forall|i: int| 0 <= i < before.len() ==> is_space(#[trigger] before[i]),
        forall|i: int| 0 <= i < after.len() ==> is_space(#[trigger] after[i]),
        core.len() > 0 ==> !is_space(core[0]) && !is_space(core.last()),
    ensures
        trimmed@ == core,
{
    lemma_trim(before, core, after);
}

/// A text without white space is one word.
pub proof fn lemma_squeeze_word(word: Seq<char>)
    requires
        forall|i: int| 0 <= i < word.len() ==> !is_space(#[trigger] word[i]),
    ensures
        squeeze(word) == word,
    decreases word.len(),
{
    if word.len() > 0 {
        let rest = word.drop_last();
        assert forall|i: int| 0 <= i < rest.len() implies !is_space(#[trigger] rest[i]) by {
            assert(rest[i] == word[i]);
        }
        lemma_squeeze_word(rest);
        assert(!is_space(word[word.len() - 1]));
        if word.len() >= 2 {
            assert(!is_space(word[word.len() - 2]));
        }
        assert(squeeze(word) =~= word);
    }
}

proof fn lemma_squeeze_trailing(s: Seq<char>, gap: Seq<char>)
    requires
        forall|i: int| 0 <= i < gap.len() ==> is_space(#[trigger] gap[i]),
    ensures
        squeeze(s + gap) == squeeze(s),
    decreases gap.len(),
{
    if gap.len() > 0 {
        let rest = gap.drop_last();
        assert forall|i: int| 0 <= i < rest.len() implies is_space(#[trigger] rest[i]) by {
            assert(rest[i] == gap[i]);
        }
        lemma_squeeze_trailing(s, rest);
        assert((s + gap).drop_last() =~= s + rest);
        assert((s + gap).last() == gap[gap.len() - 1]);
    } else {
        assert(s + gap =~= s);
    }
}

/// However wide the white space between two pieces of text is, one space is left of it.
pub proof fn lemma_squeeze_gap(a: Seq<char>, gap: Seq<char>, word: Seq<char>)
    requires
        gap.len() > 0,
        forall|i: int| 0 <= i < gap.len() ==> is_space(#[trigger] gap[i]),
        word.len() > 0,
        forall|i: int| 0 <= i < word.len() ==> !is_space(#[trigger] word[i]),
    ensures
        squeeze(a + gap + word) == if squeeze(a).len() > 0 {
            squeeze(a).push(' ') + word
        } else {
            word
        },
    decreases word.len(),
{
    let s = a + gap + word;
    let rest = word.drop_last();
    assert(s.drop_last() =~= a + gap + rest);
    assert(s.last() == word[word.len() - 1]);
    if rest.len() > 0 {
        assert forall|i: int| 0 <= i < rest.len() implies !is_space(#[trigger] rest[i]) by {
            assert(rest[i] == word[i]);
        }
        lemma_squeeze_gap(a, gap, rest);
        assert(s[s.len() - 2] == word[word.len() - 2]);
    } else {
        lemma_squeeze_trailing(a, gap);
        assert(a + gap + rest =~= a + gap);
        assert(s[s.len() - 2] == gap[gap.len() - 1]);
    }
    assert(squeeze(s) =~= if squeeze(a).len() > 0 {
        squeeze(a).push(' ') + word
    } else {
        word
    });
}

/// A text contains another one if and only if it is that one with something before and
/// behind it.
pub proof fn lemma_contains(hay: &str, needle: &str, found: bool)
    requires
        call_ensures(text_contains, (hay, needle), found),
    ensures
        found <==> exists|a: Seq<char>, b: Seq<char>| hay@ == #[trigger] (a + needle@ + b),
{
    if found {
        let at = choose|at: int| occurs_at(hay@, needle@, at);
        let a = hay@.take(at);
        let b = hay@.skip(at + needle@.len());
        assert(hay@ =~= a + hay@.subrange(at, at + needle@.len()) + b);
        assert(hay@ == a + needle@ + b);
    }
    if exists|a: Seq<char>, b: Seq<char>| hay@ == #[trigger] (a + needle@ + b) {
        let (a, b) = choose|a: Seq<char>, b: Seq<char>| hay@ == #[trigger] (a + needle@ + b);
        assert(hay@.subrange(a.len() as int, (a.len() + needle@.len()) as int) =~= needle@);
        assert(occurs_at(hay@, needle@, a.len() as int));
    }
}

/// What stands behind the last `/` is the last segment.
pub proof fn lemma_last_segment(above: Seq<char>, name: Seq<char>)
    requires
        forall|i: int| 0 <= i < name.len() ==> #[trigger] name[i] != '/',
    ensures
        last_segment(above.push('/') + name) == name,
        last_segment(name) == name,
    decreases name.len(),
{
    if name.len() > 0 {
        let rest = name.drop_last();
        assert forall|i: int| 0 <= i < rest.len() implies #[trigger] rest[i] != '/' by {
            assert(rest[i] == name[i]);
        }
        lemma_last_segment(above, rest);
        assert((above.push('/') + name).drop_last() =~= above.push('/') + rest);
        assert(name[name.len() - 1] != '/');
        assert(last_segment(above.push('/') + name) =~= name);
        assert(last_segment(name) =~= name);
    } else {
        assert((above.push('/') + name).last() == '/');
        assert(last_segment(above.push('/') + name) =~= name);
        assert(last_segment(name) =~= name);
    }
}

/// Each decimal digit stands for what is left of the number, the last one for its ones.
pub proof fn lemma_decimal(n: nat)
    ensures
        decimal(n).last() as u32 == 48 + n % 10,
        n < 10 ==> decimal(n).len() == 1,
        n >= 10 ==> decimal(n).drop_last() == decimal(n / 10),
{
    if n >= 10 {
        assert(decimal(n).drop_last() =~= decimal(n / 10));
    }
}

/// The digits of an id stand for its bits, four to a digit, with hyphens after the
/// eighth, twelfth, sixteenth and twentieth.
pub proof fn lemma_thread_id_text(id: ThreadId)
    ensures
        id.text().len() == 36,
        forall|i: int|
            0 <= i < 36 ==> (#[trigger] id.text()[i] == '-' <==> i == 8 || i == 13 || i == 18 || i
                == 23),
        id.text()[35] as u32 == if id.bits % 16 < 10 {
            48 + id.bits % 16
        } else {
            87 + id.bits % 16
        },
        forall|i: int|
            0 <= i < 32 ==> id.text()[i + if i < 8 {
                0int
            } else if i < 12 {
                1
            } else if i < 16 {
                2
            } else if i < 20 {
                3
            } else {
                4
            }] == #[trigger] hex(id.bits as nat, 32)[i],
{
    let digits = hex(id.bits as nat, 32);
    lemma_hex(id.bits as nat, 32);
    let s = id.text();
    assert(s[35] == digits[31]);
    assert forall|i: int| 0 <= i < 36 implies (#[trigger] id.text()[i] == '-' <==> i == 8 || i == 13
        || i == 18 || i == 23) by {
        if i < 8 {
            assert(s[i] == digits[i]);
        } else if 8 < i < 13 {
            assert(s[i] == digits[i - 1]);
        } else if 13 < i < 18 {
            assert(s[i] == digits[i - 2]);
        } else if 18 < i < 23 {
            assert(s[i] == digits[i - 3]);
        } else if i > 23 {
            assert(s[i] == digits[i - 4]);
        }
    }
}

/// The last hexadecimal digit stands for the last four bits, the ones before it for the
/// others, and none of them is a hyphen.
pub proof fn lemma_hex(n: nat, count: nat)
    ensures
        hex(n, count).len() == count,
        count > 0 ==> hex(n, count).drop_last() == hex(n / 16, (count - 1) as nat),
        count > 0 ==> hex(n, count).last() as u32 == if n % 16 < 10 {
            48 + n % 16
        } else {
            87 + n % 16
        },
        forall|i: int| 0 <= i < count ==> #[trigger] hex(n, count)[i] != '-',
    decreases count,
{
    if count > 0 {
        lemma_hex(n / 16, (count - 1) as nat);
        assert(hex(n, count).drop_last() =~= hex(n / 16, (count - 1) as nat));
        assert forall|i: int| 0 <= i < count implies #[trigger] hex(n, count)[i] != '-' by {
            if i < count - 1 {
                assert(hex(n, count)[i] == hex(n / 16, (count - 1) as nat)[i]);
            }
        }
    }
}

/// Joined texts stand one after another, and the separator stands between two of them
/// only.
pub proof fn lemma_joined(first: Seq<char>, more: Seq<Seq<char>>, separator: Seq<char>)
    ensures
        joined(Seq::empty(), separator) == Seq::<char>::empty(),
        joined(seq![first], separator) == first,
        more.len() > 0 ==> joined(seq![first] + more, separator) == first + separator + joined(
            more,
            separator,
        ),
    decreases more.len(),
{
    if more.len() > 0 {
        let rest = more.drop_last();
        let all = seq![first] + more;
        assert(all.drop_last() =~= seq![first] + rest);
        assert(all.last() == more.last());
        lemma_joined(first, rest, separator);
        if rest.len() == 0 {
            assert(seq![first] + rest =~= seq![first]);
            assert(joined(all, separator) =~= first + separator + more[0]);
        } else {
            assert(joined(all, separator) =~= first + separator + joined(more, separator));
        }
    }
}

/// A name is looked for in the directory; an absolute one is not.
pub proof fn lemma_join_path(dir: &str, name: &str, path: String)
    requires
        call_ensures(join_path, (dir, name), path),
    ensures
        name@.len() > 0 && name@[0] == '/' ==> path@ == name@,
        !(name@.len() > 0 && name@[0] == '/') && dir@.len() > 0 && dir@.last() != '/' ==> path@
            == dir@.push('/') + name@,
        !(name@.len() > 0 && name@[0] == '/') && (dir@.len() == 0 || dir@.last() == '/') ==> path@
            == dir@ + name@,
{
    reveal_strlit("/");
    assert(dir@ + "/"@ + name@ =~= dir@.push('/') + name@);
}

proof fn lemma_last_dot(stem: Seq<char>, extension: Seq<char>)
    requires
        forall|i: int| 0 <= i < extension.len() ==> #[trigger] extension[i] != '.',
    ensures
        last_dot(stem.push('.') + extension) == Some(stem.len() as int),
        last_dot(extension) is None,
    decreases extension.len(),
{
    let name = stem.push('.') + extension;
    if extension.len() > 0 {
        let rest = extension.drop_last();
        assert forall|i: int| 0 <= i < rest.len() implies #[trigger] rest[i] != '.' by {
            assert(rest[i] == extension[i]);
        }
        lemma_last_dot(stem, rest);
        assert(name.drop_last() =~= stem.push('.') + rest);
        assert(extension[extension.len() - 1] != '.');
    } else {
        assert(name.last() == '.');
    }
}

/// The stem of a file name is what stands before its last dot, the extension what stands
/// behind it. A name without a dot is its own stem, and so is one that begins with its
/// only dot.
pub proof fn lemma_file_name(stem: Seq<char>, extension: Seq<char>)
    requires
        forall|i: int| 0 <= i < extension.len() ==> #[trigger] extension[i] != '.',
    ensures
        stem.len() > 0 && stem.push('.') + extension != seq!['.', '.'] ==> file_stem(
            stem.push('.') + extension,
        ) == stem && file_extension(stem.push('.') + extension) == Some(extension),
        file_stem(extension) == extension,
        file_extension(extension) is None,
        file_stem(seq!['.'] + extension) == seq!['.'] + extension,
        file_extension(seq!['.'] + extension) is None,
{
    reveal_strlit("..");
    assert(".."@ =~= seq!['.', '.']);
    let name = stem.push('.') + extension;
    lemma_last_dot(stem, extension);
    assert(name.take(stem.len() as int) =~= stem);
    assert(name.skip((stem.len() + 1) as int) =~= extension);
    lemma_last_dot(Seq::empty(), extension);
    assert(Seq::<char>::empty().push('.') =~= seq!['.']);
}

/// What `file_stem_of` and `has_extension` find in a name that is made of a stem, a dot
/// and an extension.
pub proof fn lemma_file_name_parts(
    name: &str,
    stem: Seq<char>,
    extension: Seq<char>,
    asked: &str,
    found: String,
    has: bool,
)
    requires
        stem.len() > 0,
        forall|i: int| 0 <= i < extension.len() ==> #[trigger] extension[i] != '.',
        name@ == stem.push('.') + extension,
        name@ != seq!['.', '.'],
        call_ensures(file_stem_of, (name,), found),
        call_ensures(has_extension, (name, asked), has),
    ensures
        found@ == stem,
        has <==> asked@ == extension,
{
    lemma_file_name(stem, extension);
}

/// Whether one of the messages of `report` holds `text`.
pub open spec fn a_cause_says(report: color_eyre::Report, text: Seq<char>) -> bool {
    exists|i: int, a: Seq<char>, b: Seq<char>|
        0 <= i < cause_messages(report).len() && #[trigger] cause_messages(report)[i]
            == #[trigger] (a + text + b)
}

pub(crate) proof fn lemma_causes_say(report: color_eyre::Report, text: Seq<char>)
    ensures
        crate::report::any_contains(cause_messages(report), text) <==> a_cause_says(report, text),
{
    let messages = cause_messages(report);
    if crate::report::any_contains(messages, text) {
        let i = choose|i: int|
            0 <= i < messages.len() && contains_text(#[trigger] messages[i], text);
        let at = choose|at: int| occurs_at(messages[i], text, at);
        let a = messages[i].take(at);
        let b = messages[i].skip(at + text.len());
        assert(messages[i] =~= a + messages[i].subrange(at, at + text.len()) + b);
        assert(cause_messages(report)[i] == a + text + b);
    }
    if a_cause_says(report, text) {
        let (i, a, b) = choose|i: int, a: Seq<char>, b: Seq<char>|
            0 <= i < cause_messages(report).len() && #[trigger] cause_messages(report)[i]
                == #[trigger] (a + text + b);
        assert(messages[i].subrange(a.len() as int, (a.len() + text.len()) as int) =~= text);
        assert(occurs_at(messages[i], text, a.len() as int));
        assert(contains_text(messages[i], text));
    }
}

/// A thread is gone for good if and only if some error in the report says that it is not
/// loaded; a thread that was closed stays so, and one that was open counts as closed only
/// where it is gone.
pub proof fn lemma_gone_for_good(
    err: &color_eyre::Report,
    known: Option<bool>,
    terminal: bool,
    closed: bool,
)
    requires
        call_ensures(App::is_terminal_thread_read_error, (err,), terminal),
        call_ensures(App::closed_state_for_thread_read_error, (err, known), closed),
    ensures
        terminal <==> a_cause_says(*err, "thread not loaded:"@),
        known == Some(true) ==> closed,
        known != Some(true) ==> (closed <==> terminal),
{
    lemma_causes_say(*err, "thread not loaded:"@);
}

/// A thread may be read without its turns if and only if some error in the report says
/// that it has none yet, or that it never has any.
pub proof fn lemma_may_read_without_turns(err: &color_eyre::Report, fallback: bool)
    requires
        call_ensures(App::can_fallback_from_include_turns_error, (err,), fallback),
    ensures
        fallback <==> a_cause_says(
            *err,
            "includeTurns is unavailable before first user message"@,
        ) || a_cause_says(*err, "ephemeral threads do not support includeTurns"@),
{
    lemma_causes_say(*err, "includeTurns is unavailable before first user message"@);
    lemma_causes_say(*err, "ephemeral threads do not support includeTurns"@);
}

/// A map gives for an id the value that stands beside it, and nothing for an id that it
/// does not hold.
pub proof fn lemma_map_get<V>(map: &IdMap<V>, id: ThreadId, value: Option<&V>)
    requires
        map.wf(),
        call_ensures(IdMap::<V>::get, (map, id), value),
    ensures
        forall|i: int|
            0 <= i < map.entries@.len() && (#[trigger] map.entries@[i]).0 == id ==> value is Some
                && *value->0 == map.entries@[i].1,
        value is Some ==> map.entries@.contains((id, *value->0)),
{
    lemma_lookup(map.entries@, id);
    assert forall|i: int| 0 <= i < map.entries@.len() && (#[trigger] map.entries@[i]).0
        == id implies value is Some && *value->0 == map.entries@[i].1 by {
        lemma_lookup_at(map.entries@, i);
    }
}

/// A value that is put into a map is what the map gives for its id from then on; a new id
/// comes last, a known one keeps its place, and nothing else changes. An id that is taken
/// away is gone, and the others keep their order.
pub proof fn lemma_map_changes<V>(id: ThreadId, value: V, other: ThreadId)
    ensures
        forall|map: &mut IdMap<V>|
            map.wf() && #[trigger] call_ensures(IdMap::<V>::insert, (map, id, value), ())
                ==> final(map).value(id) == Some(value) && (other != id ==> final(map).value(other)
                == map.value(other)) && (map.keys().contains(id) ==> final(map).keys()
                == map.keys()) && (!map.keys().contains(id) ==> final(map).keys()
                == map.keys().push(id)),
        forall|map: &mut IdMap<V>|
            map.wf() && #[trigger] call_ensures(IdMap::<V>::remove, (map, id), ())
                ==> final(map).value(id) is None && (other != id ==> final(map).value(other)
                == map.value(other)) && (!map.keys().contains(id) ==> final(map).keys()
                == map.keys()) && (map.keys().contains(id) ==> final(map).keys().len() + 1
                == map.keys().len()),
{
}

/// A map knows the ids of its pairs, in order.
pub proof fn lemma_map_keys<V>(map: &IdMap<V>, id: ThreadId, known: bool, ids: Vec<ThreadId>, i: int)
    requires
        call_ensures(IdMap::<V>::contains, (map, id), known),
        call_ensures(IdMap::<V>::ids, (map,), ids),
    ensures
        ids@.len() == map.entries@.len(),
        0 <= i < ids@.len() ==> ids@[i] == map.entries@[i].0,
        known <==> ids@.contains(id),
{
}

/// Sorting keeps the values, puts none behind one that it ranks before, and leaves values of
/// one rank in the order that they had.
pub proof fn lemma_sorting<T: Ranked>(
    items: Vec<T>,
    sorted: Vec<T>,
    i: int,
    j: int,
    probe: T::V,
)
    requires
        call_ensures(stable_sort::<T>, (items,), sorted),
    ensures
        sorted@.len() == items@.len(),
        sorted.deep_view().to_multiset() == items.deep_view().to_multiset(),
        0 <= i < j < sorted@.len() ==> !T::ranks_before(
            sorted.deep_view()[j],
            sorted.deep_view()[i],
        ),
        sorted.deep_view().filter(
            |x: T::V| !T::ranks_before(probe, x) && !T::ranks_before(x, probe),
        ) == items.deep_view().filter(
            |x: T::V| !T::ranks_before(probe, x) && !T::ranks_before(x, probe),
        ),
{
    let given = items.deep_view();
    lemma_ordered::<T>(given, probe);
    assert((|y: T::V| same_rank::<T>(probe, y)) =~= (|x: T::V|
        !T::ranks_before(probe, x) && !T::ranks_before(x, probe)));
    assert(sorted.deep_view().len() == sorted@.len());
    assert(given.len() == items@.len());
}

/// Texts that are sorted and each taken once are in strict order, and are the texts that
/// were given.
pub proof fn lemma_sorted_once(texts: Vec<String>, unique: Vec<String>, i: int, j: int)
    requires
        call_ensures(sort_and_dedup, (texts,), unique),
    ensures
        0 <= i < j < unique@.len() ==> lex_less(unique@[i]@, unique@[j]@),
        0 <= i < unique@.len() ==> texts.deep_view().contains(unique@[i]@),
        0 <= i < texts@.len() ==> unique.deep_view().contains(texts@[i]@),
{
    let given = texts.deep_view();
    let told = unique.deep_view();
    if 0 <= i < j < unique@.len() {
        assert(told[i] == unique@[i]@ && told[j] == unique@[j]@);
    }
    if 0 <= i < unique@.len() {
        assert(told[i] == unique@[i]@);
        assert(told.to_set().contains(told[i]));
        assert(given.to_set().contains(told[i]));
    }
    if 0 <= i < texts@.len() {
        assert(given[i] == texts@[i]@);
        assert(given.to_set().contains(given[i]));
        assert(told.to_set().contains(given[i]));
    }
}

/// The words of a text, the place of another one in it, and what it begins with.
pub proof fn lemma_text_parts(
    hay: &Vec<char>,
    needle: &Vec<char>,
    at: Option<usize>,
    s: &str,
    prefix: &str,
    starts: bool,
    segment: String,
    n: u64,
    number: String,
    name: Seq<char>,
    above: Seq<char>,
)
    requires
        call_ensures(find_text, (hay, needle), at),
        call_ensures(text_starts_with, (s, prefix), starts),
        call_ensures(last_path_segment, (s,), segment),
        call_ensures(decimal_text, (n,), number),
    ensures
        at is Some ==> at->0 + needle@.len() <= hay@.len() && (forall|k: int|
            0 <= k < needle@.len() ==> #[trigger] hay@[at->0 + k] == needle@[k]),
        at is Some ==> forall|j: int|
            0 <= j < at->0 ==> hay@.subrange(j, j + needle@.len() as int) != needle@
                || !(#[trigger] fits_at(hay@, needle@, j)),
        at is None ==> forall|j: int|
            #[trigger] fits_at(hay@, needle@, j) ==> hay@.subrange(j, j + needle@.len() as int)
                != needle@,
        starts <==> exists|rest: Seq<char>| s@ == #[trigger] (prefix@ + rest),
        (forall|i: int| 0 <= i < name.len() ==> #[trigger] name[i] != '/') && s@ == above.push('/')
            + name ==> segment@ == name,
        number@.last() as u32 == 48 + n % 10,
        number@.len() == 1 <==> n < 10,
{
    if at is Some {
        assert forall|k: int| 0 <= k < needle@.len() implies #[trigger] hay@[at->0 + k]
            == needle@[k] by {
            assert(hay@.subrange(at->0 as int, at->0 + needle@.len())[k] == hay@[at->0 + k]);
        }
        assert forall|j: int| 0 <= j < at->0 implies hay@.subrange(j, j + needle@.len() as int)
            != needle@ || !(#[trigger] fits_at(hay@, needle@, j)) by {
            assert(!occurs_at(hay@, needle@, j));
        }
    } else {
        assert forall|j: int| #[trigger] fits_at(hay@, needle@, j) implies hay@.subrange(
            j,
            j + needle@.len() as int,
        ) != needle@ by {
            assert(!occurs_at(hay@, needle@, j));
        }
    }
    if starts {
        let rest = s@.subrange(prefix@.len() as int, s@.len() as int);
        assert(s@ =~= prefix@ + rest) by {
            assert forall|i: int| 0 <= i < s@.len() implies s@[i] == (prefix@ + rest)[i] by {
                if i < prefix@.len() {
                    assert(s@.subrange(0, prefix@.len() as int)[i] == s@[i]);
                }
            }
        }
    }
    if exists|rest: Seq<char>| s@ == #[trigger] (prefix@ + rest) {
        let rest = choose|rest: Seq<char>| s@ == #[trigger] (prefix@ + rest);
        assert(s@.subrange(0, prefix@.len() as int) =~= prefix@);
    }
    if forall|i: int| 0 <= i < name.len() ==> #[trigger] name[i] != '/' {
        lemma_last_segment(above, name);
    }
    lemma_decimal(n as nat);
    if n >= 10 {
        lemma_decimal((n / 10) as nat);
        crate::text::lemma_decimal_injective((n / 10) as nat, (n / 10) as nat);
        assert(decimal(n as nat).len() == decimal((n / 10) as nat).len() + 1);
        lemma_decimal_nonempty((n / 10) as nat);
    }
}

proof fn lemma_decimal_nonempty(n: nat)
    ensures
        decimal(n).len() >= 1,
{
}

/// Whether there is room for `needle` in `hay` from `at` on.
pub open spec fn fits_at(hay: Seq<char>, needle: Seq<char>, at: int) -> bool {
    0 <= at && at + needle.len() <= hay.len()
}

} // verus!
