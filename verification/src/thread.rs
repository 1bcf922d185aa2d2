//! Threads as the app server reports them.

use vstd::prelude::*;

use crate::agent_tree::{ThreadInfo, ThreadStatusView, ROOT_AGENT_PATH, ROOT_TASK_NAME};
use crate::text::{copy_opt, last_path_segment, last_segment, same_text, trim, trim_text};

verus! {

/// The hexadecimal digit `d`.
pub open spec fn hex_digit(d: int) -> char {
    if d < 10 {
        crate::text::digit(d)
    } else if d == 10 {
        'a'
    } else if d == 11 {
        'b'
    } else if d == 12 {
        'c'
    } else if d == 13 {
        'd'
    } else if d == 14 {
        'e'
    } else {
        'f'
    }
}

/// The last `count` hexadecimal digits of `n`.
pub open spec fn hex(n: nat, count: nat) -> Seq<char>
    decreases count,
{
    if count == 0 {
        Seq::empty()
    } else {
        hex(n / 16, (count - 1) as nat).push(hex_digit((n % 16) as int))
    }
}

/// The id of a thread: a UUID.
#[derive(Debug, Clone, Copy, PartialEq, Eq, Hash, Structural)]
pub struct ThreadId {
    pub bits: u128,
}

impl ThreadId {
    /// The id in its hyphenated form.
    pub open spec fn text(self) -> Seq<char> {
        let digits = hex(self.bits as nat, 32);
        digits.subrange(0, 8) + seq!['-'] + digits.subrange(8, 12) + seq!['-'] + digits.subrange(
            12,
            16,
        ) + seq!['-'] + digits.subrange(16, 20) + seq!['-'] + digits.subrange(20, 32)
    }

    /// The id in its hyphenated form.
    pub fn to_text(&self) -> (text: String)
        ensures
            text@ == self.text(),
    {
        let digits = hex_digits(self.bits, 32);
        let mut text = String::new();
        let mut i: usize = 0;
        let ghost h = hex(self.bits as nat, 32);
        while i < 32
            invariant
                i <= 32,
                digits@ == h,
                h.len() == 32,
                h == hex(self.bits as nat, 32),
                text@ =~= if i <= 8 {
                    h.subrange(0, i as int)
                } else if i <= 12 {
                    h.subrange(0, 8) + seq!['-'] + h.subrange(8, i as int)
                } else if i <= 16 {
                    h.subrange(0, 8) + seq!['-'] + h.subrange(8, 12) + seq!['-'] + h.subrange(
                        12,
                        i as int,
                    )
                } else if i <= 20 {
                    h.subrange(0, 8) + seq!['-'] + h.subrange(8, 12) + seq!['-'] + h.subrange(
                        12,
                        16,
                    ) + seq!['-'] + h.subrange(16, i as int)
                } else {
                    h.subrange(0, 8) + seq!['-'] + h.subrange(8, 12) + seq!['-'] + h.subrange(
                        12,
                        16,
                    ) + seq!['-'] + h.subrange(16, 20) + seq!['-'] + h.subrange(20, i as int)
                },
            decreases 32 - i,
        {
            if i == 8 || i == 12 || i == 16 || i == 20 {
                text.push('-');
            }
            text.push(digits[i]);
            i += 1;
        }
        text
    }
}

/// The last `count` hexadecimal digits of `n`.
fn hex_digits(n: u128, count: usize) -> (digits: Vec<char>)
    ensures
        digits@ == hex(n as nat, count as nat),
        digits@.len() == count,
    decreases count,
{
    if count == 0 {
        return Vec::new();
    }
    let mut digits = hex_digits(n / 16, count - 1);
    let d: u128 = n % 16;
    let c: char = if d == 0 {
        '0'
    } else if d == 1 {
        '1'
    } else if d == 2 {
        '2'
    } else if d == 3 {
        '3'
    } else if d == 4 {
        '4'
    } else if d == 5 {
        '5'
    } else if d == 6 {
        '6'
    } else if d == 7 {
        '7'
    } else if d == 8 {
        '8'
    } else if d == 9 {
        '9'
    } else if d == 10 {
        'a'
    } else if d == 11 {
        'b'
    } else if d == 12 {
        'c'
    } else if d == 13 {
        'd'
    } else if d == 14 {
        'e'
    } else {
        'f'
    };
    digits.push(c);
    digits
}

/// The first number that takes more than `count` hexadecimal digits.
spec fn hex_limit(count: nat) -> nat
    decreases count,
{
    if count == 0 {
        1
    } else {
        16 * hex_limit((count - 1) as nat)
    }
}

proof fn lemma_hex_injective(m: nat, n: nat, count: nat)
    requires
        hex(m, count) == hex(n, count),
        m < hex_limit(count),
        n < hex_limit(count),
    ensures
        m == n,
    decreases count,
{
    if count > 0 {
        let a = hex(m, count);
        let b = hex(n, count);
        let less = (count - 1) as nat;
        assert(a.drop_last() =~= hex(m / 16, less));
        assert(b.drop_last() =~= hex(n / 16, less));
        assert(a.last() == hex_digit((m % 16) as int));
        assert(b.last() == hex_digit((n % 16) as int));
        lemma_hex_injective(m / 16, n / 16, less);
    }
}

/// Different ids are written differently.
pub proof fn lemma_thread_id_text_injective(a: ThreadId, b: ThreadId)
    requires
        a.text() == b.text(),
    ensures
        a == b,
{
    let x = hex(a.bits as nat, 32);
    let y = hex(b.bits as nat, 32);
    lemma_hex_len(a.bits as nat, 32);
    lemma_hex_len(b.bits as nat, 32);
    let s = a.text();
    let t = b.text();
    assert forall|i: int| 0 <= i < 32 implies x[i] == y[i] by {
        let k = if i < 8 {
            i
        } else if i < 12 {
            i + 1
        } else if i < 16 {
            i + 2
        } else if i < 20 {
            i + 3
        } else {
            i + 4
        };
        assert(s[k] == x[i]);
        assert(t[k] == y[i]);
    }
    assert(x =~= y);
    assert(hex_limit(32) == 0x1_0000_0000_0000_0000_0000_0000_0000_0000nat) by {
        reveal_with_fuel(hex_limit, 33);
    }
    lemma_hex_injective(a.bits as nat, b.bits as nat, 32);
}

proof fn lemma_hex_len(n: nat, count: nat)
    ensures
        hex(n, count).len() == count,
    decreases count,
{
    if count > 0 {
        lemma_hex_len(n / 16, (count - 1) as nat);
    }
}

/// What an active thread waits for.
#[derive(Debug, Clone, Copy, PartialEq, Eq, Structural)]
pub enum ThreadActiveFlag {
    WaitingOnApproval,
    WaitingOnUserInput,
}

/// What a thread is doing.
#[derive(Debug, Clone, PartialEq, Eq)]
pub enum ThreadStatus {
    NotLoaded,
    Idle,
    SystemError,
    Active { active_flags: Vec<ThreadActiveFlag> },
}

/// Where a thread comes from.
#[derive(Debug, Clone, PartialEq, Eq)]
pub enum SessionSource {
    /// Another thread spawned it.
    ThreadSpawn { parent_thread_id: ThreadId, agent_path: Option<String> },
    /// The user or another program started it.
    Other,
}

/// A thread as the app server reports it. `thread_id` and `parent` are `id` and
/// `parent_thread_id` where those are well-formed ids.
#[derive(Debug, Clone, PartialEq, Eq)]
pub struct Thread {
    pub id: String,
    pub thread_id: Option<ThreadId>,
    pub session_id: String,
    pub parent_thread_id: Option<String>,
    pub parent: Option<ThreadId>,
    pub status: ThreadStatus,
    pub cwd: String,
    pub path: Option<String>,
    pub name: Option<String>,
    pub preview: String,
    pub agent_nickname: Option<String>,
    pub agent_role: Option<String>,
    pub source: SessionSource,
}

/// The word for a status.
pub open spec fn status_word(status: ThreadStatus) -> Seq<char> {
    match status {
        ThreadStatus::NotLoaded => "not_loaded"@,
        ThreadStatus::Idle => "idle"@,
        ThreadStatus::SystemError => "system_error"@,
        ThreadStatus::Active { .. } => "active"@,
    }
}

/// The word for what an active thread waits for.
pub open spec fn flag_word(flag: ThreadActiveFlag) -> Seq<char> {
    match flag {
        ThreadActiveFlag::WaitingOnApproval => "waiting_on_approval"@,
        ThreadActiveFlag::WaitingOnUserInput => "waiting_on_user_input"@,
    }
}

/// The words for what a thread waits for.
pub open spec fn flag_words(status: ThreadStatus) -> Seq<Seq<char>> {
    match status {
        ThreadStatus::Active { active_flags } => active_flags@.map_values(
            |flag: ThreadActiveFlag| flag_word(flag),
        ),
        _ => Seq::empty(),
    }
}

/// The agent path that a thread was spawned with.
pub open spec fn spawn_path(source: SessionSource) -> Option<Seq<char>> {
    match source {
        SessionSource::ThreadSpawn { agent_path: Some(path), .. } => Some(path@),
        _ => None,
    }
}

/// The task that an agent path names: its last segment.
pub open spec fn task_of_path(path: Seq<char>) -> Seq<char> {
    if path == ROOT_AGENT_PATH@ {
        ROOT_TASK_NAME@
    } else if last_segment(path).len() == 0 {
        path
    } else {
        last_segment(path)
    }
}

/// What a thread is about: its name, or else how it began, where that is not
/// blank.
pub open spec fn summary_of(thread: Thread) -> Option<Seq<char>> {
    match thread.name {
        Some(name) => Some(name@),
        None => if trim(thread.preview@).len() > 0 {
            Some(thread.preview@)
        } else {
            None
        },
    }
}

/// What the status interface tells of a thread.
pub open spec fn status_info(thread: Thread) -> ThreadInfo {
    let agent_path = match spawn_path(thread.source) {
        Some(path) => Some(path),
        None => if thread.parent_thread_id is None {
            Some(ROOT_AGENT_PATH@)
        } else {
            None
        },
    };
    ThreadInfo {
        thread_id: thread.id@,
        session_id: Some(thread.session_id@),
        parent_thread_id: thread.parent_thread_id.deep_view(),
        status: status_word(thread.status),
        active_flags: flag_words(thread.status),
        cwd: Some(thread.cwd@),
        path: thread.path.deep_view(),
        agent_path,
        task_name: match agent_path {
            Some(path) => Some(task_of_path(path)),
            None => None,
        },
        agent_type: thread.agent_role.deep_view(),
        agent_nickname: thread.agent_nickname.deep_view(),
        summary: summary_of(thread),
    }
}

/// The words for a status and for what the thread waits for.
pub fn thread_status_parts(status: &ThreadStatus) -> (parts: (String, Vec<String>))
    ensures
        parts.0@ == status_word(*status),
        parts.1.deep_view() == flag_words(*status),
{
    let mut words: Vec<String> = Vec::new();
    proof {
        assert(words.deep_view() =~= Seq::empty());
    }
    match status {
        ThreadStatus::NotLoaded => ("not_loaded".to_string(), words),
        ThreadStatus::Idle => ("idle".to_string(), words),
        ThreadStatus::SystemError => ("system_error".to_string(), words),
        ThreadStatus::Active { active_flags } => {
            let mut i: usize = 0;
            while i < active_flags.len()
                invariant
                    i <= active_flags@.len(),
                    words@.len() == i,
                    forall|k: int| 0 <= k < i ==> (#[trigger] words@[k])@ == flag_word(active_flags@[k]),
                decreases active_flags@.len() - i,
            {
                let word = match active_flags[i] {
                    ThreadActiveFlag::WaitingOnApproval => "waiting_on_approval",
                    ThreadActiveFlag::WaitingOnUserInput => "waiting_on_user_input",
                };
                words.push(word.to_string());
                i += 1;
            }
            proof {
                assert(words.deep_view() =~= flag_words(*status));
            }
            ("active".to_string(), words)
        },
    }
}

/// Whether the thread has an active turn.
pub fn is_active_thread_status(status: &ThreadStatus) -> (active: bool)
    ensures
        active == (*status is Active),
{
    match status {
        ThreadStatus::Active { .. } => true,
        _ => false,
    }
}

/// The agent path that a thread was spawned with.
pub fn agent_path_from_thread(thread: &Thread) -> (path: Option<String>)
    ensures
        path.deep_view() == spawn_path(thread.source),
{
    match &thread.source {
        SessionSource::ThreadSpawn { agent_path, .. } => copy_opt(agent_path),
        SessionSource::Other => None,
    }
}

/// The task that an agent path names.
pub fn task_name_from_agent_path(agent_path: &str) -> (task: String)
    ensures
        task@ == task_of_path(agent_path@),
{
    if same_text(agent_path, ROOT_AGENT_PATH) {
        return ROOT_TASK_NAME.to_string();
    }
    let segment = last_path_segment(agent_path);
    if segment.as_str().is_empty() {
        agent_path.to_string()
    } else {
        segment
    }
}

/// What a thread is about.
pub fn thread_summary(thread: &Thread) -> (summary: Option<String>)
    ensures
        summary.deep_view() == summary_of(*thread),
{
    match &thread.name {
        Some(name) => Some(name.clone()),
        None => if trim_text(thread.preview.as_str()).as_str().is_empty() {
            None
        } else {
            Some(thread.preview.clone())
        },
    }
}

/// What the status interface tells of a thread.
pub fn thread_status_view_from_thread(thread: &Thread) -> (view: ThreadStatusView)
    ensures
        view.deep_view() == status_info(*thread),
        view.thread_id@ == thread.id@,
        view.agent_type.deep_view() == thread.agent_role.deep_view(),
        view.agent_nickname.deep_view() == thread.agent_nickname.deep_view(),
{
    let (status, active_flags) = thread_status_parts(&thread.status);
    let agent_path = match agent_path_from_thread(thread) {
        Some(path) => Some(path),
        None => if thread.parent_thread_id.is_none() {
            Some(ROOT_AGENT_PATH.to_string())
        } else {
            None
        },
    };
    let task_name = match &agent_path {
        Some(path) => Some(task_name_from_agent_path(path.as_str())),
        None => None,
    };
    ThreadStatusView {
        thread_id: thread.id.clone(),
        session_id: Some(thread.session_id.clone()),
        parent_thread_id: copy_opt(&thread.parent_thread_id),
        status,
        active_flags,
        cwd: Some(thread.cwd.clone()),
        path: copy_opt(&thread.path),
        agent_path,
        task_name,
        agent_type: copy_opt(&thread.agent_role),
        agent_nickname: copy_opt(&thread.agent_nickname),
        summary: thread_summary(thread),
    }
}

/// The thread that spawned `thread`.
pub open spec fn parent_of(thread: Thread) -> Option<ThreadId> {
    match thread.parent {
        Some(parent) => Some(parent),
        None => match thread.source {
            SessionSource::ThreadSpawn { parent_thread_id, .. } => Some(parent_thread_id),
            SessionSource::Other => None,
        },
    }
}

/// The thread that spawned `thread`.
pub fn parent_thread_id_from_thread(thread: &Thread) -> (parent: Option<ThreadId>)
    ensures
        parent == parent_of(*thread),
{
    match thread.parent {
        Some(parent) => Some(parent),
        None => match &thread.source {
            SessionSource::ThreadSpawn { parent_thread_id, .. } => Some(*parent_thread_id),
            SessionSource::Other => None,
        },
    }
}

} // verus!
