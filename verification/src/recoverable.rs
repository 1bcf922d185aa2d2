//! Agent threads of earlier runs that can be brought back into the session.

use vstd::prelude::*;

use crate::app_state::App;
use crate::id_map::{keys_of, lemma_lookup, lookup, IdMap};
use crate::order::{
    in_order, lemma_ordered, lemma_ordered_contains, ordered, stable_sort, Ranked,
};
use crate::text::{
    copy_opt, lemma_lex_less, lemma_opt_lex_less, lex_less, opt_lex_less, opt_text_less,
    same_opt_text, text_less,
};
use crate::thread::{
    agent_path_from_thread, parent_of, parent_thread_id_from_thread, spawn_path, Thread, ThreadId,
};

verus! {

/// How many threads are asked for at a time.
pub const THREAD_LIST_LIMIT: u32 = 100;

impl DeepView for Thread {
    type V = Thread;

    open spec fn deep_view(&self) -> Thread {
        *self
    }
}

impl Ranked for Thread {
    open spec fn ranks_before(a: Thread, b: Thread) -> bool {
        ||| opt_lex_less(spawn_path(a.source), spawn_path(b.source))
        ||| spawn_path(a.source) == spawn_path(b.source) && lex_less(a.id@, b.id@)
    }

    fn precedes(&self, other: &Self) -> (before: bool) {
        let left = agent_path_from_thread(self);
        let right = agent_path_from_thread(other);
        opt_text_less(&left, &right) || (same_opt_text(&left, &right) && text_less(
            self.id.as_str(),
            other.id.as_str(),
        ))
    }

    proof fn lemma_ranks(a: Thread, b: Thread, c: Thread) {
        let (x, y, z) = (spawn_path(a.source), spawn_path(b.source), spawn_path(c.source));
        lemma_opt_lex_less(x, y, z);
        lemma_opt_lex_less(y, z, x);
        lemma_opt_lex_less(z, x, y);
        lemma_opt_lex_less(y, x, z);
        lemma_opt_lex_less(z, y, x);
        lemma_opt_lex_less(x, z, y);
        lemma_lex_less(a.id@, b.id@, c.id@);
        lemma_lex_less(b.id@, c.id@, a.id@);
        lemma_lex_less(c.id@, a.id@, b.id@);
        lemma_lex_less(b.id@, a.id@, c.id@);
        lemma_lex_less(a.id@, c.id@, b.id@);
    }
}

/// The threads with well-formed ids, each with the thread that spawned it.
pub open spec fn parents_of(threads: Seq<Thread>) -> Seq<(ThreadId, Option<ThreadId>)>
    decreases threads.len(),
{
    if threads.len() == 0 {
        Seq::empty()
    } else {
        let before = parents_of(threads.drop_last());
        match threads.last().thread_id {
            Some(id) => before.push((id, parent_of(threads.last()))),
            None => before,
        }
    }
}

/// The thread that spawned the thread `id`, as far as `parents` tells.
pub open spec fn parent_in(
    parents: Seq<(ThreadId, Option<ThreadId>)>,
    id: ThreadId,
) -> Option<ThreadId> {
    match lookup(parents, id) {
        Some(parent) => parent,
        None => None,
    }
}

/// The thread `n` spawns further up than `start`.
pub open spec fn ancestor(
    parents: Seq<(ThreadId, Option<ThreadId>)>,
    start: Option<ThreadId>,
    n: nat,
) -> Option<ThreadId>
    decreases n,
{
    if n == 0 {
        start
    } else {
        match ancestor(parents, start, (n - 1) as nat) {
            Some(id) => parent_in(parents, id),
            None => None,
        }
    }
}

/// Whether some chain of spawns leads from `primary` to `thread`.
pub open spec fn descends_from(
    thread: Thread,
    primary: ThreadId,
    parents: Seq<(ThreadId, Option<ThreadId>)>,
) -> bool {
    exists|n: nat| #[trigger] ancestor(parents, parent_of(thread), n) == Some(primary)
}

/// Once the way up comes back to where it was, it goes round for ever.
proof fn lemma_ancestor_cycle(
    parents: Seq<(ThreadId, Option<ThreadId>)>,
    start: Option<ThreadId>,
    from: nat,
    to: nat,
    n: nat,
)
    requires
        from < to,
        ancestor(parents, start, from) == ancestor(parents, start, to),
    ensures
        exists|k: nat|
            k < to && ancestor(parents, start, n) == #[trigger] ancestor(parents, start, k),
    decreases n,
{
    if n < to {
        assert(ancestor(parents, start, n) == ancestor(parents, start, n));
    } else if n == to {
        assert(ancestor(parents, start, n) == ancestor(parents, start, from));
    } else {
        lemma_ancestor_cycle(parents, start, from, to, (n - 1) as nat);
        let k = choose|k: nat|
            k < to && ancestor(parents, start, (n - 1) as nat) == #[trigger] ancestor(
                parents,
                start,
                k,
            );
        let next = k + 1;
        assert(ancestor(parents, start, n) == ancestor(parents, start, next));
        if next == to {
            assert(ancestor(parents, start, n) == ancestor(parents, start, from));
        }
    }
}

/// Where the way up has ended it does not go on.
proof fn lemma_ancestor_end(
    parents: Seq<(ThreadId, Option<ThreadId>)>,
    start: Option<ThreadId>,
    end: nat,
    n: nat,
)
    requires
        ancestor(parents, start, end) is None,
        end <= n,
    ensures
        ancestor(parents, start, n) is None,
    decreases n,
{
    if end < n {
        lemma_ancestor_end(parents, start, end, (n - 1) as nat);
    }
}

/// Whether `ids` holds `id`.
fn holds_id(ids: &Vec<ThreadId>, id: ThreadId) -> (holds: bool)
    ensures
        holds == ids@.contains(id),
{
    let mut i: usize = 0;
    while i < ids.len()
        invariant
            i <= ids@.len(),
            forall|k: int| 0 <= k < i ==> ids@[k] != id,
        decreases ids@.len() - i,
    {
        if ids[i] == id {
            proof {
                assert(ids@[i as int] == id);
            }
            return true;
        }
        i += 1;
    }
    false
}

/// Whether some chain of spawns leads from `primary` to `thread`. A chain that
/// comes back to itself leads nowhere.
pub fn thread_is_descendant_of_primary(
    thread: &Thread,
    primary: ThreadId,
    parents: &IdMap<Option<ThreadId>>,
) -> (descends: bool)
    requires
        parents.wf(),
    ensures
        descends == descends_from(*thread, primary, parents.entries@),
{
    let ghost pairs = parents.entries@;
    let ghost start = parent_of(*thread);
    let mut seen: Vec<ThreadId> = Vec::new();
    let mut parent: Option<ThreadId> = parent_thread_id_from_thread(thread);
    while parent.is_some()
        invariant
            parents.wf(),
            pairs == parents.entries@,
            start == parent_of(*thread),
            parent == ancestor(pairs, start, seen@.len()),
            seen@.no_duplicates(),
            forall|k: int|
                0 <= k < seen@.len() ==> ancestor(pairs, start, k as nat) == Some(
                    #[trigger] seen@[k],
                ) && seen@[k] != primary && (k + 1 < seen@.len() || parent is Some ==> keys_of(
                    pairs,
                ).contains(seen@[k])),
        decreases pairs.len() + 1 - seen@.len(),
    {
        let ghost n = seen@.len();
        let parent_id = parent.unwrap();
        if parent_id == primary {
            return true;
        }
        if holds_id(&seen, parent_id) {
            proof {
                let from = seen@.index_of(parent_id);
                assert(ancestor(pairs, start, from as nat) == ancestor(pairs, start, n));
                if descends_from(*thread, primary, pairs) {
                    let m = choose|m: nat| #[trigger] ancestor(pairs, start, m) == Some(primary);
                    lemma_ancestor_cycle(pairs, start, from as nat, n, m);
                    let k = choose|k: nat|
                        k < n && ancestor(pairs, start, m) == #[trigger] ancestor(pairs, start, k);
                    assert(ancestor(pairs, start, k) == Some(seen@[k as int]));
                }
            }
            return false;
        }
        proof {
            lemma_ids_bounded(seen@, keys_of(pairs));
        }
        seen.push(parent_id);
        parent = match parents.get(parent_id) {
            Some(above) => *above,
            None => None,
        };
        proof {
            lemma_lookup(pairs, parent_id);
            assert(parent == parent_in(pairs, parent_id));
            assert(ancestor(pairs, start, n + 1) == parent_in(pairs, parent_id));
        }
    }
    proof {
        if descends_from(*thread, primary, pairs) {
            let m = choose|m: nat| #[trigger] ancestor(pairs, start, m) == Some(primary);
            if m >= seen@.len() {
                lemma_ancestor_end(pairs, start, seen@.len(), m);
            } else {
                assert(ancestor(pairs, start, m) == Some(seen@[m as int]));
            }
        }
    }
    false
}

proof fn lemma_ids_bounded(ids: Seq<ThreadId>, known: Seq<ThreadId>)
    requires
        ids.no_duplicates(),
        forall|k: int| 0 <= k < ids.len() ==> known.contains(#[trigger] ids[k]),
    ensures
        ids.len() <= known.len(),
{
    assert forall|x: ThreadId| ids.to_set().contains(x) implies known.to_set().contains(x) by {
        let k = ids.index_of(x);
        assert(ids.contains(x));
        assert(known.contains(ids[k]));
    }
    ids.unique_seq_to_set();
    known.lemma_cardinality_of_set();
    vstd::seq_lib::seq_to_set_is_finite(known);
    vstd::set_lib::lemma_len_subset(ids.to_set(), known.to_set());
}

/// The threads with well-formed ids, each with the thread that spawned it. Where
/// an id occurs twice the later thread counts.
fn collect_parents(threads: &Vec<Thread>) -> (parents: IdMap<Option<ThreadId>>)
    ensures
        parents.wf(),
        forall|id: ThreadId| #[trigger] parents.value(id) == lookup(parents_of(threads@), id),
{
    let mut parents: IdMap<Option<ThreadId>> = IdMap::new();
    let mut i: usize = 0;
    proof {
        assert(threads@.take(0) =~= Seq::empty());
    }
    while i < threads.len()
        invariant
            i <= threads@.len(),
            parents.wf(),
            forall|id: ThreadId| #[trigger]
                parents.value(id) == lookup(parents_of(threads@.take(i as int)), id),
        decreases threads@.len() - i,
    {
        proof {
            assert(threads@.take(i + 1).drop_last() =~= threads@.take(i as int));
            assert(threads@.take(i + 1).last() == threads@[i as int]);
        }
        if let Some(id) = threads[i].thread_id {
            let parent = parent_thread_id_from_thread(&threads[i]);
            parents.insert(id, parent);
            proof {
                let before = parents_of(threads@.take(i as int));
                let after = parents_of(threads@.take(i + 1));
                assert(after == before.push((id, parent)));
                assert(after.drop_last() =~= before);
            }
        }
        i += 1;
    }
    proof {
        assert(threads@.take(i as int) =~= threads@);
    }
    parents
}

proof fn lemma_ancestor_same(
    a: Seq<(ThreadId, Option<ThreadId>)>,
    b: Seq<(ThreadId, Option<ThreadId>)>,
    start: Option<ThreadId>,
    n: nat,
)
    requires
        forall|id: ThreadId| #[trigger] lookup(a, id) == lookup(b, id),
    ensures
        ancestor(a, start, n) == ancestor(b, start, n),
    decreases n,
{
    if n > 0 {
        lemma_ancestor_same(a, b, start, (n - 1) as nat);
    }
}

proof fn lemma_descends_same(
    thread: Thread,
    primary: ThreadId,
    a: Seq<(ThreadId, Option<ThreadId>)>,
    b: Seq<(ThreadId, Option<ThreadId>)>,
)
    requires
        forall|id: ThreadId| #[trigger] lookup(a, id) == lookup(b, id),
    ensures
        descends_from(thread, primary, a) == descends_from(thread, primary, b),
{
    let start = parent_of(thread);
    if descends_from(thread, primary, a) {
        let n = choose|n: nat| #[trigger] ancestor(a, start, n) == Some(primary);
        lemma_ancestor_same(a, b, start, n);
        assert(ancestor(b, start, n) == Some(primary));
    }
    if descends_from(thread, primary, b) {
        let n = choose|n: nat| #[trigger] ancestor(b, start, n) == Some(primary);
        lemma_ancestor_same(a, b, start, n);
        assert(ancestor(a, start, n) == Some(primary));
    }
}

impl App {
    /// Whether `thread` can be brought back: its id is well-formed, nothing of it
    /// is loaded or known in the session, and the primary thread spawned it,
    /// directly or not.
    pub open spec fn recoverable(
        &self,
        thread: Thread,
        primary: ThreadId,
        loaded: Seq<ThreadId>,
        all: Seq<Thread>,
    ) -> bool {
        &&& thread.thread_id is Some
        &&& !loaded.contains(thread.thread_id->0)
        &&& !self.thread_event_channels.keys().contains(thread.thread_id->0)
        &&& !self.agent_navigation.threads.keys().contains(thread.thread_id->0)
        &&& descends_from(thread, primary, parents_of(all))
    }

    /// The threads among `all` that can be brought back, by agent path and id.
    pub open spec fn recoverable_threads(
        &self,
        loaded: Seq<ThreadId>,
        all: Seq<Thread>,
    ) -> Seq<Thread> {
        match self.primary_thread_id {
            Some(primary) => ordered::<Thread>(
                all.filter(|t: Thread| self.recoverable(t, primary, loaded, all)),
            ),
            None => Seq::empty(),
        }
    }

    /// The threads among `all_threads` that can be brought back, given the ids of
    /// the threads that are loaded.
    pub fn recoverable_agent_threads(
        &self,
        loaded_ids: &Vec<ThreadId>,
        all_threads: Vec<Thread>,
    ) -> (threads: Vec<Thread>)
        requires
            self.maps_wf(),
        ensures
            threads@ == self.recoverable_threads(loaded_ids@, all_threads@),
    {
        let primary = match self.primary_thread_id {
            Some(primary) => primary,
            None => {
                return Vec::new();
            },
        };
        let parents = collect_parents(&all_threads);
        let ghost all = all_threads@;
        let ghost pred = |t: Thread| self.recoverable(t, primary, loaded_ids@, all);
        let mut recoverable: Vec<Thread> = Vec::new();
        proof {
            assert(all.take(0).filter(pred) =~= Seq::empty()) by {
                reveal(Seq::filter);
            }
        }
        for thread in it: all_threads
            invariant
                it.seq() == all_threads@,
                all == all_threads@,
                self.maps_wf(),
                parents.wf(),
                forall|id: ThreadId| #[trigger] parents.value(id) == lookup(parents_of(all), id),
                pred == (|t: Thread| self.recoverable(t, primary, loaded_ids@, all)),
                recoverable@ == all.take(it.index()).filter(pred),
        {
            let ghost n = it.index();
            proof {
                assert(all.take(n + 1) =~= all.take(n).push(all[n]));
                all.take(n).lemma_filter_push(all[n], pred);
                assert forall|id: ThreadId| #[trigger]
                    lookup(parents.entries@, id) == lookup(parents_of(all), id) by {
                    assert(parents.value(id) == lookup(parents_of(all), id));
                }
                lemma_descends_same(thread, primary, parents.entries@, parents_of(all));
            }
            let keep = match thread.thread_id {
                Some(id) => !holds_id(loaded_ids, id) && !self.thread_event_channels.contains(id)
                    && !self.agent_navigation.threads.contains(id)
                    && thread_is_descendant_of_primary(&thread, primary, &parents),
                None => false,
            };
            if keep {
                recoverable.push(thread);
            }
        }
        proof {
            assert(all.take(all.len() as int) =~= all);
            assert(recoverable.deep_view() =~= recoverable@);
        }
        let sorted = stable_sort(recoverable);
        proof {
            assert(sorted.deep_view() =~= sorted@);
        }
        sorted
    }
}

/// A thread can be brought back if and only if it is listed as such, and the list
/// is sorted by agent path and id.
pub proof fn lemma_recoverable_threads(
    app: App,
    loaded: Seq<ThreadId>,
    all: Seq<Thread>,
    thread: Thread,
)
    ensures
        app.recoverable_threads(loaded, all).contains(thread) <==> app.primary_thread_id is Some
            && all.contains(thread) && app.recoverable(
            thread,
            app.primary_thread_id->0,
            loaded,
            all,
        ),
        in_order::<Thread>(app.recoverable_threads(loaded, all)),
{
    broadcast use vstd::seq_lib::group_filter_ensures;

    if let Some(primary) = app.primary_thread_id {
        let pred = |t: Thread| app.recoverable(t, primary, loaded, all);
        let chosen = all.filter(pred);
        lemma_ordered::<Thread>(chosen, thread);
        lemma_ordered_contains::<Thread>(chosen, thread);
        if chosen.contains(thread) {
            let i = chosen.index_of(thread);
            assert(pred(chosen[i]));
            all.lemma_filter_contains_rev(pred, thread);
        }
        if all.contains(thread) && pred(thread) {
            let i = all.index_of(thread);
            assert(chosen.contains(all[i]));
        }
    }
}

/// The threads that have been listed so far.
#[derive(Debug, PartialEq, Eq)]
pub struct ThreadPages {
    pub threads: Vec<Thread>,
    pub cursor: Option<String>,
}

/// What threads are sorted by.
#[derive(Debug, Clone, Copy, PartialEq, Eq, Structural)]
pub enum ThreadSortKey {
    CreatedAt,
    UpdatedAt,
}

#[derive(Debug, Clone, Copy, PartialEq, Eq, Structural)]
pub enum SortDirection {
    Asc,
    Desc,
}

/// Where a thread comes from.
#[derive(Debug, Clone, Copy, PartialEq, Eq, Structural)]
pub enum ThreadSourceKind {
    Cli,
    SubAgentThreadSpawn,
}

/// What the app server is asked for when a page of threads is listed. An absent filter
/// lets every thread through.
#[derive(Debug, PartialEq, Eq)]
pub struct ThreadListParams {
    pub cursor: Option<String>,
    pub limit: Option<u32>,
    pub sort_key: Option<ThreadSortKey>,
    pub sort_direction: Option<SortDirection>,
    pub model_providers: Option<Vec<String>>,
    pub source_kinds: Option<Vec<ThreadSourceKind>>,
    pub archived: Option<bool>,
    pub cwd: Option<String>,
    pub use_state_db_only: bool,
    pub search_term: Option<String>,
}

/// What follows from a page of threads.
#[derive(Debug, PartialEq, Eq)]
pub enum ThreadPagesStep {
    More(ThreadPages),
    Complete(Vec<Thread>),
}

impl ThreadPages {
    pub fn new() -> (pages: Self)
        ensures
            pages.threads@.len() == 0,
            pages.cursor is None,
    {
        ThreadPages { threads: Vec::new(), cursor: None }
    }

    /// What the app server is asked for next: the threads of spawned agents that are not
    /// archived, out of the state database, from the oldest on.
    pub fn next_request(&self) -> (params: ThreadListParams)
        ensures
            params.cursor == self.cursor,
            params.limit == Some(THREAD_LIST_LIMIT),
            params.sort_key == Some(ThreadSortKey::CreatedAt),
            params.sort_direction == Some(SortDirection::Asc),
            params.model_providers is None,
            params.source_kinds is Some,
            params.source_kinds->0@ == seq![ThreadSourceKind::SubAgentThreadSpawn],
            params.archived == Some(false),
            params.cwd is None,
            params.use_state_db_only,
            params.search_term is None,
    {
        let source_kinds: Vec<ThreadSourceKind> = vec![ThreadSourceKind::SubAgentThreadSpawn];
        proof {
            assert(source_kinds@ =~= seq![ThreadSourceKind::SubAgentThreadSpawn]);
        }
        ThreadListParams {
            cursor: copy_opt(&self.cursor),
            limit: Some(THREAD_LIST_LIMIT),
            sort_key: Some(ThreadSortKey::CreatedAt),
            sort_direction: Some(SortDirection::Asc),
            model_providers: None,
            source_kinds: Some(source_kinds),
            archived: Some(false),
            cwd: None,
            use_state_db_only: true,
            search_term: None,
        }
    }

    /// Takes in a page of threads.
    pub fn accept(self, data: Vec<Thread>, next_cursor: Option<String>) -> (step: ThreadPagesStep)
        ensures
            match next_cursor {
                Some(_) => {
                    &&& step is More
                    &&& step->More_0.threads@ == self.threads@ + data@
                    &&& step->More_0.cursor == next_cursor
                },
                None => step is Complete && step->Complete_0@ == self.threads@ + data@,
            },
    {
        let mut threads = self.threads;
        let mut data = data;
        threads.append(&mut data);
        match next_cursor {
            Some(cursor) => ThreadPagesStep::More(ThreadPages { threads, cursor: Some(cursor) }),
            None => ThreadPagesStep::Complete(threads),
        }
    }
}

/// The well-formed ids among those of the loaded threads; none where the threads
/// could not be listed.
pub fn loaded_thread_ids(listed: Option<Vec<Option<ThreadId>>>) -> (ids: Vec<ThreadId>)
    ensures
        match listed {
            Some(listed) => forall|id: ThreadId| #[trigger]
                ids@.contains(id) <==> listed@.contains(Some(id)),
            None => ids@.len() == 0,
        },
{
    let mut ids: Vec<ThreadId> = Vec::new();
    match listed {
        None => ids,
        Some(listed) => {
            let mut i: usize = 0;
            while i < listed.len()
                invariant
                    i <= listed@.len(),
                    forall|k: int|
                        0 <= k < i && listed@[k] is Some ==> ids@.contains(
                            (#[trigger] listed@[k])->0,
                        ),
                    forall|k: int|
                        0 <= k < ids@.len() ==> listed@.contains(Some(#[trigger] ids@[k])),
                decreases listed@.len() - i,
            {
                if let Some(id) = listed[i] {
                    let ghost before = ids@;
                    ids.push(id);
                    proof {
                        assert(ids@[before.len() as int] == id);
                        assert(listed@.contains(listed@[i as int]));
                        assert forall|k: int| 0 <= k < i + 1 && listed@[k] is Some implies
                            ids@.contains((#[trigger] listed@[k])->0) by {
                            if k < i {
                                let m = before.index_of(listed@[k]->0);
                                assert(before.contains(listed@[k]->0));
                                assert(ids@[m] == listed@[k]->0);
                            }
                        }
                    }
                }
                i += 1;
            }
            proof {
                assert forall|id: ThreadId| #[trigger] ids@.contains(id) <==> listed@.contains(
                    Some(id),
                ) by {
                    if listed@.contains(Some(id)) {
                        let k = listed@.index_of(Some(id));
                        assert(ids@.contains(listed@[k]->0));
                    }
                    if ids@.contains(id) {
                        let k = ids@.index_of(id);
                        assert(listed@.contains(Some(ids@[k])));
                    }
                }
            }
            ids
        },
    }
}

} // verus!
