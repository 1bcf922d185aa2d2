//! The tree of agent threads that hang below one another.

use vstd::prelude::*;

use crate::order::{ordered, stable_sort, Ranked};
use crate::text::{
    copy_opt, copy_texts, lemma_lex_less, lemma_opt_lex_less, lex_less, opt_lex_less,
    opt_text_less, same_opt_text, same_text, text_less,
};

verus! {

/// The agent path of the main thread.
pub const ROOT_AGENT_PATH: &'static str = "/root";

/// The task name of the main thread.
pub const ROOT_TASK_NAME: &'static str = "root";

/// What the status interface tells of one thread.
#[derive(Debug, Clone, PartialEq, Eq)]
pub struct ThreadStatusView {
    pub thread_id: String,
    pub session_id: Option<String>,
    pub parent_thread_id: Option<String>,
    pub status: String,
    pub active_flags: Vec<String>,
    pub cwd: Option<String>,
    pub path: Option<String>,
    pub agent_path: Option<String>,
    pub task_name: Option<String>,
    pub agent_type: Option<String>,
    pub agent_nickname: Option<String>,
    pub summary: Option<String>,
}

/// A thread with the threads that it spawned.
#[derive(Debug, PartialEq, Eq)]
pub struct AgentTreeNode {
    pub thread_id: String,
    pub session_id: Option<String>,
    pub parent_thread_id: Option<String>,
    pub status: String,
    pub active_flags: Vec<String>,
    pub cwd: Option<String>,
    pub path: Option<String>,
    pub agent_path: Option<String>,
    pub task_name: Option<String>,
    pub agent_type: Option<String>,
    pub agent_nickname: Option<String>,
    pub summary: Option<String>,
    pub children: Vec<AgentTreeNode>,
}

/// All threads of a session, each below the thread that spawned it.
#[derive(Debug, PartialEq, Eq)]
pub struct AgentTreeResponse {
    pub roots: Vec<AgentTreeNode>,
}

/// The contents of a `ThreadStatusView`.
#[verifier::ext_equal]
pub struct ThreadInfo {
    pub thread_id: Seq<char>,
    pub session_id: Option<Seq<char>>,
    pub parent_thread_id: Option<Seq<char>>,
    pub status: Seq<char>,
    pub active_flags: Seq<Seq<char>>,
    pub cwd: Option<Seq<char>>,
    pub path: Option<Seq<char>>,
    pub agent_path: Option<Seq<char>>,
    pub task_name: Option<Seq<char>>,
    pub agent_type: Option<Seq<char>>,
    pub agent_nickname: Option<Seq<char>>,
    pub summary: Option<Seq<char>>,
}

/// A thread and what hangs below it.
#[verifier::ext_equal]
pub struct Tree {
    pub thread: ThreadInfo,
    pub children: Seq<Tree>,
}

impl DeepView for ThreadStatusView {
    type V = ThreadInfo;

    open spec fn deep_view(&self) -> ThreadInfo {
        ThreadInfo {
            thread_id: self.thread_id@,
            session_id: self.session_id.deep_view(),
            parent_thread_id: self.parent_thread_id.deep_view(),
            status: self.status@,
            active_flags: self.active_flags.deep_view(),
            cwd: self.cwd.deep_view(),
            path: self.path.deep_view(),
            agent_path: self.agent_path.deep_view(),
            task_name: self.task_name.deep_view(),
            agent_type: self.agent_type.deep_view(),
            agent_nickname: self.agent_nickname.deep_view(),
            summary: self.summary.deep_view(),
        }
    }
}

impl AgentTreeNode {
    /// What the node tells of its own thread.
    pub open spec fn thread(&self) -> ThreadInfo {
        ThreadInfo {
            thread_id: self.thread_id@,
            session_id: self.session_id.deep_view(),
            parent_thread_id: self.parent_thread_id.deep_view(),
            status: self.status@,
            active_flags: self.active_flags.deep_view(),
            cwd: self.cwd.deep_view(),
            path: self.path.deep_view(),
            agent_path: self.agent_path.deep_view(),
            task_name: self.task_name.deep_view(),
            agent_type: self.agent_type.deep_view(),
            agent_nickname: self.agent_nickname.deep_view(),
            summary: self.summary.deep_view(),
        }
    }
}

impl AgentTreeNode {
    /// The node and what hangs below it.
    pub open spec fn tree(&self) -> Tree
        decreases self,
    {
        Tree {
            thread: self.thread(),
            children: Seq::new(
                self.children@.len(),
                |i: int|
                    if 0 <= i < self.children@.len() {
                        self.children@[i].tree()
                    } else {
                        arbitrary()
                    },
            ),
        }
    }
}

impl DeepView for AgentTreeNode {
    type V = Tree;

    open spec fn deep_view(&self) -> Tree {
        self.tree()
    }
}

impl DeepView for AgentTreeResponse {
    type V = Seq<Tree>;

    open spec fn deep_view(&self) -> Seq<Tree> {
        self.roots.deep_view()
    }
}

impl Clone for AgentTreeNode {
    fn clone(&self) -> (copy: Self)
        ensures
            copy.tree() == self.tree(),
        decreases self,
    {
        let mut children: Vec<AgentTreeNode> = Vec::new();
        let mut i: usize = 0;
        while i < self.children.len()
            invariant
                i <= self.children@.len(),
                children@.len() == i,
                forall|j: int|
                    0 <= j < i ==> (#[trigger] children@[j]).tree() == self.children@[j].tree(),
            decreases self.children@.len() - i,
        {
            children.push((&self.children[i]).clone());
            i += 1;
        }
        let copy = AgentTreeNode {
            thread_id: self.thread_id.clone(),
            session_id: copy_opt(&self.session_id),
            parent_thread_id: copy_opt(&self.parent_thread_id),
            status: self.status.clone(),
            active_flags: copy_texts(&self.active_flags),
            cwd: copy_opt(&self.cwd),
            path: copy_opt(&self.path),
            agent_path: copy_opt(&self.agent_path),
            task_name: copy_opt(&self.task_name),
            agent_type: copy_opt(&self.agent_type),
            agent_nickname: copy_opt(&self.agent_nickname),
            summary: copy_opt(&self.summary),
            children,
        };
        proof {
            assert(copy.tree().children =~= self.tree().children);
        }
        copy
    }
}

impl Clone for AgentTreeResponse {
    fn clone(&self) -> (copy: Self)
        ensures
            copy.deep_view() == self.deep_view(),
    {
        let mut roots: Vec<AgentTreeNode> = Vec::new();
        let mut i: usize = 0;
        while i < self.roots.len()
            invariant
                i <= self.roots@.len(),
                roots@.len() == i,
                forall|j: int| 0 <= j < i ==> (#[trigger] roots@[j]).tree() == self.roots@[j].tree(),
            decreases self.roots@.len() - i,
        {
            roots.push((&self.roots[i]).clone());
            i += 1;
        }
        let copy = AgentTreeResponse { roots };
        proof {
            assert(copy.deep_view() =~= self.deep_view());
        }
        copy
    }
}

impl Ranked for ThreadStatusView {
    open spec fn ranks_before(a: ThreadInfo, b: ThreadInfo) -> bool {
        ||| opt_lex_less(a.agent_path, b.agent_path)
        ||| a.agent_path == b.agent_path && lex_less(a.thread_id, b.thread_id)
    }

    fn precedes(&self, other: &Self) -> (before: bool) {
        opt_text_less(&self.agent_path, &other.agent_path) || (same_opt_text(
            &self.agent_path,
            &other.agent_path,
        ) && text_less(self.thread_id.as_str(), other.thread_id.as_str()))
    }

    proof fn lemma_ranks(a: ThreadInfo, b: ThreadInfo, c: ThreadInfo) {
        lemma_opt_lex_less(a.agent_path, b.agent_path, c.agent_path);
        lemma_opt_lex_less(b.agent_path, c.agent_path, a.agent_path);
        lemma_opt_lex_less(c.agent_path, a.agent_path, b.agent_path);
        lemma_opt_lex_less(b.agent_path, a.agent_path, c.agent_path);
        lemma_opt_lex_less(c.agent_path, b.agent_path, a.agent_path);
        lemma_opt_lex_less(a.agent_path, c.agent_path, b.agent_path);
        lemma_lex_less(a.thread_id, b.thread_id, c.thread_id);
        lemma_lex_less(b.thread_id, c.thread_id, a.thread_id);
        lemma_lex_less(c.thread_id, a.thread_id, b.thread_id);
        lemma_lex_less(b.thread_id, a.thread_id, c.thread_id);
        lemma_lex_less(a.thread_id, c.thread_id, b.thread_id);
    }
}

/// `thread`, with the path and the task name of the main thread where it has no
/// path and nothing spawned it.
pub open spec fn with_root_name(thread: ThreadInfo) -> ThreadInfo {
    if thread.agent_path is None && thread.parent_thread_id is None {
        ThreadInfo {
            agent_path: Some(ROOT_AGENT_PATH@),
            task_name: Some(ROOT_TASK_NAME@),
            ..thread
        }
    } else {
        thread
    }
}

/// The threads by agent path and, where that is the same, by id.
pub open spec fn listing(threads: Seq<ThreadInfo>) -> Seq<ThreadInfo> {
    ordered::<ThreadStatusView>(threads.map_values(|t: ThreadInfo| with_root_name(t)))
}

/// Whether a thread of `listed` has the id `id`.
pub open spec fn has_id(listed: Seq<ThreadInfo>, id: Seq<char>) -> bool {
    exists|i: int| 0 <= i < listed.len() && (#[trigger] listed[i]).thread_id == id
}

/// `listed` with only the last thread of each id.
pub open spec fn latest(listed: Seq<ThreadInfo>) -> Seq<ThreadInfo>
    decreases listed.len(),
{
    if listed.len() == 0 {
        listed
    } else {
        let rest = latest(listed.drop_first());
        if has_id(listed.drop_first(), listed[0].thread_id) {
            rest
        } else {
            seq![listed[0]] + rest
        }
    }
}

/// How often `listed` says that `parent` spawned `child`.
pub open spec fn links(listed: Seq<ThreadInfo>, parent: Seq<char>, child: Seq<char>) -> nat
    decreases listed.len(),
{
    if listed.len() == 0 {
        0
    } else {
        let last = listed.last();
        links(listed.drop_last(), parent, child) + if last.parent_thread_id == Some(parent)
            && last.thread_id == child {
            1nat
        } else {
            0nat
        }
    }
}

/// The threads of `candidates` that `parent` spawned, each as often as `listed`
/// says so.
pub open spec fn spawned(
    candidates: Seq<ThreadInfo>,
    listed: Seq<ThreadInfo>,
    parent: Seq<char>,
) -> Seq<ThreadInfo>
    decreases candidates.len(),
{
    if candidates.len() == 0 {
        candidates
    } else {
        let last = candidates.last();
        spawned(candidates.drop_last(), listed, parent) + Seq::new(
            links(listed, parent, last.thread_id),
            |i: int| last,
        )
    }
}

/// The threads that hang below the thread `id`, in the order of `listed`.
pub open spec fn children_of(listed: Seq<ThreadInfo>, id: Seq<char>) -> Seq<ThreadInfo> {
    spawned(latest(listed), listed, id)
}

/// The threads that nothing spawned.
pub open spec fn roots_of(listed: Seq<ThreadInfo>) -> Seq<ThreadInfo> {
    latest(listed).filter(|t: ThreadInfo| t.parent_thread_id is None)
}

/// Whether everything that hangs below the thread of `tree`, and nothing else,
/// hangs below it in `tree`.
pub open spec fn unfolds(tree: Tree, listed: Seq<ThreadInfo>) -> bool
    decreases tree,
{
    let below = children_of(listed, tree.thread.thread_id);
    &&& tree.children.len() == below.len()
    &&& forall|i: int|
        0 <= i < tree.children.len() ==> (#[trigger] tree.children[i]).thread == below[i]
            && unfolds(tree.children[i], listed)
}

/// Whether `forest` is the tree of `threads`: the threads that nothing spawned,
/// each with everything that hangs below it.
pub open spec fn is_agent_tree(forest: Seq<Tree>, threads: Seq<ThreadInfo>) -> bool {
    let listed = listing(threads);
    &&& forest.len() == roots_of(listed).len()
    &&& forall|i: int|
        0 <= i < forest.len() ==> (#[trigger] forest[i]).thread == roots_of(listed)[i] && unfolds(
            forest[i],
            listed,
        )
}

/// Whether the threads below the roots form a tree. They do wherever ids are
/// distinct; a thread that is listed twice can hang below itself.
pub open spec fn has_agent_tree(threads: Seq<ThreadInfo>) -> bool {
    exists|forest: Seq<Tree>| is_agent_tree(forest, threads)
}

/// Whether `tree` is at most `depth` levels deep.
spec fn within(tree: Tree, depth: nat) -> bool
    decreases tree,
{
    &&& depth > 0
    &&& forall|i: int|
        0 <= i < tree.children.len() ==> within(#[trigger] tree.children[i], (depth - 1) as nat)
}

/// The number of nodes of `tree`.
spec fn size(tree: Tree) -> nat
    decreases tree,
{
    1 + sizes(tree.children)
}

spec fn sizes(trees: Seq<Tree>) -> nat
    decreases trees,
{
    if trees.len() == 0 {
        0
    } else {
        sizes(trees.drop_last()) + size(trees.last())
    }
}

proof fn lemma_sizes(trees: Seq<Tree>, i: int)
    requires
        0 <= i < trees.len(),
    ensures
        size(trees[i]) <= sizes(trees),
    decreases trees.len(),
{
    if i < trees.len() - 1 {
        lemma_sizes(trees.drop_last(), i);
        assert(trees.drop_last()[i] == trees[i]);
    }
}

/// What `latest` keeps: threads of `listed`, one of each id.
pub proof fn lemma_latest(listed: Seq<ThreadInfo>)
    ensures
        latest(listed).len() <= listed.len(),
        forall|k: int|
            0 <= k < latest(listed).len() ==> listed.contains(#[trigger] latest(listed)[k]),
        forall|k: int, m: int|
            0 <= k < m < latest(listed).len() ==> (#[trigger] latest(listed)[k]).thread_id != (
            #[trigger] latest(listed)[m]).thread_id,
        forall|id: Seq<char>| has_id(latest(listed), id) == has_id(listed, id),
    decreases listed.len(),
{
    if listed.len() > 0 {
        let tail = listed.drop_first();
        let rest = latest(tail);
        let all = latest(listed);
        lemma_latest(tail);
        assert forall|k: int| 0 <= k < all.len() implies listed.contains(#[trigger] all[k]) by {
            if has_id(tail, listed[0].thread_id) {
                assert(tail.contains(rest[k]));
                let m = tail.index_of(rest[k]);
                assert(listed[m + 1] == rest[k]);
            } else if k == 0 {
                assert(all[0] == listed[0]);
            } else {
                assert(all[k] == rest[k - 1]);
                assert(tail.contains(rest[k - 1]));
                let m = tail.index_of(rest[k - 1]);
                assert(listed[m + 1] == rest[k - 1]);
            }
        }
        assert forall|k: int, m: int| 0 <= k < m < all.len() implies (#[trigger] all[k]).thread_id
            != (#[trigger] all[m]).thread_id by {
            if !has_id(tail, listed[0].thread_id) {
                assert(all[m] == rest[m - 1]);
                if k == 0 {
                    assert(!has_id(rest, listed[0].thread_id));
                } else {
                    assert(all[k] == rest[k - 1]);
                }
            }
        }
        assert forall|id: Seq<char>| has_id(all, id) == has_id(listed, id) by {
            assert(has_id(rest, id) == has_id(tail, id));
            if has_id(listed, id) {
                let i = choose|i: int| 0 <= i < listed.len() && (#[trigger] listed[i]).thread_id == id;
                if i > 0 {
                    assert(tail[i - 1].thread_id == id);
                    assert(has_id(tail, id));
                    let k = choose|k: int| 0 <= k < rest.len() && (#[trigger] rest[k]).thread_id == id;
                    assert(all[k] == rest[k] || all[k + 1] == rest[k]);
                } else if has_id(tail, id) {
                    let k = choose|k: int| 0 <= k < rest.len() && (#[trigger] rest[k]).thread_id == id;
                    assert(all[k] == rest[k]);
                } else {
                    assert(all[0] == listed[0]);
                }
            }
            if has_id(all, id) {
                let k = choose|k: int| 0 <= k < all.len() && (#[trigger] all[k]).thread_id == id;
                assert(listed.contains(all[k]));
                let i = listed.index_of(all[k]);
                assert(listed[i].thread_id == id);
            }
        }
    }
}

/// `spawned` only repeats candidates.
pub proof fn lemma_spawned(candidates: Seq<ThreadInfo>, listed: Seq<ThreadInfo>, parent: Seq<char>)
    ensures
        forall|k: int|
            0 <= k < spawned(candidates, listed, parent).len() ==> candidates.contains(
                #[trigger] spawned(candidates, listed, parent)[k],
            ),
    decreases candidates.len(),
{
    if candidates.len() > 0 {
        let rest = candidates.drop_last();
        lemma_spawned(rest, listed, parent);
        let all = spawned(candidates, listed, parent);
        let some = spawned(rest, listed, parent);
        assert forall|k: int| 0 <= k < all.len() implies candidates.contains(#[trigger] all[k]) by {
            if k < some.len() {
                assert(rest.contains(some[k]));
                let m = rest.index_of(some[k]);
                assert(candidates[m] == all[k]);
            } else {
                assert(candidates[candidates.len() - 1] == all[k]);
            }
        }
    }
}

/// A thread unfolds to one tree at most.
pub proof fn lemma_unfolds_unique(a: Tree, b: Tree, listed: Seq<ThreadInfo>)
    requires
        a.thread == b.thread,
        unfolds(a, listed),
        unfolds(b, listed),
    ensures
        a == b,
    decreases a,
{
    assert forall|i: int| 0 <= i < a.children.len() implies a.children[i] == b.children[i] by {
        lemma_unfolds_unique(a.children[i], b.children[i], listed);
    }
    assert(a.children =~= b.children);
}

/// A tree is no deeper than there are ids: below a thread, the thread itself
/// cannot occur again.
proof fn lemma_within(tree: Tree, above: Seq<Tree>, listed: Seq<ThreadInfo>)
    requires
        unfolds(tree, listed),
        latest(listed).contains(tree.thread),
        forall|k: int|
            0 <= k < above.len() ==> {
                &&& unfolds(#[trigger] above[k], listed)
                &&& latest(listed).contains(above[k].thread)
                &&& size(above[k]) > size(tree)
            },
        forall|k: int, m: int|
            0 <= k < m < above.len() ==> (#[trigger] above[k]).thread.thread_id != (
            #[trigger] above[m]).thread.thread_id,
    ensures
        above.len() < latest(listed).len(),
        within(tree, (latest(listed).len() - above.len()) as nat),
    decreases tree,
{
    let known = latest(listed);
    lemma_latest(listed);
    let id = tree.thread.thread_id;
    let path = above.push(tree);
    assert forall|k: int| 0 <= k < above.len() implies (#[trigger] above[k]).thread.thread_id
        != id by {
        if above[k].thread.thread_id == id {
            let x = known.index_of(above[k].thread);
            let y = known.index_of(tree.thread);
            assert(known[x].thread_id == known[y].thread_id);
            assert(x == y);
            lemma_unfolds_unique(above[k], tree, listed);
        }
    }
    let ids = path.map_values(|t: Tree| t.thread.thread_id);
    let known_ids = known.map_values(|t: ThreadInfo| t.thread_id);
    assert(ids.no_duplicates());
    assert forall|x: Seq<char>| ids.to_set().contains(x) implies known_ids.to_set().contains(x) by {
        let k = ids.index_of(x);
        assert(ids.contains(x));
        assert(known.contains(path[k].thread));
        let m = known.index_of(path[k].thread);
        assert(known_ids[m] == x);
    }
    ids.unique_seq_to_set();
    known_ids.lemma_cardinality_of_set();
    vstd::seq_lib::seq_to_set_is_finite(known_ids);
    vstd::set_lib::lemma_len_subset(ids.to_set(), known_ids.to_set());
    lemma_spawned(known, listed, id);
    assert forall|i: int| 0 <= i < tree.children.len() implies within(
        #[trigger] tree.children[i],
        (known.len() - above.len() - 1) as nat,
    ) by {
        let child = tree.children[i];
        lemma_sizes(tree.children, i);
        assert(child.thread == spawned(known, listed, id)[i]);
        assert forall|k: int, m: int| 0 <= k < m < path.len() implies (
        #[trigger] path[k]).thread.thread_id != (#[trigger] path[m]).thread.thread_id by {
            if m < above.len() {
                assert(path[m] == above[m]);
            }
        }
        lemma_within(child, path, listed);
    }
}

/// The positions in `threads` of the last thread of each id.
fn latest_positions(threads: &Vec<ThreadStatusView>) -> (positions: Vec<usize>)
    ensures
        forall|k: int| 0 <= k < positions@.len() ==> #[trigger] positions@[k] < threads@.len(),
        positions@.map_values(|p: usize| threads@[p as int].deep_view()) == latest(
            threads.deep_view(),
        ),
{
    let ghost listed = threads.deep_view();
    let mut positions: Vec<usize> = Vec::new();
    let mut i: usize = threads.len();
    proof {
        assert(listed.skip(i as int) =~= Seq::empty());
        assert(positions@.map_values(|p: usize| threads@[p as int].deep_view()) =~= latest(
            listed.skip(i as int),
        ));
    }
    while i > 0
        invariant
            i <= threads@.len(),
            listed == threads.deep_view(),
            forall|k: int| 0 <= k < positions@.len() ==> #[trigger] positions@[k] < threads@.len(),
            positions@.map_values(|p: usize| threads@[p as int].deep_view()) == latest(
                listed.skip(i as int),
            ),
        decreases i,
    {
        i -= 1;
        let ghost tail = listed.skip(i + 1);
        let mut j: usize = i + 1;
        let mut superseded = false;
        while j < threads.len()
            invariant
                i < j <= threads@.len(),
                listed == threads.deep_view(),
                tail == listed.skip(i + 1),
                superseded == (exists|k: int|
                    0 <= k < j - i - 1 && (#[trigger] tail[k]).thread_id == listed[i as int].thread_id),
            decreases threads@.len() - j,
        {
            proof {
                assert(tail[j - i - 1] == listed[j as int]);
            }
            if same_text(threads[j].thread_id.as_str(), threads[i].thread_id.as_str()) {
                superseded = true;
            }
            j += 1;
        }
        proof {
            assert(listed.skip(i as int).drop_first() =~= tail);
            assert(superseded == has_id(tail, listed[i as int].thread_id));
        }
        if !superseded {
            let ghost before = positions@;
            positions.insert(0, i);
            proof {
                let to_thread = |p: usize| threads@[p as int].deep_view();
                assert(positions@ =~= seq![i] + before);
                assert(positions@.map_values(to_thread) =~= seq![listed[i as int]]
                    + before.map_values(to_thread));
            }
        }
    }
    proof {
        assert(listed.skip(0) =~= listed);
    }
    positions
}

/// How often `threads` says that `parent` spawned `child`.
fn count_links(threads: &Vec<ThreadStatusView>, parent: &str, child: &str) -> (count: usize)
    ensures
        count == links(threads.deep_view(), parent@, child@),
{
    let ghost listed = threads.deep_view();
    let mut count: usize = 0;
    let mut i: usize = 0;
    while i < threads.len()
        invariant
            i <= threads@.len(),
            listed == threads.deep_view(),
            count <= i,
            count == links(listed.take(i as int), parent@, child@),
        decreases threads@.len() - i,
    {
        let is_link = match &threads[i].parent_thread_id {
            Some(spawner) => same_text(spawner.as_str(), parent) && same_text(
                threads[i].thread_id.as_str(),
                child,
            ),
            None => false,
        };
        if is_link {
            count += 1;
        }
        i += 1;
        proof {
            assert(listed.take(i as int).drop_last() =~= listed.take(i - 1));
            assert(listed.take(i as int).last() == threads@[i - 1].deep_view());
        }
    }
    proof {
        assert(listed.take(i as int) =~= listed);
    }
    count
}

/// The positions in `threads` of what hangs below the thread `id`.
fn child_positions(
    threads: &Vec<ThreadStatusView>,
    positions: &Vec<usize>,
    id: &str,
) -> (children: Vec<usize>)
    requires
        forall|k: int| 0 <= k < positions@.len() ==> #[trigger] positions@[k] < threads@.len(),
    ensures
        forall|k: int| 0 <= k < children@.len() ==> #[trigger] children@[k] < threads@.len(),
        children@.map_values(|p: usize| threads@[p as int].deep_view()) == spawned(
            positions@.map_values(|p: usize| threads@[p as int].deep_view()),
            threads.deep_view(),
            id@,
        ),
{
    let ghost listed = threads.deep_view();
    let ghost to_thread = |p: usize| threads@[p as int].deep_view();
    let ghost known = positions@.map_values(to_thread);
    let mut children: Vec<usize> = Vec::new();
    let mut i: usize = 0;
    proof {
        assert(children@.map_values(to_thread) =~= spawned(known.take(0), listed, id@));
    }
    while i < positions.len()
        invariant
            i <= positions@.len(),
            listed == threads.deep_view(),
            to_thread == (|p: usize| threads@[p as int].deep_view()),
            known == positions@.map_values(to_thread),
            forall|k: int| 0 <= k < positions@.len() ==> #[trigger] positions@[k] < threads@.len(),
            forall|k: int| 0 <= k < children@.len() ==> #[trigger] children@[k] < threads@.len(),
            children@.map_values(to_thread) == spawned(known.take(i as int), listed, id@),
        decreases positions@.len() - i,
    {
        let p: usize = positions[i];
        let count = count_links(threads, id, threads[p].thread_id.as_str());
        let ghost before = children@.map_values(to_thread);
        let ghost thread = known[i as int];
        let mut n: usize = 0;
        proof {
            assert(before + Seq::new(0, |k: int| thread) =~= before);
        }
        while n < count
            invariant
                n <= count,
                p < threads@.len(),
                to_thread == (|p: usize| threads@[p as int].deep_view()),
                thread == to_thread(p),
                forall|k: int| 0 <= k < children@.len() ==> #[trigger] children@[k] < threads@.len(),
                children@.map_values(to_thread) == before + Seq::new(n as nat, |k: int| thread),
            decreases count - n,
        {
            let ghost old_children = children@;
            children.push(p);
            n += 1;
            proof {
                old_children.lemma_push_map_commute(to_thread, p);
                assert(children@.map_values(to_thread) =~= before + Seq::new(
                    n as nat,
                    |k: int| thread,
                ));
            }
        }
        i += 1;
        proof {
            assert(known.take(i as int).drop_last() =~= known.take(i - 1));
            assert(known.take(i as int).last() == thread);
        }
    }
    proof {
        assert(known.take(i as int) =~= known);
    }
    children
}

/// The node of `threads[at]` with everything that hangs below it, or `None`
/// where that is more than `depth` levels deep.
fn build_agent_tree_node(
    at: usize,
    threads: &Vec<ThreadStatusView>,
    positions: &Vec<usize>,
    depth: usize,
) -> (node: Option<AgentTreeNode>)
    requires
        at < threads@.len(),
        forall|k: int| 0 <= k < positions@.len() ==> #[trigger] positions@[k] < threads@.len(),
        positions@.map_values(|p: usize| threads@[p as int].deep_view()) == latest(
            threads.deep_view(),
        ),
    ensures
        match node {
            Some(node) => node.tree().thread == threads@[at as int].deep_view() && unfolds(
                node.tree(),
                threads.deep_view(),
            ),
            None => forall|tree: Tree|
                tree.thread == threads@[at as int].deep_view() && #[trigger] unfolds(
                    tree,
                    threads.deep_view(),
                ) ==> !within(tree, depth as nat),
        },
    decreases depth,
{
    if depth == 0 {
        return None;
    }
    let thread = &threads[at];
    let below = child_positions(threads, positions, thread.thread_id.as_str());
    let ghost listed = threads.deep_view();
    let ghost expected = children_of(listed, thread.thread_id@);
    proof {
        assert(below@.map_values(|p: usize| threads@[p as int].deep_view()) == expected);
        assert(below@.len() == expected.len());
    }
    let mut children: Vec<AgentTreeNode> = Vec::new();
    let mut i: usize = 0;
    while i < below.len()
        invariant
            i <= below@.len(),
            at < threads@.len(),
            depth > 0,
            listed == threads.deep_view(),
            expected == children_of(listed, threads@[at as int].thread_id@),
            below@.map_values(|p: usize| threads@[p as int].deep_view()) == expected,
            forall|k: int| 0 <= k < below@.len() ==> #[trigger] below@[k] < threads@.len(),
            forall|k: int| 0 <= k < positions@.len() ==> #[trigger] positions@[k] < threads@.len(),
            positions@.map_values(|p: usize| threads@[p as int].deep_view()) == latest(listed),
            children@.len() == i,
            forall|k: int|
                0 <= k < i ==> (#[trigger] children@[k]).tree().thread == expected[k] && unfolds(
                    children@[k].tree(),
                    listed,
                ),
        decreases below@.len() - i,
    {
        proof {
            assert(expected[i as int] == threads@[below@[i as int] as int].deep_view());
        }
        match build_agent_tree_node(below[i], threads, positions, depth - 1) {
            Some(child) => {
                children.push(child);
            },
            None => {
                proof {
                    assert forall|tree: Tree|
                        tree.thread == threads@[at as int].deep_view() && #[trigger] unfolds(
                            tree,
                            listed,
                        ) implies !within(tree, depth as nat) by {
                        let child = tree.children[i as int];
                        assert(child.thread == expected[i as int]);
                        assert(unfolds(child, listed));
                        assert(!within(child, (depth - 1) as nat));
                    }
                }
                return None;
            },
        }
        i += 1;
    }
    let node = AgentTreeNode {
        thread_id: thread.thread_id.clone(),
        session_id: copy_opt(&thread.session_id),
        parent_thread_id: copy_opt(&thread.parent_thread_id),
        status: thread.status.clone(),
        active_flags: copy_texts(&thread.active_flags),
        cwd: copy_opt(&thread.cwd),
        path: copy_opt(&thread.path),
        agent_path: copy_opt(&thread.agent_path),
        task_name: copy_opt(&thread.task_name),
        agent_type: copy_opt(&thread.agent_type),
        agent_nickname: copy_opt(&thread.agent_nickname),
        summary: copy_opt(&thread.summary),
        children,
    };
    proof {
        let tree = node.tree();
        assert forall|k: int| 0 <= k < tree.children.len() implies (
        #[trigger] tree.children[k]).thread == expected[k] && unfolds(tree.children[k], listed) by {
            assert(tree.children[k] == children@[k].tree());
        }
    }
    Some(node)
}

/// Gives the main thread its path and its task name.
fn name_roots(threads: Vec<ThreadStatusView>) -> (named: Vec<ThreadStatusView>)
    ensures
        named.deep_view() == threads.deep_view().map_values(|t: ThreadInfo| with_root_name(t)),
{
    let ghost all = threads.deep_view();
    let mut named: Vec<ThreadStatusView> = Vec::new();
    for thread in it: threads
        invariant
            it.seq() == threads@,
            all == threads.deep_view(),
            named@.len() == it.index(),
            forall|k: int|
                0 <= k < it.index() ==> (#[trigger] named@[k]).deep_view() == with_root_name(all[k]),
    {
        let mut thread = thread;
        if thread.agent_path.is_none() && thread.parent_thread_id.is_none() {
            thread.agent_path = Some(ROOT_AGENT_PATH.to_string());
            thread.task_name = Some(ROOT_TASK_NAME.to_string());
        }
        named.push(thread);
    }
    proof {
        assert(named.deep_view() =~= all.map_values(|t: ThreadInfo| with_root_name(t)));
    }
    named
}

/// The tree of `threads`, or `None` where a thread hangs below itself, which
/// only a thread that is listed more than once can do.
pub fn try_build_agent_tree(threads: Vec<ThreadStatusView>) -> (tree: Option<AgentTreeResponse>)
    ensures
        match tree {
            Some(tree) => is_agent_tree(tree.deep_view(), threads.deep_view()),
            None => !has_agent_tree(threads.deep_view()),
        },
{
    let ghost given = threads.deep_view();
    let sorted = stable_sort(name_roots(threads));
    let positions = latest_positions(&sorted);
    let ghost listed = listing(given);
    let ghost to_thread = |p: usize| sorted@[p as int].deep_view();
    let ghost parentless = |t: ThreadInfo| t.parent_thread_id is None;
    let ghost known = latest(listed);
    proof {
        assert(sorted.deep_view() == listed);
        assert(positions@.map_values(to_thread) == known);
    }
    let mut roots: Vec<AgentTreeNode> = Vec::new();
    let mut i: usize = 0;
    proof {
        assert(known.take(0).filter(parentless) =~= Seq::empty()) by {
            reveal(Seq::filter);
        }
    }
    while i < positions.len()
        invariant
            i <= positions@.len(),
            listed == sorted.deep_view(),
            given == threads.deep_view(),
            listed == listing(given),
            known == latest(listed),
            to_thread == (|p: usize| sorted@[p as int].deep_view()),
            parentless == (|t: ThreadInfo| t.parent_thread_id is None),
            positions@.map_values(to_thread) == known,
            forall|k: int| 0 <= k < positions@.len() ==> #[trigger] positions@[k] < sorted@.len(),
            roots@.len() == known.take(i as int).filter(parentless).len(),
            forall|k: int|
                0 <= k < roots@.len() ==> (#[trigger] roots@[k]).tree().thread == known.take(
                    i as int,
                ).filter(parentless)[k] && unfolds(roots@[k].tree(), listed),
        decreases positions@.len() - i,
    {
        let p: usize = positions[i];
        proof {
            assert(known[i as int] == to_thread(p));
            assert(known.take(i + 1) =~= known.take(i as int).push(known[i as int]));
            known.take(i as int).lemma_filter_push(known[i as int], parentless);
        }
        if sorted[p].parent_thread_id.is_none() {
            match build_agent_tree_node(p, &sorted, &positions, positions.len()) {
                Some(node) => {
                    roots.push(node);
                },
                None => {
                    proof {
                        if has_agent_tree(given) {
                            let forest = choose|forest: Seq<Tree>| is_agent_tree(forest, given);
                            let at = known.take(i as int).filter(parentless).len() as int;
                            assert(known =~= known.take(i + 1) + known.skip(i + 1));
                            Seq::filter_distributes_over_add(
                                known.take(i + 1),
                                known.skip(i + 1),
                                parentless,
                            );
                            assert(roots_of(listed)[at] == known[i as int]);
                            assert(forest[at].thread == known[i as int]);
                            lemma_within(forest[at], Seq::empty(), listed);
                        }
                    }
                    return None;
                },
            }
        }
        i += 1;
    }
    let tree = AgentTreeResponse { roots };
    proof {
        assert(known.take(i as int) =~= known);
        assert forall|k: int| 0 <= k < tree.deep_view().len() implies (
        #[trigger] tree.deep_view()[k]).thread == roots_of(listed)[k] && unfolds(
            tree.deep_view()[k],
            listed,
        ) by {
            assert(tree.deep_view()[k] == roots@[k].tree());
        }
    }
    Some(tree)
}

/// The tree of `threads`: the threads that nothing spawned, by agent path and
/// id, each with the threads below it in the same order.
pub fn build_agent_tree_from_threads(threads: Vec<ThreadStatusView>) -> (tree: AgentTreeResponse)
    requires
        has_agent_tree(threads.deep_view()),
    ensures
        is_agent_tree(tree.deep_view(), threads.deep_view()),
{
    try_build_agent_tree(threads).unwrap()
}

} // verus!
