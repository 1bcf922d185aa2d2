//! What the agent tree holds of threads with distinct ids.

use vstd::prelude::*;

use crate::agent_tree::{
    children_of, has_agent_tree, has_id, is_agent_tree, latest, lemma_unfolds_unique, links,
    listing, roots_of, spawned, try_build_agent_tree, unfolds, with_root_name, AgentTreeResponse,
    ThreadInfo, ThreadStatusView, Tree,
};
use crate::order::{
    in_order, lemma_order_unique, lemma_ordered, lemma_ordered_contains, same_rank,
    strictly_ranked,
};
use crate::text::{lemma_lex_less, lemma_opt_lex_less, lex_less, opt_lex_less};

verus! {

/// No two threads share an id.
pub open spec fn distinct_ids(threads: Seq<ThreadInfo>) -> bool {
    forall|i: int, j: int|
        0 <= i < j < threads.len() ==> (#[trigger] threads[i]).thread_id != (
        #[trigger] threads[j]).thread_id
}

/// The threads of `trees`, each before what hangs below it.
pub open spec fn preorder(trees: Seq<Tree>) -> Seq<ThreadInfo>
    decreases trees,
{
    if trees.len() == 0 {
        Seq::empty()
    } else {
        preorder(trees.drop_last()) + seq![trees.last().thread] + preorder(trees.last().children)
    }
}

/// Whether `chain` leads from a thread that nothing spawned to its last thread,
/// each thread spawned by the one before.
pub open spec fn is_spawn_chain(chain: Seq<ThreadInfo>, listed: Seq<ThreadInfo>) -> bool {
    &&& chain.len() > 0
    &&& chain[0].parent_thread_id is None
    &&& forall|k: int| 0 <= k < chain.len() ==> listed.contains(#[trigger] chain[k])
    &&& forall|k: int|
        0 < k < chain.len() ==> (#[trigger] chain[k]).parent_thread_id == Some(
            chain[k - 1].thread_id,
        )
}

/// `preorder` with, in place of each thread, the threads that lead to it.
spec fn chains(trees: Seq<Tree>, above: Seq<ThreadInfo>) -> Seq<Seq<ThreadInfo>>
    decreases trees,
{
    if trees.len() == 0 {
        Seq::empty()
    } else {
        let last = trees.last();
        chains(trees.drop_last(), above) + seq![above.push(last.thread)] + chains(
            last.children,
            above.push(last.thread),
        )
    }
}

/// There is one agent tree at most.
pub proof fn lemma_agent_tree_unique(a: Seq<Tree>, b: Seq<Tree>, threads: Seq<ThreadInfo>)
    requires
        is_agent_tree(a, threads),
        is_agent_tree(b, threads),
    ensures
        a == b,
{
    assert forall|i: int| 0 <= i < a.len() implies a[i] == b[i] by {
        lemma_unfolds_unique(a[i], b[i], listing(threads));
    }
    assert(a =~= b);
}

/// Sorting keeps ids distinct.
proof fn lemma_listing_distinct(threads: Seq<ThreadInfo>)
    requires
        distinct_ids(threads),
    ensures
        distinct_ids(listing(threads)),
{
    broadcast use vstd::seq_lib::group_to_multiset_ensures;

    let named = threads.map_values(|t: ThreadInfo| with_root_name(t));
    let listed = listing(threads);
    lemma_ordered::<ThreadStatusView>(named, arbitrary());
    assert(named.no_duplicates()) by {
        assert forall|i: int, j: int| 0 <= i < named.len() && 0 <= j < named.len() && i != j implies
            named[i] != named[j] by {
            assert(named[i].thread_id == threads[i].thread_id);
            assert(named[j].thread_id == threads[j].thread_id);
        }
    }
    named.lemma_multiset_has_no_duplicates();
    listed.lemma_multiset_has_no_duplicates_conv();
    assert forall|i: int, j: int| 0 <= i < j < listed.len() implies (
    #[trigger] listed[i]).thread_id != (#[trigger] listed[j]).thread_id by {
        lemma_ordered_contains::<ThreadStatusView>(named, listed[i]);
        lemma_ordered_contains::<ThreadStatusView>(named, listed[j]);
        assert(listed.contains(listed[i]) && listed.contains(listed[j]));
        let a = named.index_of(listed[i]);
        let b = named.index_of(listed[j]);
        assert(named[a].thread_id == threads[a].thread_id);
        assert(named[b].thread_id == threads[b].thread_id);
        assert(a != b);
    }
}

proof fn lemma_latest_distinct(listed: Seq<ThreadInfo>)
    requires
        distinct_ids(listed),
    ensures
        latest(listed) == listed,
    decreases listed.len(),
{
    if listed.len() > 0 {
        let tail = listed.drop_first();
        assert forall|i: int, j: int| 0 <= i < j < tail.len() implies (
        #[trigger] tail[i]).thread_id != (#[trigger] tail[j]).thread_id by {
            assert(tail[i] == listed[i + 1] && tail[j] == listed[j + 1]);
        }
        lemma_latest_distinct(tail);
        assert(!has_id(tail, listed[0].thread_id)) by {
            assert forall|i: int| 0 <= i < tail.len() implies (#[trigger] tail[i]).thread_id
                != listed[0].thread_id by {
                assert(tail[i] == listed[i + 1]);
            }
        }
        assert(seq![listed[0]] + tail =~= listed);
    } else {
        assert(latest(listed) =~= listed);
    }
}

proof fn lemma_links_distinct(listed: Seq<ThreadInfo>, parent: Seq<char>, at: int, n: int)
    requires
        distinct_ids(listed),
        0 <= at < listed.len(),
        0 <= n <= listed.len(),
    ensures
        links(listed.take(n), parent, listed[at].thread_id) == if at < n
            && listed[at].parent_thread_id == Some(parent) {
            1nat
        } else {
            0nat
        },
    decreases n,
{
    if n > 0 {
        lemma_links_distinct(listed, parent, at, n - 1);
        assert(listed.take(n).drop_last() =~= listed.take(n - 1));
        assert(listed.take(n).last() == listed[n - 1]);
    }
}

proof fn lemma_spawned_distinct(listed: Seq<ThreadInfo>, parent: Seq<char>, n: int)
    requires
        distinct_ids(listed),
        0 <= n <= listed.len(),
    ensures
        spawned(listed.take(n), listed, parent) == listed.take(n).filter(
            |t: ThreadInfo| t.parent_thread_id == Some(parent),
        ),
    decreases n,
{
    let pred = |t: ThreadInfo| t.parent_thread_id == Some(parent);
    if n > 0 {
        let last = listed[n - 1];
        lemma_spawned_distinct(listed, parent, n - 1);
        lemma_links_distinct(listed, parent, n - 1, listed.len() as int);
        assert(listed.take(listed.len() as int) =~= listed);
        assert(listed.take(n).drop_last() =~= listed.take(n - 1));
        assert(listed.take(n - 1).push(last) =~= listed.take(n));
        listed.take(n - 1).lemma_filter_push(last, pred);
        let before = spawned(listed.take(n - 1), listed, parent);
        assert(before + Seq::new(1, |i: int| last) =~= before.push(last));
        assert(before + Seq::new(0, |i: int| last) =~= before);
    } else {
        assert(listed.take(0).filter(pred) =~= Seq::empty()) by {
            reveal(Seq::filter);
        }
        assert(listed.take(0) =~= Seq::empty());
    }
}

/// Where ids are distinct, the roots are the threads that nothing spawned, and
/// what hangs below a thread are the threads that it spawned, in the order of
/// the listing.
pub proof fn lemma_links_are_parents(threads: Seq<ThreadInfo>, id: Seq<char>)
    requires
        distinct_ids(threads),
    ensures
        roots_of(listing(threads)) == listing(threads).filter(
            |t: ThreadInfo| t.parent_thread_id is None,
        ),
        children_of(listing(threads), id) == listing(threads).filter(
            |t: ThreadInfo| t.parent_thread_id == Some(id),
        ),
        in_order::<ThreadStatusView>(listing(threads)),
{
    let listed = listing(threads);
    lemma_listing_distinct(threads);
    lemma_latest_distinct(listed);
    lemma_spawned_distinct(listed, id, listed.len() as int);
    assert(listed.take(listed.len() as int) =~= listed);
    lemma_ordered::<ThreadStatusView>(
        threads.map_values(|t: ThreadInfo| with_root_name(t)),
        arbitrary(),
    );
}

proof fn lemma_child_of_filter(listed: Seq<ThreadInfo>, id: Seq<char>, x: ThreadInfo)
    requires
        distinct_ids(listed),
    ensures
        children_of(listed, id).contains(x) == (listed.contains(x) && x.parent_thread_id == Some(
            id,
        )),
        children_of(listed, id).no_duplicates(),
{
    let pred = |t: ThreadInfo| t.parent_thread_id == Some(id);
    lemma_latest_distinct(listed);
    lemma_spawned_distinct(listed, id, listed.len() as int);
    assert(listed.take(listed.len() as int) =~= listed);
    lemma_filter_no_duplicates(listed, pred);
    lemma_filter_contains(listed, pred, x);
}

proof fn lemma_filter_contains(s: Seq<ThreadInfo>, pred: spec_fn(ThreadInfo) -> bool, x: ThreadInfo)
    ensures
        s.filter(pred).contains(x) == (s.contains(x) && pred(x)),
{
    broadcast use vstd::seq_lib::group_filter_ensures;

    if s.filter(pred).contains(x) {
        let i = s.filter(pred).index_of(x);
        assert(pred(s.filter(pred)[i]));
        s.lemma_filter_contains_rev(pred, x);
    }
    if s.contains(x) && pred(x) {
        let i = s.index_of(x);
        assert(s.filter(pred).contains(s[i]));
    }
}

proof fn lemma_filter_no_duplicates(s: Seq<ThreadInfo>, pred: spec_fn(ThreadInfo) -> bool)
    requires
        distinct_ids(s),
    ensures
        s.filter(pred).no_duplicates(),
    decreases s.len(),
{
    if s.len() == 0 {
        reveal(Seq::filter);
    } else {
        let rest = s.drop_last();
        assert(distinct_ids(rest)) by {
            assert forall|i: int, j: int| 0 <= i < j < rest.len() implies (
            #[trigger] rest[i]).thread_id != (#[trigger] rest[j]).thread_id by {
                assert(rest[i] == s[i] && rest[j] == s[j]);
            }
        }
        lemma_filter_no_duplicates(rest, pred);
        rest.lemma_filter_push(s.last(), pred);
        assert(rest.push(s.last()) =~= s);
        lemma_filter_contains(rest, pred, s.last());
        assert(!rest.contains(s.last())) by {
            if rest.contains(s.last()) {
                let i = rest.index_of(s.last());
                assert(s[i].thread_id == s[s.len() - 1].thread_id);
            }
        }
    }
}

/// Two chains to the same thread are the same chain.
proof fn lemma_chain_unique(a: Seq<ThreadInfo>, b: Seq<ThreadInfo>, listed: Seq<ThreadInfo>)
    requires
        distinct_ids(listed),
        is_spawn_chain(a, listed),
        is_spawn_chain(b, listed),
        a.last() == b.last(),
    ensures
        a == b,
    decreases a.len(),
{
    if a.len() > 1 && b.len() > 1 {
        let x = a[a.len() - 2];
        let y = b[b.len() - 2];
        assert(a[a.len() - 1].parent_thread_id == Some(x.thread_id));
        assert(b[b.len() - 1].parent_thread_id == Some(y.thread_id));
        assert(listed.contains(x) && listed.contains(y));
        let i = listed.index_of(x);
        let j = listed.index_of(y);
        assert(listed[i].thread_id == listed[j].thread_id);
        assert(i == j);
        let c = a.drop_last();
        let d = b.drop_last();
        assert(is_spawn_chain(c, listed)) by {
            assert forall|k: int| 0 <= k < c.len() implies listed.contains(#[trigger] c[k]) by {
                assert(c[k] == a[k]);
            }
            assert forall|k: int| 0 < k < c.len() implies (#[trigger] c[k]).parent_thread_id
                == Some(c[k - 1].thread_id) by {
                assert(c[k] == a[k]);
            }
        }
        assert(is_spawn_chain(d, listed)) by {
            assert forall|k: int| 0 <= k < d.len() implies listed.contains(#[trigger] d[k]) by {
                assert(d[k] == b[k]);
            }
            assert forall|k: int| 0 < k < d.len() implies (#[trigger] d[k]).parent_thread_id
                == Some(d[k - 1].thread_id) by {
                assert(d[k] == b[k]);
            }
        }
        lemma_chain_unique(c, d, listed);
        assert(a =~= c.push(a.last()));
        assert(b =~= d.push(b.last()));
    } else {
        if a.len() > 1 {
            assert(a[a.len() - 1].parent_thread_id == Some(a[a.len() - 2].thread_id));
        }
        if b.len() > 1 {
            assert(b[b.len() - 1].parent_thread_id == Some(b[b.len() - 2].thread_id));
        }
        assert(a =~= b);
    }
}

/// A chain visits each thread once.
proof fn lemma_chain_distinct(chain: Seq<ThreadInfo>, listed: Seq<ThreadInfo>)
    requires
        distinct_ids(listed),
        is_spawn_chain(chain, listed),
    ensures
        chain.no_duplicates(),
        chain.len() <= listed.len(),
{
    assert forall|i: int, j: int| 0 <= i < chain.len() && 0 <= j < chain.len() && i != j implies
        chain[i] != chain[j] by {
        if chain[i] == chain[j] {
            let a = chain.take(i + 1);
            let b = chain.take(j + 1);
            assert(is_spawn_chain(a, listed)) by {
                assert forall|k: int| 0 <= k < a.len() implies listed.contains(#[trigger] a[k]) by {
                    assert(a[k] == chain[k]);
                }
                assert forall|k: int| 0 < k < a.len() implies (#[trigger] a[k]).parent_thread_id
                    == Some(a[k - 1].thread_id) by {
                    assert(a[k] == chain[k]);
                }
            }
            assert(is_spawn_chain(b, listed)) by {
                assert forall|k: int| 0 <= k < b.len() implies listed.contains(#[trigger] b[k]) by {
                    assert(b[k] == chain[k]);
                }
                assert forall|k: int| 0 < k < b.len() implies (#[trigger] b[k]).parent_thread_id
                    == Some(b[k - 1].thread_id) by {
                    assert(b[k] == chain[k]);
                }
            }
            lemma_chain_unique(a, b, listed);
            assert(a.len() == b.len());
        }
    }
    assert forall|x: ThreadInfo| chain.to_set().contains(x) implies listed.to_set().contains(x) by {
        let k = chain.index_of(x);
        assert(chain.contains(x));
        assert(listed.contains(chain[k]));
    }
    chain.unique_seq_to_set();
    listed.lemma_cardinality_of_set();
    vstd::seq_lib::seq_to_set_is_finite(listed);
    vstd::set_lib::lemma_len_subset(chain.to_set(), listed.to_set());
}

/// Whether a tree of `thread` unfolds.
spec fn has_unfolding(thread: ThreadInfo, listed: Seq<ThreadInfo>) -> bool {
    exists|t: Tree| t.thread == thread && #[trigger] unfolds(t, listed)
}

/// The tree of `thread` that unfolds.
spec fn unfolding(thread: ThreadInfo, listed: Seq<ThreadInfo>) -> Tree {
    choose|t: Tree| t.thread == thread && #[trigger] unfolds(t, listed)
}

/// The last thread of a chain unfolds.
proof fn lemma_chain_unfolds(chain: Seq<ThreadInfo>, listed: Seq<ThreadInfo>) -> (tree: Tree)
    requires
        distinct_ids(listed),
        is_spawn_chain(chain, listed),
    ensures
        tree.thread == chain.last(),
        unfolds(tree, listed),
    decreases listed.len() - chain.len(),
{
    let below = children_of(listed, chain.last().thread_id);
    lemma_chain_distinct(chain, listed);
    assert forall|i: int| 0 <= i < below.len() implies has_unfolding(
        #[trigger] below[i],
        listed,
    ) by {
        let longer = chain.push(below[i]);
        lemma_child_of_filter(listed, chain.last().thread_id, below[i]);
        assert(below.contains(below[i]));
        assert(is_spawn_chain(longer, listed)) by {
            assert forall|k: int| 0 <= k < longer.len() implies listed.contains(
                #[trigger] longer[k],
            ) by {
                if k < chain.len() {
                    assert(longer[k] == chain[k]);
                }
            }
            assert forall|k: int| 0 < k < longer.len() implies (#[trigger] longer[k]).parent_thread_id
                == Some(longer[k - 1].thread_id) by {
                if k < chain.len() {
                    assert(longer[k] == chain[k]);
                }
            }
        }
        lemma_chain_distinct(longer, listed);
        let t = lemma_chain_unfolds(longer, listed);
        assert(t.thread == below[i] && unfolds(t, listed));
    }
    let children = Seq::new(below.len(), |i: int| unfolding(below[i], listed));
    let tree = Tree { thread: chain.last(), children };
    assert forall|i: int| 0 <= i < tree.children.len() implies (#[trigger] tree.children[i]).thread
        == below[i] && unfolds(tree.children[i], listed) by {
        assert(has_unfolding(below[i], listed));
    }
    tree
}

/// Threads with distinct ids have an agent tree.
pub proof fn lemma_distinct_ids_have_agent_tree(threads: Seq<ThreadInfo>)
    requires
        distinct_ids(threads),
    ensures
        has_agent_tree(threads),
{
    let listed = listing(threads);
    let roots = roots_of(listed);
    let parentless = |t: ThreadInfo| t.parent_thread_id is None;
    lemma_listing_distinct(threads);
    lemma_latest_distinct(listed);
    assert forall|i: int| 0 <= i < roots.len() implies has_unfolding(
        #[trigger] roots[i],
        listed,
    ) by {
        lemma_filter_contains(listed, parentless, roots[i]);
        assert(roots.contains(roots[i]));
        let chain = seq![roots[i]];
        assert(is_spawn_chain(chain, listed));
        let t = lemma_chain_unfolds(chain, listed);
        assert(t.thread == roots[i] && unfolds(t, listed));
    }
    let forest = Seq::new(roots.len(), |i: int| unfolding(roots[i], listed));
    assert(is_agent_tree(forest, threads)) by {
        assert forall|i: int| 0 <= i < forest.len() implies (#[trigger] forest[i]).thread
            == roots[i] && unfolds(forest[i], listed) by {
            assert(has_unfolding(roots[i], listed));
        }
    }
}

/// Each chain of `chains` extends `above`, ends in the thread of the same
/// position in `preorder` and is a spawn chain, and no chain occurs twice.
proof fn lemma_chains(trees: Seq<Tree>, above: Seq<ThreadInfo>, listed: Seq<ThreadInfo>)
    requires
        distinct_ids(listed),
        above.len() > 0 ==> is_spawn_chain(above, listed),
        forall|i: int|
            0 <= i < trees.len() ==> unfolds(#[trigger] trees[i], listed) && listed.contains(
                trees[i].thread,
            ) && trees[i].thread.parent_thread_id == if above.len() == 0 {
                None
            } else {
                Some(above.last().thread_id)
            },
        forall|i: int, j: int|
            0 <= i < j < trees.len() ==> (#[trigger] trees[i]).thread != (
            #[trigger] trees[j]).thread,
    ensures
        chains(trees, above).len() == preorder(trees).len(),
        chains(trees, above).no_duplicates(),
        forall|k: int|
            0 <= k < chains(trees, above).len() ==> {
                let chain = #[trigger] chains(trees, above)[k];
                &&& is_spawn_chain(chain, listed)
                &&& chain.last() == preorder(trees)[k]
                &&& chain.len() > above.len()
                &&& exists|i: int|
                    0 <= i < trees.len() && (#[trigger] trees[i]).thread == chain[above.len() as int]
            },
    decreases trees,
{
    if trees.len() > 0 {
        let rest = trees.drop_last();
        let last = trees.last();
        let own = above.push(last.thread);
        let below = children_of(listed, last.thread.thread_id);
        assert forall|i: int, j: int| 0 <= i < j < rest.len() implies (#[trigger] rest[i]).thread
            != (#[trigger] rest[j]).thread by {
            assert(rest[i] == trees[i] && rest[j] == trees[j]);
        }
        assert forall|i: int| 0 <= i < rest.len() implies unfolds(#[trigger] rest[i], listed)
            && listed.contains(rest[i].thread) && rest[i].thread.parent_thread_id
            == if above.len() == 0 {
            None
        } else {
            Some(above.last().thread_id)
        } by {
            assert(rest[i] == trees[i]);
        }
        lemma_chains(rest, above, listed);
        assert(trees[trees.len() - 1] == last);
        assert(is_spawn_chain(own, listed)) by {
            assert forall|k: int| 0 <= k < own.len() implies listed.contains(#[trigger] own[k]) by {
                if k < above.len() {
                    assert(own[k] == above[k]);
                }
            }
            assert forall|k: int| 0 < k < own.len() implies (#[trigger] own[k]).parent_thread_id
                == Some(own[k - 1].thread_id) by {
                if k < above.len() {
                    assert(own[k] == above[k]);
                }
            }
            if above.len() > 0 {
                assert(own[0] == above[0]);
            }
        }
        assert forall|i: int| 0 <= i < last.children.len() implies unfolds(
            #[trigger] last.children[i],
            listed,
        ) && listed.contains(last.children[i].thread) && last.children[i].thread.parent_thread_id
            == Some(own.last().thread_id) by {
            lemma_child_of_filter(listed, last.thread.thread_id, below[i]);
            assert(below.contains(below[i]));
        }
        assert forall|i: int, j: int| 0 <= i < j < last.children.len() implies (
        #[trigger] last.children[i]).thread != (#[trigger] last.children[j]).thread by {
            lemma_child_of_filter(listed, last.thread.thread_id, below[i]);
        }
        lemma_chains(last.children, own, listed);
        let a = chains(rest, above);
        let c = chains(last.children, own);
        let all = chains(trees, above);
        assert(all == a + seq![own] + c);
        let at = above.len() as int;
        assert forall|k: int| 0 <= k < all.len() implies ({
            let chain = #[trigger] all[k];
            &&& is_spawn_chain(chain, listed)
            &&& chain.last() == preorder(trees)[k]
            &&& chain.len() > above.len()
            &&& exists|i: int| 0 <= i < trees.len() && (#[trigger] trees[i]).thread == chain[at]
            &&& k >= a.len() ==> chain[at] == last.thread
            &&& k < a.len() ==> chain[at] != last.thread
            &&& k > a.len() ==> chain.len() > own.len()
        }) by {
            if k < a.len() {
                assert(all[k] == a[k]);
                let i = choose|i: int|
                    0 <= i < rest.len() && (#[trigger] rest[i]).thread == a[k][at];
                assert(trees[i] == rest[i]);
                assert(trees[i].thread != trees[trees.len() - 1].thread);
            } else if k == a.len() {
                assert(all[k] == own);
                assert(trees[trees.len() - 1].thread == own[at]);
            } else {
                assert(all[k] == c[k - a.len() - 1]);
                let chain = c[k - a.len() - 1];
                assert(chain.last() == preorder(last.children)[k - a.len() - 1]);
                lemma_chain_prefix(last.children, own, k - a.len() - 1);
                assert(chain[at] == own[at]);
                assert(trees[trees.len() - 1].thread == own[at]);
            }
        }
        assert forall|k: int, m: int| 0 <= k < all.len() && 0 <= m < all.len() && k != m implies
            all[k] != all[m] by {
            if k < a.len() && m < a.len() {
                assert(a[k] != a[m]);
            } else if k > a.len() && m > a.len() {
                assert(c[k - a.len() - 1] != c[m - a.len() - 1]);
            }
        }
    }
}

/// Each chain of `chains` starts with `above`.
proof fn lemma_chain_prefix(trees: Seq<Tree>, above: Seq<ThreadInfo>, k: int)
    requires
        0 <= k < chains(trees, above).len(),
    ensures
        above.is_prefix_of(chains(trees, above)[k]),
    decreases trees,
{
    if trees.len() > 0 {
        let rest = trees.drop_last();
        let last = trees.last();
        let own = above.push(last.thread);
        let a = chains(rest, above);
        if k < a.len() {
            lemma_chain_prefix(rest, above, k);
        } else if k > a.len() {
            lemma_chain_prefix(last.children, own, k - a.len() - 1);
            let chain = chains(trees, above)[k];
            assert(chain == chains(last.children, own)[k - a.len() - 1]);
            assert forall|i: int| 0 <= i < above.len() implies above[i] == chain[i] by {
                assert(above[i] == own[i]);
            }
            assert(above =~= chain.take(above.len() as int));
        } else {
            assert(chains(trees, above)[k] == own);
            assert(above =~= own.take(above.len() as int));
        }
    }
}

proof fn lemma_preorder_contains(trees: Seq<Tree>, i: int, x: ThreadInfo)
    requires
        0 <= i < trees.len(),
        x == trees[i].thread || preorder(trees[i].children).contains(x),
    ensures
        preorder(trees).contains(x),
    decreases trees.len(),
{
    let rest = trees.drop_last();
    let last = trees.last();
    let a = preorder(rest);
    let c = preorder(last.children);
    if i < rest.len() {
        assert(rest[i] == trees[i]);
        lemma_preorder_contains(rest, i, x);
        let k = a.index_of(x);
        assert(preorder(trees)[k] == x);
    } else if x == last.thread {
        assert(preorder(trees)[a.len() as int] == x);
    } else {
        let k = c.index_of(x);
        assert(preorder(trees)[a.len() + 1 + k] == x);
    }
}

/// A tree that unfolds holds every thread that a chain through its root leads
/// to.
proof fn lemma_preorder_complete(
    trees: Seq<Tree>,
    i: int,
    chain: Seq<ThreadInfo>,
    k: int,
    listed: Seq<ThreadInfo>,
)
    requires
        distinct_ids(listed),
        is_spawn_chain(chain, listed),
        0 <= k < chain.len(),
        0 <= i < trees.len(),
        trees[i].thread == chain[k],
        unfolds(trees[i], listed),
    ensures
        preorder(trees).contains(chain.last()),
    decreases chain.len() - k,
{
    if k == chain.len() - 1 {
        lemma_preorder_contains(trees, i, chain.last());
    } else {
        let id = chain[k].thread_id;
        let below = children_of(listed, id);
        assert(chain[k + 1].parent_thread_id == Some(id));
        lemma_child_of_filter(listed, id, chain[k + 1]);
        let j = below.index_of(chain[k + 1]);
        assert(trees[i].children[j].thread == below[j]);
        lemma_preorder_complete(trees[i].children, j, chain, k + 1, listed);
        lemma_preorder_contains(trees, i, chain.last());
    }
}

/// Where ids are distinct, the tree holds each thread that a chain of spawns
/// leads to from a thread that nothing spawned, once, and nothing else.
pub proof fn lemma_agent_tree_holds_each_thread_once(
    forest: Seq<Tree>,
    threads: Seq<ThreadInfo>,
)
    requires
        distinct_ids(threads),
        is_agent_tree(forest, threads),
    ensures
        preorder(forest).no_duplicates(),
        forall|x: ThreadInfo| #[trigger]
            preorder(forest).contains(x) <==> exists|chain: Seq<ThreadInfo>| #[trigger]
                is_spawn_chain(chain, listing(threads)) && chain.last() == x,
{
    let listed = listing(threads);
    let roots = roots_of(listed);
    let parentless = |t: ThreadInfo| t.parent_thread_id is None;
    let rows = preorder(forest);
    lemma_listing_distinct(threads);
    lemma_latest_distinct(listed);
    lemma_filter_no_duplicates(listed, parentless);
    assert forall|i: int| 0 <= i < forest.len() implies unfolds(#[trigger] forest[i], listed)
        && listed.contains(forest[i].thread) && forest[i].thread.parent_thread_id is None by {
        lemma_filter_contains(listed, parentless, roots[i]);
        assert(roots.contains(roots[i]));
    }
    lemma_chains(forest, Seq::empty(), listed);
    let all = chains(forest, Seq::empty());
    assert forall|k: int, m: int| 0 <= k < rows.len() && 0 <= m < rows.len() && k != m implies
        rows[k] != rows[m] by {
        assert(all[k].last() == rows[k] && all[m].last() == rows[m]);
        if rows[k] == rows[m] {
            lemma_chain_unique(all[k], all[m], listed);
        }
    }
    assert forall|x: ThreadInfo| #[trigger] rows.contains(x) <==> exists|chain: Seq<ThreadInfo>|
        #[trigger] is_spawn_chain(chain, listed) && chain.last() == x by {
        if rows.contains(x) {
            let k = rows.index_of(x);
            assert(is_spawn_chain(all[k], listed) && all[k].last() == x);
        }
        if exists|chain: Seq<ThreadInfo>| #[trigger]
            is_spawn_chain(chain, listed) && chain.last() == x {
            let chain = choose|chain: Seq<ThreadInfo>| #[trigger]
                is_spawn_chain(chain, listed) && chain.last() == x;
            lemma_filter_contains(listed, parentless, chain[0]);
            assert(listed.contains(chain[0]));
            let i = roots.index_of(chain[0]);
            assert(forest[i].thread == roots[i]);
            lemma_preorder_complete(forest, i, chain, 0, listed);
        }
    }
}

/// The order in which threads with distinct ids are reported does not matter.
pub proof fn lemma_agent_tree_ignores_order(
    a: Seq<ThreadInfo>,
    b: Seq<ThreadInfo>,
    forest: Seq<Tree>,
)
    requires
        distinct_ids(a),
        distinct_ids(b),
        forall|t: ThreadInfo| #[trigger] a.contains(t) <==> b.contains(t),
    ensures
        listing(a) == listing(b),
        is_agent_tree(forest, a) == is_agent_tree(forest, b),
{
    lemma_listing_strict(a);
    lemma_listing_strict(b);
    assert forall|x: ThreadInfo| #[trigger] listing(a).contains(x) <==> listing(b).contains(x) by {
        if listing(a).contains(x) {
            lemma_listing_contains(a, b, x);
        }
        if listing(b).contains(x) {
            lemma_listing_contains(b, a, x);
        }
    }
    lemma_order_unique::<ThreadStatusView>(listing(a), listing(b));
}

proof fn lemma_listing_strict(threads: Seq<ThreadInfo>)
    requires
        distinct_ids(threads),
    ensures
        in_order::<ThreadStatusView>(listing(threads)),
        strictly_ranked::<ThreadStatusView>(listing(threads)),
{
    let listed = listing(threads);
    lemma_listing_distinct(threads);
    lemma_ordered::<ThreadStatusView>(
        threads.map_values(|t: ThreadInfo| with_root_name(t)),
        arbitrary(),
    );
    assert forall|i: int, j: int| 0 <= i < j < listed.len() implies !same_rank::<ThreadStatusView>(
        #[trigger] listed[i],
        #[trigger] listed[j],
    ) by {
        let x = listed[i];
        let y = listed[j];
        lemma_opt_lex_less(x.agent_path, y.agent_path, x.agent_path);
        lemma_lex_less(x.thread_id, y.thread_id, x.thread_id);
    }
}

proof fn lemma_listing_contains(a: Seq<ThreadInfo>, b: Seq<ThreadInfo>, x: ThreadInfo)
    requires
        forall|t: ThreadInfo| #[trigger] a.contains(t) <==> b.contains(t),
        listing(a).contains(x),
    ensures
        listing(b).contains(x),
{
    let named_a = a.map_values(|t: ThreadInfo| with_root_name(t));
    let named_b = b.map_values(|t: ThreadInfo| with_root_name(t));
    lemma_ordered_contains::<ThreadStatusView>(named_a, x);
    lemma_ordered_contains::<ThreadStatusView>(named_b, x);
    let i = named_a.index_of(x);
    assert(a.contains(a[i]));
    let j = b.index_of(a[i]);
    assert(named_b[j] == x);
}

/// Whether `told` is `thread`, with the path and the task of the main thread where it has
/// no path and nothing spawned it.
pub open spec fn told_as(told: ThreadInfo, thread: ThreadInfo) -> bool {
    &&& told.thread_id == thread.thread_id
    &&& told.session_id == thread.session_id
    &&& told.parent_thread_id == thread.parent_thread_id
    &&& told.status == thread.status
    &&& told.active_flags == thread.active_flags
    &&& told.cwd == thread.cwd
    &&& told.path == thread.path
    &&& told.agent_type == thread.agent_type
    &&& told.agent_nickname == thread.agent_nickname
    &&& told.summary == thread.summary
    &&& thread.agent_path is Some || thread.parent_thread_id is Some ==> told.agent_path
        == thread.agent_path && told.task_name == thread.task_name
    &&& thread.agent_path is None && thread.parent_thread_id is None ==> told.agent_path == Some(
        "/root"@,
    ) && told.task_name == Some("root"@)
}

/// Whether `a` stands ahead of `b`: by path, and by id where the path is the same.
pub open spec fn stands_ahead(a: ThreadInfo, b: ThreadInfo) -> bool {
    ||| opt_lex_less(a.agent_path, b.agent_path)
    ||| a.agent_path == b.agent_path && lex_less(a.thread_id, b.thread_id)
}

/// Whether one of `threads` that `parent` spawned is told as `told`.
pub open spec fn tells_a_child(
    told: ThreadInfo,
    threads: Seq<ThreadInfo>,
    parent: Option<Seq<char>>,
) -> bool {
    exists|k: int|
        0 <= k < threads.len() && told_as(told, #[trigger] threads[k])
            && threads[k].parent_thread_id == parent
}

/// Whether one of `trees` is that of `thread`.
pub open spec fn is_among(thread: ThreadInfo, trees: Seq<Tree>) -> bool {
    exists|i: int| 0 <= i < trees.len() && told_as((#[trigger] trees[i]).thread, thread)
}

/// Whether `trees` are those of the threads that `parent` spawned, all of them and no
/// others, by path and id; without a parent, of the threads that nothing spawned.
pub open spec fn holds_spawned(
    trees: Seq<Tree>,
    threads: Seq<ThreadInfo>,
    parent: Option<Seq<char>>,
) -> bool {
    &&& forall|i: int|
        0 <= i < trees.len() ==> tells_a_child((#[trigger] trees[i]).thread, threads, parent)
    &&& forall|k: int|
        0 <= k < threads.len() && (#[trigger] threads[k]).parent_thread_id == parent ==> is_among(
            threads[k],
            trees,
        )
    &&& forall|i: int, j: int|
        0 <= i < j < trees.len() ==> stands_ahead(
            (#[trigger] trees[i]).thread,
            (#[trigger] trees[j]).thread,
        )
}

/// The tree that `path` leads to: which of the trees, which of its children, and so on.
pub open spec fn tree_at(trees: Seq<Tree>, path: Seq<int>) -> Option<Tree>
    decreases path.len(),
{
    if path.len() == 0 || !(0 <= path[0] < trees.len()) {
        None
    } else if path.len() == 1 {
        Some(trees[path[0]])
    } else {
        tree_at(trees[path[0]].children, path.drop_first())
    }
}

proof fn lemma_told(threads: Seq<ThreadInfo>, x: ThreadInfo)
    ensures
        listing(threads).contains(x) ==> exists|k: int|
            0 <= k < threads.len() && told_as(x, #[trigger] threads[k]),
        forall|k: int|
            0 <= k < threads.len() ==> listing(threads).contains(
                with_root_name(#[trigger] threads[k]),
            ),
{
    let named = threads.map_values(|t: ThreadInfo| with_root_name(t));
    lemma_ordered_contains::<ThreadStatusView>(named, x);
    if listing(threads).contains(x) {
        let k = named.index_of(x);
        assert(told_as(x, threads[k]));
    }
    assert forall|k: int| 0 <= k < threads.len() implies listing(threads).contains(
        with_root_name(#[trigger] threads[k]),
    ) by {
        assert(named[k] == with_root_name(threads[k]));
        lemma_ordered_contains::<ThreadStatusView>(named, named[k]);
    }
}

proof fn lemma_filter_keeps_order(
    s: Seq<ThreadInfo>,
    pred: spec_fn(ThreadInfo) -> bool,
)
    requires
        forall|i: int, j: int|
            0 <= i < j < s.len() ==> stands_ahead(#[trigger] s[i], #[trigger] s[j]),
    ensures
        forall|i: int, j: int|
            0 <= i < j < s.filter(pred).len() ==> stands_ahead(
                #[trigger] s.filter(pred)[i],
                #[trigger] s.filter(pred)[j],
            ),
    decreases s.len(),
{
    if s.len() == 0 {
        reveal(Seq::filter);
    } else {
        let rest = s.drop_last();
        assert forall|i: int, j: int| 0 <= i < j < rest.len() implies stands_ahead(
            #[trigger] rest[i],
            #[trigger] rest[j],
        ) by {
            assert(rest[i] == s[i] && rest[j] == s[j]);
        }
        lemma_filter_keeps_order(rest, pred);
        assert(s =~= rest.push(s.last()));
        rest.lemma_filter_push(s.last(), pred);
        let before = rest.filter(pred);
        let all = s.filter(pred);
        assert forall|i: int, j: int| 0 <= i < j < all.len() implies stands_ahead(
            #[trigger] all[i],
            #[trigger] all[j],
        ) by {
            if j < before.len() {
                assert(all[i] == before[i] && all[j] == before[j]);
            } else {
                assert(all[i] == before[i]);
                lemma_filter_contains(rest, pred, before[i]);
                assert(before.contains(before[i]));
                let k = rest.index_of(before[i]);
                assert(s[k] == all[i] && s[s.len() - 1] == all[j]);
            }
        }
    }
}

proof fn lemma_holds_spawned(
    trees: Seq<Tree>,
    threads: Seq<ThreadInfo>,
    parent: Option<Seq<char>>,
)
    requires
        distinct_ids(threads),
        trees.len() == listing(threads).filter(
            |t: ThreadInfo| t.parent_thread_id == parent,
        ).len(),
        forall|i: int|
            0 <= i < trees.len() ==> (#[trigger] trees[i]).thread == listing(threads).filter(
                |t: ThreadInfo| t.parent_thread_id == parent,
            )[i],
    ensures
        holds_spawned(trees, threads, parent),
{
    let listed = listing(threads);
    let pred = |t: ThreadInfo| t.parent_thread_id == parent;
    let chosen = listed.filter(pred);
    assert forall|i: int| 0 <= i < trees.len() implies tells_a_child(
        (#[trigger] trees[i]).thread,
        threads,
        parent,
    ) by {
        let x = chosen[i];
        assert(chosen.contains(x));
        lemma_filter_contains(listed, pred, x);
        lemma_told(threads, x);
        let k = choose|k: int| 0 <= k < threads.len() && told_as(x, #[trigger] threads[k]);
        assert(told_as(trees[i].thread, threads[k]));
    }
    assert forall|k: int| 0 <= k < threads.len() && (#[trigger] threads[k]).parent_thread_id
        == parent implies is_among(threads[k], trees) by {
        let x = with_root_name(threads[k]);
        lemma_told(threads, x);
        lemma_filter_contains(listed, pred, x);
        let i = chosen.index_of(x);
        assert(trees[i].thread == x);
        assert(told_as(trees[i].thread, threads[k]));
    }
    lemma_listing_strict(threads);
    assert forall|i: int, j: int| 0 <= i < j < listed.len() implies stands_ahead(
        #[trigger] listed[i],
        #[trigger] listed[j],
    ) by {
        assert(!same_rank::<ThreadStatusView>(listed[i], listed[j]));
        assert(!(<ThreadStatusView as crate::order::Ranked>::ranks_before(listed[j], listed[i])));
        assert(<ThreadStatusView as crate::order::Ranked>::ranks_before(listed[i], listed[j]));
    }
    lemma_filter_keeps_order(listed, pred);
    assert forall|i: int, j: int| 0 <= i < j < trees.len() implies stands_ahead(
        (#[trigger] trees[i]).thread,
        (#[trigger] trees[j]).thread,
    ) by {
        assert(trees[i].thread == chosen[i] && trees[j].thread == chosen[j]);
    }
}

proof fn lemma_tree_at_unfolds(trees: Seq<Tree>, listed: Seq<ThreadInfo>, path: Seq<int>)
    requires
        forall|i: int| 0 <= i < trees.len() ==> unfolds(#[trigger] trees[i], listed),
        tree_at(trees, path) is Some,
    ensures
        unfolds(tree_at(trees, path)->0, listed),
    decreases path.len(),
{
    assert(unfolds(trees[path[0]], listed));
    if path.len() > 1 {
        let tree = trees[path[0]];
        assert forall|i: int| 0 <= i < tree.children.len() implies unfolds(
            #[trigger] tree.children[i],
            listed,
        ) by {}
        lemma_tree_at_unfolds(tree.children, listed, path.drop_first());
    }
}

/// Where ids are distinct, the roots of the tree are the threads that nothing spawned, and
/// below every thread of the tree, however deep, stand the threads that it spawned: all of
/// them, no others, each told as it is, by path and id.
pub proof fn lemma_threads_stand_below_their_spawner(
    forest: Seq<Tree>,
    threads: Seq<ThreadInfo>,
    path: Seq<int>,
)
    requires
        distinct_ids(threads),
        is_agent_tree(forest, threads),
    ensures
        holds_spawned(forest, threads, None),
        tree_at(forest, path) is Some ==> holds_spawned(
            tree_at(forest, path)->0.children,
            threads,
            Some(tree_at(forest, path)->0.thread.thread_id),
        ),
{
    let listed = listing(threads);
    let unspawned = |t: ThreadInfo| t.parent_thread_id is None;
    let without = |t: ThreadInfo| t.parent_thread_id == None::<Seq<char>>;
    lemma_links_are_parents(threads, Seq::empty());
    assert(unspawned =~= without);
    lemma_holds_spawned(forest, threads, None);
    if tree_at(forest, path) is Some {
        lemma_tree_at_unfolds(forest, listed, path);
        let tree = tree_at(forest, path)->0;
        lemma_links_are_parents(threads, tree.thread.thread_id);
        lemma_holds_spawned(tree.children, threads, Some(tree.thread.thread_id));
    }
}

/// What is built from threads with distinct ids is their tree.
pub proof fn lemma_built_tree(
    threads: Vec<ThreadStatusView>,
    tree: Option<AgentTreeResponse>,
    path: Seq<int>,
)
    requires
        forall|i: int, j: int|
            0 <= i < j < threads@.len() ==> (#[trigger] threads@[i]).thread_id@ != (
            #[trigger] threads@[j]).thread_id@,
        call_ensures(try_build_agent_tree, (threads,), tree),
    ensures
        tree is Some,
        holds_spawned(tree->0.deep_view(), threads.deep_view(), None),
        tree_at(tree->0.deep_view(), path) is Some ==> holds_spawned(
            tree_at(tree->0.deep_view(), path)->0.children,
            threads.deep_view(),
            Some(tree_at(tree->0.deep_view(), path)->0.thread.thread_id),
        ),
{
    let infos = threads.deep_view();
    assert forall|i: int, j: int| 0 <= i < j < infos.len() implies (#[trigger] infos[i]).thread_id
        != (#[trigger] infos[j]).thread_id by {
        assert(infos[i].thread_id == threads@[i].thread_id@);
        assert(infos[j].thread_id == threads@[j].thread_id@);
    }
    lemma_distinct_ids_have_agent_tree(infos);
    lemma_threads_stand_below_their_spawner(tree->0.deep_view(), infos, path);
}

/// Where an id is listed more than once, its last thread is the one that is told, and a
/// thread hangs below another as often as the list says so.
pub proof fn lemma_last_thread_of_an_id(
    listed: Seq<ThreadInfo>,
    at: int,
    parent: Seq<char>,
    child: Seq<char>,
)
    requires
        0 <= at < listed.len(),
        forall|j: int| at < j < listed.len() ==> (#[trigger] listed[j]).thread_id
            != listed[at].thread_id,
    ensures
        latest(listed).contains(listed[at]),
        links(listed, parent, child) == listed.filter(
            |t: ThreadInfo| t.parent_thread_id == Some(parent) && t.thread_id == child,
        ).len(),
    decreases listed.len(),
{
    lemma_links_count(listed, parent, child);
    let tail = listed.drop_first();
    let rest = latest(tail);
    let all = latest(listed);
    if at == 0 {
        if has_id(tail, listed[0].thread_id) {
            let i = choose|i: int|
                0 <= i < tail.len() && (#[trigger] tail[i]).thread_id == listed[0].thread_id;
            assert(listed[i + 1] == tail[i]);
        }
        assert(all[0] == listed[0]);
    } else {
        assert(tail[at - 1] == listed[at]);
        assert forall|j: int| at - 1 < j < tail.len() implies (#[trigger] tail[j]).thread_id
            != tail[at - 1].thread_id by {
            assert(tail[j] == listed[j + 1]);
        }
        lemma_last_thread_of_an_id(tail, at - 1, parent, child);
        let k = rest.index_of(listed[at]);
        assert(all[k] == rest[k] || all[k + 1] == rest[k]);
    }
}

proof fn lemma_links_count(listed: Seq<ThreadInfo>, parent: Seq<char>, child: Seq<char>)
    ensures
        links(listed, parent, child) == listed.filter(
            |t: ThreadInfo| t.parent_thread_id == Some(parent) && t.thread_id == child,
        ).len(),
    decreases listed.len(),
{
    let pred = |t: ThreadInfo| t.parent_thread_id == Some(parent) && t.thread_id == child;
    if listed.len() == 0 {
        reveal(Seq::filter);
    } else {
        let rest = listed.drop_last();
        lemma_links_count(rest, parent, child);
        assert(listed =~= rest.push(listed.last()));
        rest.lemma_filter_push(listed.last(), pred);
    }
}

/// Whatever ids there are, no two roots share one, and nothing spawned a root.
pub proof fn lemma_roots_have_ids_of_their_own(
    forest: Seq<Tree>,
    threads: Seq<ThreadInfo>,
    i: int,
    j: int,
)
    requires
        is_agent_tree(forest, threads),
        0 <= i < j < forest.len(),
    ensures
        forest[i].thread.thread_id != forest[j].thread.thread_id,
        forest[i].thread.parent_thread_id is None,
        forest[j].thread.parent_thread_id is None,
{
    let listed = listing(threads);
    let known = latest(listed);
    let pred = |t: ThreadInfo| t.parent_thread_id is None;
    crate::agent_tree::lemma_latest(listed);
    lemma_filter_no_duplicates(known, pred);
    let roots = roots_of(listed);
    let x = roots[i];
    let y = roots[j];
    assert(roots.contains(x) && roots.contains(y));
    lemma_filter_contains(known, pred, x);
    lemma_filter_contains(known, pred, y);
    let a = known.index_of(x);
    let b = known.index_of(y);
    assert(x != y);
    if a < b {
        assert(known[a].thread_id != known[b].thread_id);
    } else if b < a {
        assert(known[b].thread_id != known[a].thread_id);
    }
    assert(forest[i].thread == x && forest[j].thread == y);
}

proof fn lemma_repeat_count(x: ThreadInfo, y: ThreadInfo, n: nat)
    ensures
        Seq::new(n, |i: int| x).filter(|t: ThreadInfo| t == y).len() == if x == y {
            n
        } else {
            0
        },
    decreases n,
{
    let pred = |t: ThreadInfo| t == y;
    let s = Seq::new(n, |i: int| x);
    if n == 0 {
        reveal(Seq::filter);
    } else {
        let rest = Seq::new((n - 1) as nat, |i: int| x);
        lemma_repeat_count(x, y, (n - 1) as nat);
        assert(s =~= rest.push(x));
        rest.lemma_filter_push(x, pred);
    }
}

proof fn lemma_filter_sum(
    a: Seq<ThreadInfo>,
    b: Seq<ThreadInfo>,
    pred: spec_fn(ThreadInfo) -> bool,
)
    ensures
        (a + b).filter(pred).len() == a.filter(pred).len() + b.filter(pred).len(),
    decreases b.len(),
{
    if b.len() == 0 {
        assert(a + b =~= a);
        assert(b.filter(pred).len() == 0) by {
            reveal(Seq::filter);
        }
    } else {
        let rest = b.drop_last();
        lemma_filter_sum(a, rest, pred);
        assert(b =~= rest.push(b.last()));
        assert(a + b =~= (a + rest).push(b.last()));
        rest.lemma_filter_push(b.last(), pred);
        (a + rest).lemma_filter_push(b.last(), pred);
    }
}

proof fn lemma_spawned_count(
    candidates: Seq<ThreadInfo>,
    listed: Seq<ThreadInfo>,
    parent: Seq<char>,
    x: ThreadInfo,
)
    requires
        distinct_ids(candidates),
    ensures
        spawned(candidates, listed, parent).filter(|t: ThreadInfo| t == x).len()
            == if candidates.contains(x) {
            links(listed, parent, x.thread_id)
        } else {
            0
        },
    decreases candidates.len(),
{
    let pred = |t: ThreadInfo| t == x;
    if candidates.len() == 0 {
        assert(spawned(candidates, listed, parent).filter(pred).len() == 0) by {
            reveal(Seq::filter);
        }
    } else {
        let rest = candidates.drop_last();
        let last = candidates.last();
        let n = links(listed, parent, last.thread_id);
        assert forall|i: int, j: int| 0 <= i < j < rest.len() implies (
        #[trigger] rest[i]).thread_id != (#[trigger] rest[j]).thread_id by {
            assert(rest[i] == candidates[i] && rest[j] == candidates[j]);
        }
        lemma_spawned_count(rest, listed, parent, x);
        lemma_repeat_count(last, x, n);
        lemma_filter_sum(
            spawned(rest, listed, parent),
            Seq::new(n, |i: int| last),
            pred,
        );
        assert(candidates[candidates.len() - 1] == last);
        if rest.contains(x) {
            let i = rest.index_of(x);
            assert(candidates[i] == x);
            assert(candidates[i].thread_id != candidates[candidates.len() - 1].thread_id);
        }
        if candidates.contains(x) && x != last {
            let i = candidates.index_of(x);
            assert(rest[i] == x);
        }
    }
}

/// Whatever ids there are, a thread hangs below another one as often as the threads say so:
/// the last thread with an id is told of it, once for every thread with that id that the
/// other one spawned.
pub proof fn lemma_children_are_counted(
    forest: Seq<Tree>,
    threads: Seq<ThreadInfo>,
    path: Seq<int>,
    x: ThreadInfo,
)
    requires
        is_agent_tree(forest, threads),
        tree_at(forest, path) is Some,
    ensures
        ({
            let tree = tree_at(forest, path)->0;
            let listed = listing(threads);
            tree.children.map_values(|child: Tree| child.thread).filter(
                |t: ThreadInfo| t == x,
            ).len() == if latest(listed).contains(x) {
                listed.filter(
                    |t: ThreadInfo|
                        t.parent_thread_id == Some(tree.thread.thread_id) && t.thread_id
                            == x.thread_id,
                ).len()
            } else {
                0
            }
        }),
{
    let tree = tree_at(forest, path)->0;
    let listed = listing(threads);
    let known = latest(listed);
    lemma_tree_at_unfolds(forest, listed, path);
    let below = children_of(listed, tree.thread.thread_id);
    assert(tree.children.map_values(|child: Tree| child.thread) =~= below);
    crate::agent_tree::lemma_latest(listed);
    assert(distinct_ids(known));
    lemma_spawned_count(known, listed, tree.thread.thread_id, x);
    lemma_links_count(listed, tree.thread.thread_id, x.thread_id);
}

} // verus!
