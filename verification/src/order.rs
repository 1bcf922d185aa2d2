//! Stable sorting by a rank.

use vstd::prelude::*;

use crate::text::{lemma_lex_less, lex_less, text_less};

verus! {

/// Values that a rank orders. Two values may share a rank.
pub trait Ranked: DeepView + Sized {
    /// Whether `a` ranks before `b`.
    spec fn ranks_before(a: Self::V, b: Self::V) -> bool;

    /// Whether this value ranks before `other`.
    fn precedes(&self, other: &Self) -> (before: bool)
        ensures
            before == Self::ranks_before(self.deep_view(), other.deep_view()),
    ;

    /// Ranks are ordered, and sharing a rank is transitive.
    proof fn lemma_ranks(a: Self::V, b: Self::V, c: Self::V)
        ensures
            !Self::ranks_before(a, a),
            Self::ranks_before(a, b) && Self::ranks_before(b, c) ==> Self::ranks_before(a, c),
            !Self::ranks_before(a, b) && !Self::ranks_before(b, c) ==> !Self::ranks_before(a, c),
    ;
}

/// `s` with `x` behind everything that does not rank after it.
pub open spec fn placed<T: Ranked>(s: Seq<T::V>, x: T::V) -> Seq<T::V>
    decreases s.len(),
{
    if s.len() == 0 || !T::ranks_before(x, s.last()) {
        s.push(x)
    } else {
        placed::<T>(s.drop_last(), x).push(s.last())
    }
}

/// `s` in the order of its ranks; values of one rank keep the order that they
/// had.
pub open spec fn ordered<T: Ranked>(s: Seq<T::V>) -> Seq<T::V>
    decreases s.len(),
{
    if s.len() == 0 {
        s
    } else {
        placed::<T>(ordered::<T>(s.drop_last()), s.last())
    }
}

/// No value of `s` ranks before one that stands ahead of it.
pub open spec fn in_order<T: Ranked>(s: Seq<T::V>) -> bool {
    forall|i: int, j: int| 0 <= i < j < s.len() ==> !T::ranks_before(#[trigger] s[j], #[trigger] s[i])
}

/// Whether `x` and `y` share a rank.
pub open spec fn same_rank<T: Ranked>(x: T::V, y: T::V) -> bool {
    !T::ranks_before(x, y) && !T::ranks_before(y, x)
}

proof fn lemma_placed<T: Ranked>(s: Seq<T::V>, x: T::V, probe: T::V)
    requires
        in_order::<T>(s),
    ensures
        in_order::<T>(placed::<T>(s, x)),
        placed::<T>(s, x).len() == s.len() + 1,
        placed::<T>(s, x).to_multiset() == s.to_multiset().insert(x),
        placed::<T>(s, x).filter(|y: T::V| same_rank::<T>(probe, y)) == s.push(x).filter(
            |y: T::V| same_rank::<T>(probe, y),
        ),
        forall|i: int| 0 <= i < placed::<T>(s, x).len() ==> #[trigger] placed::<T>(s, x)[i] == x
            || s.contains(placed::<T>(s, x)[i]),
    decreases s.len(),
{
    broadcast use vstd::seq_lib::group_to_multiset_ensures;

    let tied = |y: T::V| same_rank::<T>(probe, y);
    if s.len() == 0 || !T::ranks_before(x, s.last()) {
        assert forall|i: int, j: int| 0 <= i < j < s.push(x).len() implies !T::ranks_before(
            #[trigger] s.push(x)[j],
            #[trigger] s.push(x)[i],
        ) by {
            if j == s.len() {
                assert(!T::ranks_before(s.last(), s[i]) || i == s.len() - 1);
                T::lemma_ranks(x, s.last(), s[i]);
            }
        }
    } else {
        let rest = s.drop_last();
        let last = s.last();
        let inner = placed::<T>(rest, x);
        let result = inner.push(last);
        lemma_placed::<T>(rest, x, probe);
        assert forall|i: int, j: int| 0 <= i < j < result.len() implies !T::ranks_before(
            #[trigger] result[j],
            #[trigger] result[i],
        ) by {
            if j == inner.len() {
                T::lemma_ranks(x, last, x);
                if inner[i] != x {
                    assert(rest.contains(inner[i]));
                    let k = rest.index_of(inner[i]);
                    assert(rest[k] == s[k]);
                }
            }
        }
        assert(rest.push(last) =~= s);
        assert(s.to_multiset() == rest.to_multiset().insert(last));
        assert(rest.to_multiset().insert(x).insert(last) =~= rest.to_multiset().insert(last).insert(
            x,
        ));
        rest.lemma_filter_push(x, tied);
        rest.lemma_filter_push(last, tied);
        inner.lemma_filter_push(last, tied);
        s.lemma_filter_push(x, tied);
        if tied(last) && tied(x) {
            T::lemma_ranks(x, probe, last);
        }
        assert forall|i: int| 0 <= i < result.len() implies #[trigger] result[i] == x || s.contains(
            result[i],
        ) by {
            if i < inner.len() {
                if inner[i] != x {
                    let k = rest.index_of(inner[i]);
                    assert(rest.contains(inner[i]));
                    assert(s[k] == inner[i]);
                }
            } else {
                assert(s[s.len() - 1] == last);
            }
        }
    }
}

/// Sorting keeps the values and puts them in order, and values of one rank keep
/// the order that they had.
pub proof fn lemma_ordered<T: Ranked>(s: Seq<T::V>, probe: T::V)
    ensures
        in_order::<T>(ordered::<T>(s)),
        ordered::<T>(s).len() == s.len(),
        ordered::<T>(s).to_multiset() == s.to_multiset(),
        ordered::<T>(s).filter(|y: T::V| same_rank::<T>(probe, y)) == s.filter(
            |y: T::V| same_rank::<T>(probe, y),
        ),
    decreases s.len(),
{
    broadcast use vstd::seq_lib::group_to_multiset_ensures;

    if s.len() > 0 {
        let tied = |y: T::V| same_rank::<T>(probe, y);
        let rest = s.drop_last();
        lemma_ordered::<T>(rest, probe);
        lemma_placed::<T>(ordered::<T>(rest), s.last(), probe);
        assert(rest.push(s.last()) =~= s);
        rest.lemma_filter_push(s.last(), tied);
        ordered::<T>(rest).lemma_filter_push(s.last(), tied);
    }
}

/// Sorting neither drops nor adds a value.
pub proof fn lemma_ordered_contains<T: Ranked>(s: Seq<T::V>, x: T::V)
    ensures
        ordered::<T>(s).contains(x) == s.contains(x),
{
    broadcast use vstd::seq_lib::group_to_multiset_ensures;

    lemma_ordered::<T>(s, x);
    assert(ordered::<T>(s).to_multiset().count(x) == s.to_multiset().count(x));
}

/// `items` in the order of their ranks; items of one rank keep the order that
/// they had.
pub fn stable_sort<T: Ranked>(items: Vec<T>) -> (sorted: Vec<T>)
    ensures
        sorted.deep_view() == ordered::<T>(items.deep_view()),
{
    let ghost all = items.deep_view();
    let mut sorted: Vec<T> = Vec::new();
    for item in it: items
        invariant
            it.seq() == items@,
            all == items.deep_view(),
            sorted.deep_view() == ordered::<T>(all.take(it.index())),
    {
        let ghost before = sorted.deep_view();
        let ghost x = item.deep_view();
        let mut at: usize = sorted.len();
        proof {
            assert(before.take(at as int) =~= before);
            assert(before.skip(at as int) =~= Seq::empty());
        }
        while at > 0 && item.precedes(&sorted[at - 1])
            invariant
                at <= sorted@.len(),
                before == sorted.deep_view(),
                x == item.deep_view(),
                placed::<T>(before, x) =~= placed::<T>(before.take(at as int), x) + before.skip(
                    at as int,
                ),
            decreases at,
        {
            proof {
                assert(before.take(at as int).drop_last() =~= before.take(at - 1));
                assert(before.take(at as int).last() == before[at - 1]);
                assert(before.skip(at - 1) =~= seq![before[at - 1]] + before.skip(at as int));
            }
            at -= 1;
        }
        sorted.insert(at, item);
        proof {
            assert(sorted.deep_view() =~= before.take(at as int).push(x) + before.skip(at as int));
            let n = it.index();
            assert(all.take(n + 1).drop_last() =~= all.take(n));
            assert(all.take(n + 1).last() == x);
        }
    }
    proof {
        assert(all.take(all.len() as int) =~= all);
    }
    sorted
}

/// No two values of `s` share a rank.
pub open spec fn strictly_ranked<T: Ranked>(s: Seq<T::V>) -> bool {
    forall|i: int, j: int|
        0 <= i < j < s.len() ==> !same_rank::<T>(#[trigger] s[i], #[trigger] s[j])
}

/// There is one way only to put values in order that all differ in rank.
pub proof fn lemma_order_unique<T: Ranked>(a: Seq<T::V>, b: Seq<T::V>)
    requires
        in_order::<T>(a),
        in_order::<T>(b),
        strictly_ranked::<T>(a),
        strictly_ranked::<T>(b),
        forall|x: T::V| #[trigger] a.contains(x) <==> b.contains(x),
    ensures
        a == b,
    decreases a.len(),
{
    if a.len() == 0 {
        if b.len() > 0 {
            assert(b.contains(b[0]));
            assert(a.contains(b[0]));
        }
        assert(a =~= b);
    } else {
        assert(a.contains(a[0]));
        assert(b.len() > 0);
        let p = a.last();
        let q = b.last();
        assert(a.contains(p));
        assert(b.contains(q));
        assert(a.contains(q));
        let k = b.index_of(p);
        let m = a.index_of(q);
        if p != q {
            assert(!T::ranks_before(a[a.len() - 1], a[m]));
            assert(!T::ranks_before(b[b.len() - 1], b[k]));
            assert(same_rank::<T>(b[k], b[b.len() - 1]));
        }
        let c = a.drop_last();
        let d = b.drop_last();
        assert(in_order::<T>(c)) by {
            assert forall|i: int, j: int| 0 <= i < j < c.len() implies !T::ranks_before(
                #[trigger] c[j],
                #[trigger] c[i],
            ) by {
                assert(c[i] == a[i] && c[j] == a[j]);
            }
        }
        assert(in_order::<T>(d)) by {
            assert forall|i: int, j: int| 0 <= i < j < d.len() implies !T::ranks_before(
                #[trigger] d[j],
                #[trigger] d[i],
            ) by {
                assert(d[i] == b[i] && d[j] == b[j]);
            }
        }
        assert(strictly_ranked::<T>(c)) by {
            assert forall|i: int, j: int| 0 <= i < j < c.len() implies !same_rank::<T>(
                #[trigger] c[i],
                #[trigger] c[j],
            ) by {
                assert(c[i] == a[i] && c[j] == a[j]);
            }
        }
        assert(strictly_ranked::<T>(d)) by {
            assert forall|i: int, j: int| 0 <= i < j < d.len() implies !same_rank::<T>(
                #[trigger] d[i],
                #[trigger] d[j],
            ) by {
                assert(d[i] == b[i] && d[j] == b[j]);
            }
        }
        assert forall|x: T::V| #[trigger] c.contains(x) <==> d.contains(x) by {
            T::lemma_ranks(p, p, p);
            if c.contains(x) {
                let i = c.index_of(x);
                assert(a[i] == x);
                assert(a.contains(x));
                let j = b.index_of(x);
                if j == b.len() - 1 {
                    assert(same_rank::<T>(a[i], a[a.len() - 1]));
                }
                assert(d[j] == x);
            }
            if d.contains(x) {
                let i = d.index_of(x);
                assert(b[i] == x);
                assert(b.contains(x));
                assert(a.contains(x));
                let j = a.index_of(x);
                if j == a.len() - 1 {
                    assert(same_rank::<T>(b[i], b[b.len() - 1]));
                }
                assert(c[j] == x);
            }
        }
        lemma_order_unique::<T>(c, d);
        assert(a =~= c.push(p));
        assert(b =~= d.push(q));
    }
}

impl Ranked for String {
    open spec fn ranks_before(a: Seq<char>, b: Seq<char>) -> bool {
        lex_less(a, b)
    }

    fn precedes(&self, other: &Self) -> (before: bool) {
        text_less(self.as_str(), other.as_str())
    }

    proof fn lemma_ranks(a: Seq<char>, b: Seq<char>, c: Seq<char>) {
        lemma_lex_less(a, b, c);
        lemma_lex_less(b, c, a);
        lemma_lex_less(c, a, b);
        lemma_lex_less(b, a, c);
        lemma_lex_less(a, c, b);
    }
}

/// Each text of `s` comes before the next: `s` is sorted and nothing occurs
/// twice in it.
pub open spec fn increasing(s: Seq<Seq<char>>) -> bool {
    forall|i: int, j: int| 0 <= i < j < s.len() ==> lex_less(#[trigger] s[i], #[trigger] s[j])
}

/// The texts alone decide what they are when sorted and each taken once.
pub proof fn lemma_increasing_unique(a: Seq<Seq<char>>, b: Seq<Seq<char>>)
    requires
        increasing(a),
        increasing(b),
        a.to_set() == b.to_set(),
    ensures
        a == b,
{
    assert forall|i: int, j: int| 0 <= i < j < a.len() implies !lex_less(
        #[trigger] a[j],
        #[trigger] a[i],
    ) by {
        lemma_lex_less(a[i], a[j], a[i]);
    }
    assert forall|i: int, j: int| 0 <= i < j < b.len() implies !lex_less(
        #[trigger] b[j],
        #[trigger] b[i],
    ) by {
        lemma_lex_less(b[i], b[j], b[i]);
    }
    assert(in_order::<String>(a));
    assert(in_order::<String>(b));
    assert(strictly_ranked::<String>(a));
    assert(strictly_ranked::<String>(b));
    assert forall|x: Seq<char>| #[trigger] a.contains(x) <==> b.contains(x) by {
        assert(a.to_set().contains(x) <==> a.contains(x));
        assert(b.to_set().contains(x) <==> b.contains(x));
    }
    lemma_order_unique::<String>(a, b);
}

/// The texts of `texts`, sorted, each of them once.
pub fn sort_and_dedup(texts: Vec<String>) -> (unique: Vec<String>)
    ensures
        increasing(unique.deep_view()),
        unique.deep_view().to_set() == texts.deep_view().to_set(),
{
    let ghost all = texts.deep_view();
    let sorted = stable_sort(texts);
    let ghost ranked = sorted.deep_view();
    proof {
        lemma_ordered::<String>(all, Seq::empty());
    }
    let mut unique: Vec<String> = Vec::new();
    let mut i: usize = 0;
    while i < sorted.len()
        invariant
            i <= sorted@.len(),
            ranked == sorted.deep_view(),
            in_order::<String>(ranked),
            increasing(unique.deep_view()),
            forall|k: int| 0 <= k < unique@.len() ==> ranked.contains(#[trigger] unique@[k]@),
            forall|k: int| 0 <= k < i ==> unique.deep_view().contains(#[trigger] ranked[k]),
            i > 0 ==> unique@.len() > 0 && unique@[unique@.len() - 1]@ == ranked[i - 1],
            unique@.len() > 0 ==> i > 0,
        decreases sorted@.len() - i,
    {
        let ghost before = unique.deep_view();
        if unique.len() == 0 || !crate::text::same_text(
            unique[unique.len() - 1].as_str(),
            sorted[i].as_str(),
        ) {
            unique.push(sorted[i].clone());
            proof {
                let after = unique.deep_view();
                assert(after =~= before.push(ranked[i as int]));
                if before.len() > 0 {
                    lemma_lex_less(before.last(), ranked[i as int], before.last());
                    assert(!lex_less(ranked[i as int], ranked[i - 1]));
                    assert forall|k: int| 0 <= k < before.len() implies lex_less(
                        #[trigger] after[k],
                        ranked[i as int],
                    ) by {
                        lemma_lex_less(before[k], before.last(), ranked[i as int]);
                    }
                }
                assert forall|k: int| 0 <= k < i implies after.contains(#[trigger] ranked[k]) by {
                    let m = before.index_of(ranked[k]);
                    assert(before.contains(ranked[k]));
                    assert(after[m] == ranked[k]);
                }
                assert(after[after.len() - 1] == ranked[i as int]);
            }
        } else {
            proof {
                assert(before[before.len() - 1] == ranked[i as int]);
            }
        }
        i += 1;
    }
    proof {
        assert forall|x: Seq<char>| unique.deep_view().to_set().contains(x) == all.to_set().contains(
            x,
        ) by {
            lemma_ordered_contains::<String>(all, x);
            if all.contains(x) {
                let k = ranked.index_of(x);
                assert(unique.deep_view().contains(ranked[k]));
            }
            if unique.deep_view().contains(x) {
                let k = unique.deep_view().index_of(x);
                assert(ranked.contains(unique@[k]@));
            }
        }
        assert(unique.deep_view().to_set() =~= all.to_set());
    }
    unique
}

} // verus!
