//! Stable ordering of items by a descending number and an ascending text.
use vstd::prelude::*;
use vstd::set_lib::{lemma_int_range, lemma_subset_equality, set_int_range};

use crate::text::{lemma_lex_lt_irreflexive, lemma_lex_lt_total, lemma_lex_lt_transitive, lex_lt, lt_chars};

verus! {

/// Item `a` comes before item `b`: a higher first key, then a smaller second
/// key, then the earlier position.
pub open spec fn key_lt(keys: Seq<(int, Seq<char>)>, a: int, b: int) -> bool {
    ||| keys[a].0 > keys[b].0
    ||| (keys[a].0 == keys[b].0 && lex_lt(keys[a].1, keys[b].1))
    ||| (keys[a].0 == keys[b].0 && keys[a].1 == keys[b].1 && a < b)
}

/// `order` lists every position of `keys` once, in the order of `key_lt`.
pub open spec fn is_ranking(keys: Seq<(int, Seq<char>)>, order: Seq<usize>) -> bool {
    &&& order.len() == keys.len()
    &&& forall|i: int| 0 <= i < order.len() ==> order[i] < keys.len()
    &&& forall|i: int, j: int| 0 <= i < j < order.len() ==> key_lt(keys, #[trigger] order[i] as int, #[trigger] order[j] as int)
}

pub open spec fn key_views(keys: Seq<(i128, Vec<char>)>) -> Seq<(int, Seq<char>)> {
    keys.map_values(|k: (i128, Vec<char>)| (k.0 as int, k.1@))
}

pub proof fn lemma_key_lt_transitive(keys: Seq<(int, Seq<char>)>, a: int, b: int, c: int)
    requires
        key_lt(keys, a, b),
        key_lt(keys, b, c),
    ensures
        key_lt(keys, a, c),
{
    if keys[a].0 == keys[b].0 && keys[b].0 == keys[c].0 {
        if lex_lt(keys[a].1, keys[b].1) && lex_lt(keys[b].1, keys[c].1) {
            lemma_lex_lt_transitive(keys[a].1, keys[b].1, keys[c].1);
        }
    }
}

pub proof fn lemma_key_lt_total(keys: Seq<(int, Seq<char>)>, a: int, b: int)
    requires
        a != b,
    ensures
        key_lt(keys, a, b) || key_lt(keys, b, a),
{
    lemma_lex_lt_total(keys[a].1, keys[b].1);
}

pub proof fn lemma_key_lt_irreflexive(keys: Seq<(int, Seq<char>)>, a: int)
    ensures
        !key_lt(keys, a, a),
{
    lemma_lex_lt_irreflexive(keys[a].1);
}

fn key_less(keys: &Vec<(i128, Vec<char>)>, a: usize, b: usize) -> (res: bool)
    requires
        a < keys.len(),
        b < keys.len(),
    ensures
        res == key_lt(key_views(keys@), a as int, b as int),
{
    let ghost kv = key_views(keys@);
    assert(kv[a as int] == (keys@[a as int].0 as int, keys@[a as int].1@));
    assert(kv[b as int] == (keys@[b as int].0 as int, keys@[b as int].1@));
    let ka = &keys[a];
    let kb = &keys[b];
    if ka.0 != kb.0 {
        return ka.0 > kb.0;
    }
    if lt_chars(&ka.1, &kb.1) {
        return true;
    }
    if lt_chars(&kb.1, &ka.1) {
        return false;
    }
    proof {
        lemma_lex_lt_total(ka.1@, kb.1@);
    }
    a < b
}

/// The positions of `keys` in the order of `key_lt`: a stable sort by the
/// first key, descending, then by the second, ascending.
pub fn sort_order(keys: &Vec<(i128, Vec<char>)>) -> (order: Vec<usize>)
    ensures
        is_ranking(key_views(keys@), order@),
        order@ == ranked(key_views(keys@)),
{
    let ghost kv = key_views(keys@);
    let mut order: Vec<usize> = Vec::new();
    let mut k: usize = 0;
    while k < keys.len()
        invariant
            kv == key_views(keys@),
            kv.len() == keys.len(),
            k <= keys.len(),
            order.len() == k,
            forall|i: int| 0 <= i < order.len() ==> order@[i] < k,
            forall|i: int, j: int| 0 <= i < j < order.len() ==> key_lt(kv, #[trigger] order@[i] as int, #[trigger] order@[j] as int),
        decreases keys.len() - k,
    {
        let mut p: usize = 0;
        while p < order.len() && !key_less(keys, k, order[p])
            invariant
                kv == key_views(keys@),
                kv.len() == keys.len(),
                k < keys.len(),
                order.len() == k,
                p <= order.len(),
                forall|i: int| 0 <= i < order.len() ==> order@[i] < k,
                forall|q: int| 0 <= q < p ==> key_lt(kv, #[trigger] order@[q] as int, k as int),
            decreases order.len() - p,
        {
            proof {
                lemma_key_lt_total(kv, k as int, order@[p as int] as int);
            }
            p += 1;
        }
        let ghost old_order = order@;
        order.insert(p, k);
        proof {
            assert forall|i: int, j: int| 0 <= i < j < order.len() implies key_lt(kv, #[trigger] order@[i] as int, #[trigger] order@[j] as int) by {
                if j < p {
                    assert(order@[i] == old_order[i] && order@[j] == old_order[j]);
                } else if j == p {
                    assert(order@[i] == old_order[i]);
                } else if i == p {
                    assert(order@[j] == old_order[j - 1]);
                    assert(key_lt(kv, k as int, old_order[p as int] as int));
                    if j - 1 > p {
                        assert(key_lt(kv, old_order[p as int] as int, old_order[j - 1] as int));
                        lemma_key_lt_transitive(kv, k as int, old_order[p as int] as int, old_order[j - 1] as int);
                    }
                } else if i < p {
                    assert(order@[i] == old_order[i] && order@[j] == old_order[j - 1]);
                } else {
                    assert(order@[i] == old_order[i - 1] && order@[j] == old_order[j - 1]);
                }
            }
        }
        k += 1;
    }
    proof {
        lemma_ranking_unique(kv, order@, ranked(kv));
    }
    order
}


/// Every position of `keys` occurs in a ranking.
pub proof fn lemma_ranking_covers(keys: Seq<(int, Seq<char>)>, order: Seq<usize>, x: int)
    requires
        is_ranking(keys, order),
        0 <= x < keys.len(),
    ensures
        exists|j: int| 0 <= j < order.len() && order[j] == x,
{
    let s = order.map_values(|u: usize| u as int);
    assert forall|i: int, j: int| 0 <= i < s.len() && 0 <= j < s.len() && i != j implies s[i] != s[j] by {
        if i < j {
            assert(key_lt(keys, order[i] as int, order[j] as int));
        } else {
            assert(key_lt(keys, order[j] as int, order[i] as int));
        }
        lemma_key_lt_irreflexive(keys, order[i] as int);
    }
    assert(s.no_duplicates());
    s.unique_seq_to_set();
    let r = set_int_range(0, keys.len() as int);
    lemma_int_range(0, keys.len() as int);
    assert forall|v: int| s.to_set().contains(v) implies r.contains(v) by {
        let j = choose|j: int| 0 <= j < s.len() && s[j] == v;
    }
    assert(s.to_set().subset_of(r));
    vstd::set_lib::lemma_len_subset(s.to_set(), r);
    lemma_subset_equality(s.to_set(), r);
    assert(r.contains(x));
    assert(s.to_set().contains(x));
    let j = choose|j: int| 0 <= j < s.len() && s[j] == x;
    assert(order[j] == x);
}

/// A ranking is unique: the order of `key_lt` leaves no choice.
pub proof fn lemma_ranking_unique(keys: Seq<(int, Seq<char>)>, o1: Seq<usize>, o2: Seq<usize>)
    requires
        is_ranking(keys, o1),
        is_ranking(keys, o2),
    ensures
        o1 == o2,
{
    assert forall|i: int| 0 <= i < o1.len() implies o1[i] == o2[i] by {
        lemma_ranking_prefix(keys, o1, o2, i);
    }
    assert(o1 =~= o2);
}

proof fn lemma_ranking_prefix(keys: Seq<(int, Seq<char>)>, o1: Seq<usize>, o2: Seq<usize>, i: int)
    requires
        is_ranking(keys, o1),
        is_ranking(keys, o2),
        0 <= i < o1.len(),
    ensures
        forall|j: int| 0 <= j <= i ==> o1[j] == o2[j],
    decreases i,
{
    if i > 0 {
        lemma_ranking_prefix(keys, o1, o2, i - 1);
    }
    let a = o1[i] as int;
    let b = o2[i] as int;
    if a != b {
        lemma_key_lt_total(keys, a, b);
        if key_lt(keys, a, b) {
            lemma_ranking_covers(keys, o2, a);
            let j = choose|j: int| 0 <= j < o2.len() && o2[j] == a;
            if j < i {
                assert(o1[j] == o2[j]);
                assert(key_lt(keys, o1[j] as int, o1[i] as int));
                lemma_key_lt_irreflexive(keys, a);
            } else if j > i {
                assert(key_lt(keys, o2[i] as int, o2[j] as int));
                lemma_key_lt_transitive(keys, a, b, a);
                lemma_key_lt_irreflexive(keys, a);
            }
        } else {
            lemma_ranking_covers(keys, o1, b);
            let j = choose|j: int| 0 <= j < o1.len() && o1[j] == b;
            if j < i {
                assert(o1[j] == o2[j]);
                assert(key_lt(keys, o2[j] as int, o2[i] as int));
                lemma_key_lt_irreflexive(keys, b);
            } else if j > i {
                assert(key_lt(keys, o1[i] as int, o1[j] as int));
                lemma_key_lt_transitive(keys, b, a, b);
                lemma_key_lt_irreflexive(keys, b);
            }
        }
    }
}

/// Where position `k` goes into the sorted `o`: after every position that
/// comes before it, from `p` on.
spec fn insert_pos(keys: Seq<(int, Seq<char>)>, o: Seq<usize>, k: int, p: int) -> int
    decreases o.len() - p,
{
    if 0 <= p < o.len() && key_lt(keys, o[p] as int, k) {
        insert_pos(keys, o, k, p + 1)
    } else {
        p
    }
}

proof fn lemma_insert_pos(keys: Seq<(int, Seq<char>)>, o: Seq<usize>, k: int, p: int)
    requires
        0 <= p <= o.len(),
        forall|q: int| 0 <= q < p ==> key_lt(keys, #[trigger] o[q] as int, k),
    ensures
        p <= insert_pos(keys, o, k, p) <= o.len(),
        forall|q: int| 0 <= q < insert_pos(keys, o, k, p) ==> key_lt(keys, #[trigger] o[q] as int, k),
        insert_pos(keys, o, k, p) < o.len() ==> !key_lt(keys, o[insert_pos(keys, o, k, p)] as int, k),
    decreases o.len() - p,
{
    if p < o.len() && key_lt(keys, o[p] as int, k) {
        lemma_insert_pos(keys, o, k, p + 1);
    }
}

/// Every list of keys that a `Vec` can hold has a ranking.
pub proof fn lemma_ranking_exists(keys: Seq<(int, Seq<char>)>)
    requires
        keys.len() <= usize::MAX,
    ensures
        is_ranking(keys, ranked(keys)),
    decreases keys.len(),
{
    if keys.len() == 0 {
        assert(is_ranking(keys, Seq::<usize>::empty()));
    } else {
        let n = keys.len() - 1;
        let pre = keys.drop_last();
        lemma_ranking_exists(pre);
        let o = ranked(pre);
        assert forall|i: int, j: int| 0 <= i < j < o.len() implies key_lt(keys, #[trigger] o[i] as int, #[trigger] o[j] as int) by {
            assert(key_lt(pre, o[i] as int, o[j] as int));
        }
        lemma_insert_pos(keys, o, n as int, 0);
        let p = insert_pos(keys, o, n as int, 0);
        assert(pre.len() == n);
        assert(forall|q: int| 0 <= q < o.len() ==> o[q] < n);
        let o2 = o.insert(p, n as usize);
        assert forall|i: int, j: int| 0 <= i < j < o2.len() implies key_lt(keys, #[trigger] o2[i] as int, #[trigger] o2[j] as int) by {
            if j < p {
                assert(o2[i] == o[i] && o2[j] == o[j]);
            } else if j == p {
                assert(o2[i] == o[i]);
            } else if i == p {
                assert(o2[i] == n);
                assert(o2[j] == o[j - 1]);
                assert(p < o.len());
                assert(o[p] < n);
                assert(!key_lt(keys, o[p] as int, n as int));
                lemma_key_lt_total(keys, n as int, o[p] as int);
                assert(key_lt(keys, n as int, o[p] as int));
                if j - 1 > p {
                    lemma_key_lt_transitive(keys, n as int, o[p] as int, o[j - 1] as int);
                }
            } else if i < p {
                assert(o2[i] == o[i] && o2[j] == o[j - 1]);
            } else {
                assert(o2[i] == o[i - 1] && o2[j] == o[j - 1]);
            }
        }
        assert(is_ranking(keys, o2));
    }
}

/// The ranking of `keys`.
pub open spec fn ranked(keys: Seq<(int, Seq<char>)>) -> Seq<usize> {
    choose|order: Seq<usize>| is_ranking(keys, order)
}

} // verus!
