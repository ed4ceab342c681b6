//! The keys of an ordered map, in ascending order.
use std::collections::BTreeMap;
use vstd::laws_cmp::obeys_cmp;
use vstd::laws_eq::obeys_concrete_eq;
use vstd::prelude::*;
use vstd::std_specs::cmp::{OrdSpec, PartialOrdSpec};
use vstd::std_specs::iter::IteratorSpec;

verus! {

/// `ks` lists the elements of `s`, each once, in ascending order.
pub open spec fn lists_in_order<K: Ord>(ks: Seq<K>, s: Set<K>) -> bool {
    &&& ks.to_set() == s
    &&& forall|i: int, j: int| 0 <= i < j < ks.len() ==> #[trigger] ks[i].cmp_spec(&#[trigger] ks[j]) is Less
}

/// The elements of a finite set in ascending order.
pub open spec fn in_order<K: Ord>(s: Set<K>) -> Seq<K> {
    choose|ks: Seq<K>| lists_in_order(ks, s)
}

/// Two ascending listings of one set are the same.
pub proof fn lemma_order_unique<K: Ord>(a: Seq<K>, b: Seq<K>, s: Set<K>)
    requires
        obeys_cmp::<K>(),
        lists_in_order(a, s),
        lists_in_order(b, s),
    ensures
        a == b,
    decreases a.len(),
{
    reveal(vstd::laws_cmp::obeys_cmp_ord);
    reveal(vstd::laws_cmp::obeys_cmp_partial_ord);
    reveal(vstd::laws_cmp::obeys_partial_cmp_spec_properties);
    reveal(vstd::laws_eq::obeys_eq_spec_properties);
    if a.len() == 0 {
        if b.len() > 0 {
            assert(s.contains(b[0]));
            assert(a.contains(b[0]));
        }
        assert(a =~= b);
    } else {
        assert(s.contains(a[0]));
        assert(b.contains(a[0]));
        assert(s.contains(b[0]));
        assert(a.contains(b[0]));
        let i = choose|i: int| 0 <= i < b.len() && b[i] == a[0];
        let j = choose|j: int| 0 <= j < a.len() && a[j] == b[0];
        assert(a[0] == b[0]) by {
            if i > 0 && j > 0 {
                assert(b[0].cmp_spec(&b[i]) is Less);
                assert(a[0].cmp_spec(&a[j]) is Less);
                assert(false);
            }
        }
        let x = a[0];
        let a1 = a.drop_first();
        let b1 = b.drop_first();
        assert(forall|k: int| 0 < k < a.len() ==> a[0].cmp_spec(&#[trigger] a[k]) is Less);
        assert(forall|k: int| 0 < k < b.len() ==> b[0].cmp_spec(&#[trigger] b[k]) is Less);
        assert(x.cmp_spec(&x) !is Less);
        assert(a1.to_set() =~= s.remove(x)) by {
            assert forall|y: K| a1.to_set().contains(y) <==> s.remove(x).contains(y) by {
                if a1.contains(y) {
                    let k = choose|k: int| 0 <= k < a1.len() && a1[k] == y;
                    assert(a[k + 1] == y);
                    assert(a.contains(y));
                }
                if s.remove(x).contains(y) {
                    assert(a.contains(y));
                    let k = choose|k: int| 0 <= k < a.len() && a[k] == y;
                    assert(a1[k - 1] == y);
                }
            }
        }
        assert(b1.to_set() =~= s.remove(x)) by {
            assert forall|y: K| b1.to_set().contains(y) <==> s.remove(x).contains(y) by {
                if b1.contains(y) {
                    let k = choose|k: int| 0 <= k < b1.len() && b1[k] == y;
                    assert(b[k + 1] == y);
                    assert(b.contains(y));
                }
                if s.remove(x).contains(y) {
                    assert(b.contains(y));
                    let k = choose|k: int| 0 <= k < b.len() && b[k] == y;
                    assert(b1[k - 1] == y);
                }
            }
        }
        lemma_order_unique(a1, b1, s.remove(x));
        assert(a =~= seq![x] + a1);
        assert(b =~= seq![x] + b1);
    }
}

/// An ascending listing names nothing twice.
pub proof fn lemma_distinct<K: Ord>(ks: Seq<K>, s: Set<K>)
    requires
        obeys_cmp::<K>(),
        lists_in_order(ks, s),
    ensures
        ks.no_duplicates(),
{
    reveal(vstd::laws_cmp::obeys_cmp_ord);
    reveal(vstd::laws_cmp::obeys_cmp_partial_ord);
    reveal(vstd::laws_cmp::obeys_partial_cmp_spec_properties);
    reveal(vstd::laws_eq::obeys_eq_spec_properties);
    assert forall|i: int, j: int| 0 <= i < j < ks.len() implies ks[i] != ks[j] by {
        assert(ks[i].cmp_spec(&ks[j]) is Less);
        assert(ks[j].cmp_spec(&ks[j]) !is Less);
    }
}

/// Every finite set has an ascending listing.
pub proof fn lemma_listing_exists<K: Ord>(s: Set<K>)
    requires
        obeys_cmp::<K>(),
        obeys_concrete_eq::<K>(),
        s.finite(),
    ensures
        lists_in_order(in_order(s), s),
    decreases s.len(),
{
    reveal(vstd::laws_eq::obeys_concrete_eq);
    reveal(vstd::laws_cmp::obeys_cmp_ord);
    reveal(vstd::laws_cmp::obeys_cmp_partial_ord);
    reveal(vstd::laws_cmp::obeys_partial_cmp_spec_properties);
    reveal(vstd::laws_eq::obeys_eq_spec_properties);
    if s.len() == 0 {
        assert(s =~= Set::empty());
        assert(Seq::<K>::empty().to_set() =~= s);
        assert(lists_in_order(Seq::<K>::empty(), s));
    } else {
        let not_above = |a: K, b: K| a.cmp_spec(&b) !is Greater;
        assert(vstd::relations::total_ordering(not_above)) by {
            assert(vstd::relations::reflexive(not_above));
            assert(vstd::relations::antisymmetric(not_above));
            assert(vstd::relations::strongly_connected(not_above));
            assert forall|a: K, b: K, c: K| #[trigger]
                not_above(a, b) && #[trigger] not_above(b, c) implies not_above(a, c) by {
                assert(a.partial_cmp_spec(&b) == Some(a.cmp_spec(&b)));
                assert(b.partial_cmp_spec(&c) == Some(b.cmp_spec(&c)));
                assert(a.partial_cmp_spec(&c) == Some(a.cmp_spec(&c)));
            }
        }
        s.find_unique_maximal_ensures(not_above);
        let top = s.find_unique_maximal(not_above);
        let rest = in_order(s.remove(top));
        lemma_listing_exists(s.remove(top));
        let all = rest.push(top);
        assert(all.to_set() =~= s) by {
            assert forall|k: K| all.contains(k) <==> s.contains(k) by {
                if all.contains(k) {
                    let i = choose|i: int| 0 <= i < all.len() && all[i] == k;
                    if i < rest.len() {
                        assert(rest.contains(k));
                        assert(rest.to_set().contains(k));
                    }
                }
                if s.contains(k) {
                    if k == top {
                        assert(all.last() == k);
                    } else {
                        assert(rest.to_set().contains(k));
                        let i = choose|i: int| 0 <= i < rest.len() && rest[i] == k;
                        assert(all[i] == k);
                    }
                }
            }
        }
        assert forall|i: int, j: int| 0 <= i < j < all.len() implies #[trigger] all[i].cmp_spec(
            &#[trigger] all[j],
        ) is Less by {
            if j == rest.len() {
                assert(rest.contains(all[i]));
                assert(rest.to_set().contains(all[i]));
                assert(s.contains(all[i]) && all[i] != top);
                assert(not_above(all[i], top) || not_above(top, all[i]));
            }
        }
        assert(lists_in_order(all, s));
    }
}

/// The keys of `m` in ascending order.
pub fn keys_in_order<K: Ord + Copy, V>(m: &BTreeMap<K, V>) -> (ks: Vec<K>)
    requires
        obeys_cmp::<K>(),
    ensures
        lists_in_order(ks@, m@.dom()),
        ks@ == in_order(m@.dom()),
{
    broadcast use vstd::std_specs::btree::group_btree_axioms;

    let mut ks: Vec<K> = Vec::new();
    let entries = m.iter();
    let ghost all = entries.remaining();
    let ghost order = all.map_values(|kv: (&K, &V)| *kv.0);
    assert(vstd::std_specs::btree::increasing_seq(order));
    for (k, _v) in it: entries
        invariant
            it.seq() == all,
            order == all.map_values(|kv: (&K, &V)| *kv.0),
            ks@ == order.take(it.index()),
    {
        ks.push(*k);
        assert(ks@ =~= order.take(it.index() + 1));
    }
    assert(ks@ =~= order);
    proof {
        assert(ks@.to_set() =~= m@.dom()) by {
            assert forall|k: K| ks@.contains(k) <==> m@.dom().contains(k) by {
                if ks@.contains(k) {
                    let i = choose|i: int| 0 <= i < ks@.len() && ks@[i] == k;
                    assert(m@.contains_key(*all[i].0));
                }
                if m@.contains_key(k) {
                    assert(all.contains((&k, &m@[k])));
                    let i = choose|i: int| 0 <= i < all.len() && all[i] == (&k, &m@[k]);
                    assert(ks@[i] == k);
                }
            }
        }
        assert(lists_in_order(ks@, m@.dom()));
        lemma_order_unique(ks@, in_order(m@.dom()), m@.dom());
    }
    ks
}

/// A listing of operations is ascending and names every one.
pub proof fn law_operations_are_listed_in_order(s: Set<usize>)
    requires
        s.finite(),
    ensures
        forall|i: int, j: int|
            0 <= i < j < in_order(s).len() ==> #[trigger] in_order(s)[i] < #[trigger] in_order(s)[j],
        forall|k: usize| s.contains(k) <==> #[trigger] in_order(s).contains(k),
{
    let ks = in_order(s);
    lemma_listing_exists(s);
    assert(ks.to_set() == s);
    assert forall|i: int, j: int| 0 <= i < j < ks.len() implies #[trigger] ks[i]
        < #[trigger] ks[j] by {
        assert(ks[i].cmp_spec(&ks[j]) is Less);
    }
    assert forall|k: usize| s.contains(k) <==> #[trigger] ks.contains(k) by {
        assert(ks.to_set().contains(k) <==> ks.contains(k));
    }
}

/// So is a listing of groups, or of communicators.
pub proof fn law_groups_are_listed_in_order(s: Set<u64>)
    requires
        s.finite(),
    ensures
        forall|i: int, j: int|
            0 <= i < j < in_order(s).len() ==> #[trigger] in_order(s)[i] < #[trigger] in_order(s)[j],
        forall|k: u64| s.contains(k) <==> #[trigger] in_order(s).contains(k),
{
    let ks = in_order(s);
    lemma_listing_exists(s);
    assert(ks.to_set() == s);
    assert forall|i: int, j: int| 0 <= i < j < ks.len() implies #[trigger] ks[i]
        < #[trigger] ks[j] by {
        assert(ks[i].cmp_spec(&ks[j]) is Less);
    }
    assert forall|k: u64| s.contains(k) <==> #[trigger] ks.contains(k) by {
        assert(ks.to_set().contains(k) <==> ks.contains(k));
    }
}

/// So is a listing of proxy operations.
pub proof fn law_proxy_operations_are_listed_in_order(s: Set<u32>)
    requires
        s.finite(),
    ensures
        forall|i: int, j: int|
            0 <= i < j < in_order(s).len() ==> #[trigger] in_order(s)[i] < #[trigger] in_order(s)[j],
        forall|k: u32| s.contains(k) <==> #[trigger] in_order(s).contains(k),
{
    let ks = in_order(s);
    lemma_listing_exists(s);
    assert(ks.to_set() == s);
    assert forall|i: int, j: int| 0 <= i < j < ks.len() implies #[trigger] ks[i]
        < #[trigger] ks[j] by {
        assert(ks[i].cmp_spec(&ks[j]) is Less);
    }
    assert forall|k: u32| s.contains(k) <==> #[trigger] ks.contains(k) by {
        assert(ks.to_set().contains(k) <==> ks.contains(k));
    }
}

/// So is a listing of processes.
pub proof fn law_processes_are_listed_in_order(s: Set<i32>)
    requires
        s.finite(),
    ensures
        forall|i: int, j: int|
            0 <= i < j < in_order(s).len() ==> #[trigger] in_order(s)[i] < #[trigger] in_order(s)[j],
        forall|k: i32| s.contains(k) <==> #[trigger] in_order(s).contains(k),
{
    let ks = in_order(s);
    lemma_listing_exists(s);
    assert(ks.to_set() == s);
    assert forall|i: int, j: int| 0 <= i < j < ks.len() implies #[trigger] ks[i]
        < #[trigger] ks[j] by {
        assert(ks[i].cmp_spec(&ks[j]) is Less);
    }
    assert forall|k: i32| s.contains(k) <==> #[trigger] ks.contains(k) by {
        assert(ks.to_set().contains(k) <==> ks.contains(k));
    }
}

} // verus!
