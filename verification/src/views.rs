//! Views of containers whose elements have views of their own.
use vstd::prelude::*;

verus! {

/// The views of the elements of `s`, in order.
pub open spec fn view_seq<T: View>(s: Seq<T>) -> Seq<T::V> {
    Seq::new(s.len(), |i: int| s[i]@)
}

/// The map that holds, under each key of `m`, the view of what `m` holds there.
pub open spec fn view_map<K, T: View>(m: Map<K, T>) -> Map<K, T::V> {
    Map::new(|k: K| m.contains_key(k), |k: K| m[k]@)
}

/// The sequence that `m` holds under `k`, empty where it holds none.
pub open spec fn seq_at<K, T>(m: Map<K, Seq<T>>, k: K) -> Seq<T> {
    if m.contains_key(k) {
        m[k]
    } else {
        Seq::empty()
    }
}

pub broadcast proof fn view_seq_push<T: View>(s: Seq<T>, t: T)
    ensures
        #[trigger] view_seq(s.push(t)) == view_seq(s).push(t@),
{
    assert(view_seq(s.push(t)) =~= view_seq(s).push(t@));
}

pub broadcast proof fn view_seq_add<T: View>(s: Seq<T>, t: Seq<T>)
    ensures
        #[trigger] view_seq(s + t) == view_seq(s) + view_seq(t),
{
    assert(view_seq(s + t) =~= view_seq(s) + view_seq(t));
}

pub broadcast proof fn view_seq_subrange<T: View>(s: Seq<T>, i: int, j: int)
    requires
        0 <= i <= j <= s.len(),
    ensures
        #[trigger] view_seq(s.subrange(i, j)) == view_seq(s).subrange(i, j),
{
    assert(view_seq(s.subrange(i, j)) =~= view_seq(s).subrange(i, j));
}

pub broadcast proof fn view_seq_update<T: View>(s: Seq<T>, i: int, t: T)
    requires
        0 <= i < s.len(),
    ensures
        #[trigger] view_seq(s.update(i, t)) == view_seq(s).update(i, t@),
{
    assert(view_seq(s.update(i, t)) =~= view_seq(s).update(i, t@));
}

pub broadcast proof fn view_map_insert<K, T: View>(m: Map<K, T>, k: K, t: T)
    ensures
        #[trigger] view_map(m.insert(k, t)) == view_map(m).insert(k, t@),
{
    assert(view_map(m.insert(k, t)) =~= view_map(m).insert(k, t@));
}

pub broadcast proof fn view_map_remove<K, T: View>(m: Map<K, T>, k: K)
    ensures
        #[trigger] view_map(m.remove(k)) == view_map(m).remove(k),
{
    assert(view_map(m.remove(k)) =~= view_map(m).remove(k));
}

pub broadcast proof fn view_map_empty<K, T: View>()
    ensures
        #[trigger] view_map(Map::<K, T>::empty()) == Map::<K, T::V>::empty(),
{
    assert(view_map(Map::<K, T>::empty()) =~= Map::<K, T::V>::empty());
}

pub broadcast proof fn view_seq_empty<T: View>()
    ensures
        #[trigger] view_seq(Seq::<T>::empty()) == Seq::<T::V>::empty(),
{
    assert(view_seq(Seq::<T>::empty()) =~= Seq::<T::V>::empty());
}

pub broadcast group group_views {
    view_seq_push,
    view_seq_add,
    view_seq_subrange,
    view_seq_update,
    view_seq_empty,
    view_map_insert,
    view_map_remove,
    view_map_empty,
}

} // verus!
