//! What lists, options and results of values with a view stand for.

use vstd::prelude::*;

verus! {

/// What each value of a list stands for.
pub open spec fn views<T: View>(v: Seq<T>) -> Seq<T::V> {
    Seq::new(v.len(), |i: int| v[i]@)
}

/// What pairs of texts spell.
pub open spec fn pairs(v: Seq<(String, String)>) -> Seq<(Seq<char>, Seq<char>)> {
    Seq::new(v.len(), |i: int| (v[i].0@, v[i].1@))
}

/// What an optional value stands for.
pub open spec fn opt<T: View>(o: Option<T>) -> Option<T::V> {
    match o {
        Some(t) => Some(t@),
        None => None,
    }
}

/// What a value or the words of a failure stand for.
pub open spec fn outcome<T: View>(r: Result<T, String>) -> Result<T::V, Seq<char>> {
    match r {
        Ok(t) => Ok(t@),
        Err(words) => Err(words@),
    }
}

/// What an optional value or the words of a failure stand for.
pub open spec fn outcome_opt<T: View>(r: Result<Option<T>, String>) -> Result<
    Option<T::V>,
    Seq<char>,
> {
    match r {
        Ok(t) => Ok(opt(t)),
        Err(words) => Err(words@),
    }
}

/// Putting a value behind a list puts what it stands for behind what the list stands for.
pub proof fn lemma_views_push<T: View>(v: Seq<T>, t: T)
    ensures
        views(v.push(t)) == views(v).push(t@),
{
    assert(views(v.push(t)) =~= views(v).push(t@));
}

/// What each value of a map stands for.
pub open spec fn map_views<V: View>(m: Map<Seq<char>, V>) -> Map<Seq<char>, V::V> {
    m.map_values(|v: V| v@)
}

/// Putting a value under a key puts what it stands for there.
pub proof fn lemma_map_views_insert<V: View>(m: Map<Seq<char>, V>, k: Seq<char>, v: V)
    ensures
        map_views(m.insert(k, v)) == map_views(m).insert(k, v@),
{
    assert(map_views(m.insert(k, v)) =~= map_views(m).insert(k, v@));
}

/// Dropping the value under a key drops what it stands for.
pub proof fn lemma_map_views_remove<V: View>(m: Map<Seq<char>, V>, k: Seq<char>)
    ensures
        map_views(m.remove(k)) == map_views(m).remove(k),
{
    assert(map_views(m.remove(k)) =~= map_views(m).remove(k));
}

/// The values in the opposite order.
pub fn reversed<T>(v: Vec<T>) -> (out: Vec<T>)
    ensures
        out@ == v@.reverse(),
{
    let ghost all = v@;
    let mut v = v;
    let mut out: Vec<T> = Vec::new();
    assert(all.reverse().take(0) =~= Seq::<T>::empty());
    while v.len() > 0
        invariant
            v@.len() + out@.len() == all.len(),
            v@ == all.take(v@.len() as int),
            out@ == all.reverse().take(out@.len() as int),
        decreases v@.len(),
    {
        let ghost left = v@;
        let ghost done = out@;
        match v.pop() {
            Some(t) => {
                out.push(t);
                assert(v@ =~= all.take(v@.len() as int));
                assert(t == all[left.len() - 1]);
                assert(out@ =~= all.reverse().take(out@.len() as int));
            },
            None => {},
        }
    }
    assert(out@ =~= all.reverse());
    out
}

} // verus!
