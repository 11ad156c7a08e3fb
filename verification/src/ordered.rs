//! A map from texts to values that is walked in the ascending order of its keys.

use vstd::prelude::*;

use crate::text;
use crate::text::{comes_before, same};

verus! {

/// Values under texts, each text once, in ascending order.
#[derive(Debug, PartialEq, Eq)]
pub struct OrderedMap<V> {
    entries: Vec<(String, V)>,
}

/// The keys of a list of entries.
spec fn keys_of<V>(entries: Seq<(String, V)>) -> Seq<Seq<char>> {
    Seq::new(entries.len(), |i: int| entries[i].0@)
}

/// What a list of entries maps its keys to.
spec fn map_of<V>(entries: Seq<(String, V)>) -> Map<Seq<char>, V> {
    Map::new(
        |k: Seq<char>| keys_of(entries).contains(k),
        |k: Seq<char>| entries[place_of(entries, k)].1,
    )
}

/// The place of a key.
spec fn place_of<V>(entries: Seq<(String, V)>, key: Seq<char>) -> int {
    choose|i: int| 0 <= i < entries.len() && keys_of(entries)[i] == key
}

impl<V> View for OrderedMap<V> {
    type V = Map<Seq<char>, V>;

    closed spec fn view(&self) -> Map<Seq<char>, V> {
        map_of(self.entries@)
    }
}

/// In ascending order every key has one place.
proof fn lemma_place<V>(entries: Seq<(String, V)>, i: int)
    requires
        text::ascending(keys_of(entries)),
        0 <= i < entries.len(),
    ensures
        place_of(entries, keys_of(entries)[i]) == i,
        map_of(entries).contains_key(entries[i].0@),
        map_of(entries)[entries[i].0@] == entries[i].1,
{
    let key = keys_of(entries)[i];
    assert(keys_of(entries).contains(key));
    let p = place_of(entries, key);
    assert(0 <= p < entries.len() && keys_of(entries)[p] == key);
    if p < i {
        text::lemma_before_total(key, key);
        assert(text::before(keys_of(entries)[p], keys_of(entries)[i]));
    } else if i < p {
        text::lemma_before_total(key, key);
        assert(text::before(keys_of(entries)[i], keys_of(entries)[p]));
    }
}

impl<V> OrderedMap<V> {
    #[verifier::type_invariant]
    spec fn in_order(self) -> bool {
        text::ascending(keys_of(self.entries@))
    }

    /// The keys, in the order in which they are walked.
    pub closed spec fn keys(self) -> Seq<Seq<char>> {
        keys_of(self.entries@)
    }

    /// A map with nothing in it.
    pub fn new() -> (map: OrderedMap<V>)
        ensures
            map@ == Map::<Seq<char>, V>::empty(),
            map.keys() == Seq::<Seq<char>>::empty(),
    {
        let map = OrderedMap { entries: Vec::new() };
        assert(map@ =~= Map::<Seq<char>, V>::empty());
        assert(map.keys() =~= Seq::<Seq<char>>::empty());
        map
    }

    /// How many keys there are. They ascend, and they are those that the map has values for.
    pub fn len(&self) -> (n: usize)
        ensures
            n == self.keys().len(),
            text::ascending(self.keys()),
            forall|k: Seq<char>| #[trigger] self.keys().contains(k) <==> self@.contains_key(k),
    {
        proof {
            use_type_invariant(self);
        }
        self.entries.len()
    }

    /// The key at a place.
    pub fn key_at(&self, i: usize) -> (key: &str)
        requires
            i < self.keys().len(),
        ensures
            key@ == self.keys()[i as int],
    {
        self.entries[i].0.as_str()
    }

    /// The value at a place.
    pub fn value_at(&self, i: usize) -> (value: &V)
        requires
            i < self.keys().len(),
        ensures
            self@.contains_key(self.keys()[i as int]),
            *value == self@[self.keys()[i as int]],
    {
        proof {
            use_type_invariant(self);
            lemma_place(self.entries@, i as int);
        }
        &self.entries[i].1
    }

    /// The place of a key: the one it has, or the one it would have.
    fn seek(&self, key: &str) -> (found: (usize, bool))
        ensures
            found.0 <= self.entries@.len(),
            found.1 ==> found.0 < self.entries@.len() && keys_of(self.entries@)[found.0 as int]
                == key@,
            !found.1 ==> !keys_of(self.entries@).contains(key@),
            forall|j: int|
                0 <= j < found.0 ==> text::before(#[trigger] keys_of(self.entries@)[j], key@),
            !found.1 ==> forall|j: int|
                found.0 <= j < self.entries@.len() ==> text::before(
                    key@,
                    #[trigger] keys_of(self.entries@)[j],
                ),
    {
        proof {
            use_type_invariant(self);
        }
        let ghost keys = keys_of(self.entries@);
        let mut at: usize = 0;
        while at < self.entries.len() && comes_before(self.entries[at].0.as_str(), key)
            invariant
                at <= self.entries@.len(),
                keys == keys_of(self.entries@),
                forall|j: int| 0 <= j < at ==> text::before(#[trigger] keys[j], key@),
            decreases self.entries@.len() - at,
        {
            assert(keys[at as int] == self.entries@[at as int].0@);
            at = at + 1;
        }
        if at < self.entries.len() && same(self.entries[at].0.as_str(), key) {
            return (at, true);
        }
        proof {
            assert forall|j: int| at <= j < keys.len() implies text::before(
                key@,
                #[trigger] keys[j],
            ) by {
                assert(keys[at as int] == self.entries@[at as int].0@);
                text::lemma_before_total(keys[at as int], key@);
                if j > at {
                    text::lemma_before_chains(key@, keys[at as int], keys[j]);
                }
            }
            if keys.contains(key@) {
                let p = choose|p: int| 0 <= p < keys.len() && keys[p] == key@;
                text::lemma_before_total(key@, key@);
                if p < at {
                    assert(text::before(keys[p], key@));
                } else {
                    assert(text::before(key@, keys[p]));
                }
            }
        }
        (at, false)
    }

    /// The value under a key.
    pub fn get(&self, key: &str) -> (value: Option<&V>)
        ensures
            match value {
                Some(v) => self@.contains_key(key@) && self@[key@] == *v,
                None => !self@.contains_key(key@),
            },
    {
        let (at, found) = self.seek(key);
        if found {
            proof {
                use_type_invariant(self);
                lemma_place(self.entries@, at as int);
            }
            Some(&self.entries[at].1)
        } else {
            None
        }
    }

    /// Whether there is a value under a key.
    pub fn has(&self, key: &str) -> (has: bool)
        ensures
            has == self@.contains_key(key@),
    {
        match self.get(key) {
            Some(_) => true,
            None => false,
        }
    }

    /// Puts a value under a key, in the place of the one that was there.
    pub fn insert(&mut self, key: String, value: V)
        ensures
            final(self)@ == old(self)@.insert(key@, value),
    {
        proof {
            use_type_invariant(&*self);
        }
        let (at, found) = self.seek(key.as_str());
        let ghost was = self.entries@;
        let ghost text = key@;
        let mut entries: Vec<(String, V)> = Vec::new();
        std::mem::swap(&mut entries, &mut self.entries);
        if found {
            entries.remove(at);
        }
        entries.insert(at, (key, value));
        proof {
            let now = entries@;
            let keys = keys_of(now);
            if found {
                assert(now =~= was.update(at as int, now[at as int]));
                assert(keys =~= keys_of(was));
            } else {
                assert(now =~= was.insert(at as int, now[at as int]));
                assert(keys =~= keys_of(was).insert(at as int, text));
            }
            assert(text::ascending(keys)) by {
                assert forall|i: int, j: int| 0 <= i < j < keys.len() implies text::before(
                    #[trigger] keys[i],
                    #[trigger] keys[j],
                ) by {
                    if !found {
                        if j == at {
                            assert(text::before(keys_of(was)[i], text));
                        } else if i == at {
                            assert(text::before(text, keys_of(was)[j - 1]));
                        } else {
                            let a = if i < at { i } else { i - 1 };
                            let b = if j < at { j } else { j - 1 };
                            assert(text::before(keys_of(was)[a], keys_of(was)[b]));
                        }
                    } else {
                        assert(text::before(keys_of(was)[i], keys_of(was)[j]));
                    }
                }
            }
            assert forall|k: Seq<char>|
                #[trigger] map_of(now).contains_key(k) <==> map_of(was).insert(
                    text,
                    value,
                ).contains_key(k) by {
                if map_of(now).contains_key(k) {
                    let p = choose|p: int| 0 <= p < now.len() && keys[p] == k;
                    if p != at {
                        let q = if found || p < at { p } else { p - 1 };
                        assert(keys_of(was)[q] == k);
                    }
                }
                if keys_of(was).contains(k) {
                    let q = choose|q: int| 0 <= q < was.len() && keys_of(was)[q] == k;
                    let p = if found || q < at { q } else { q + 1 };
                    assert(keys[p] == k);
                }
                assert(keys[at as int] == text);
            }
            assert forall|k: Seq<char>| #[trigger] map_of(now).contains_key(k) implies map_of(
                now,
            )[k] == map_of(was).insert(text, value)[k] by {
                let p = choose|p: int| 0 <= p < now.len() && keys[p] == k;
                lemma_place(now, p);
                if p == at {
                } else {
                    let q = if found || p < at { p } else { p - 1 };
                    lemma_place(was, q);
                    assert(was[q] == now[p]);
                    if k == text {
                        lemma_place(now, at as int);
                    }
                }
            }
            assert(map_of(now) =~= map_of(was).insert(text, value));
        }
        self.entries = entries;
    }

    /// Drops the value under a key.
    pub fn remove(&mut self, key: &str)
        ensures
            final(self)@ == old(self)@.remove(key@),
    {
        proof {
            use_type_invariant(&*self);
        }
        let (at, found) = self.seek(key);
        if !found {
            assert(self@ =~= self@.remove(key@));
            return;
        }
        let ghost was = self.entries@;
        let mut entries: Vec<(String, V)> = Vec::new();
        std::mem::swap(&mut entries, &mut self.entries);
        entries.remove(at);
        proof {
            let now = entries@;
            let keys = keys_of(now);
            assert(keys =~= keys_of(was).remove(at as int));
            assert(text::ascending(keys)) by {
                assert forall|i: int, j: int| 0 <= i < j < keys.len() implies text::before(
                    #[trigger] keys[i],
                    #[trigger] keys[j],
                ) by {
                    let a = if i < at { i } else { i + 1 };
                    let b = if j < at { j } else { j + 1 };
                    assert(text::before(keys_of(was)[a], keys_of(was)[b]));
                }
            }
            lemma_place(was, at as int);
            assert forall|k: Seq<char>| #[trigger] map_of(now).contains_key(k) <==> map_of(
                was,
            ).remove(key@).contains_key(k) by {
                if map_of(now).contains_key(k) {
                    let p = choose|p: int| 0 <= p < now.len() && keys[p] == k;
                    let q = if p < at { p } else { p + 1 };
                    assert(keys_of(was)[q] == k);
                    lemma_place(was, q);
                }
                if keys_of(was).contains(k) && k != key@ {
                    let q = choose|q: int| 0 <= q < was.len() && keys_of(was)[q] == k;
                    let p = if q < at { q } else { q - 1 };
                    assert(keys[p] == k);
                }
            }
            assert forall|k: Seq<char>| #[trigger] map_of(now).contains_key(k) implies map_of(
                now,
            )[k] == map_of(was)[k] by {
                let p = choose|p: int| 0 <= p < now.len() && keys[p] == k;
                let q = if p < at { p } else { p + 1 };
                lemma_place(now, p);
                lemma_place(was, q);
            }
            assert(map_of(now) =~= map_of(was).remove(key@));
        }
        self.entries = entries;
    }

    /// Keeps the values whose place is marked, and drops the others.
    pub fn keep(&mut self, marks: &Vec<bool>)
        requires
            marks@.len() == old(self).keys().len(),
        ensures
            forall|k: Seq<char>| #[trigger]
                final(self)@.contains_key(k) <==> exists|i: int|
                    0 <= i < marks@.len() && marks@[i] && #[trigger] old(self).keys()[i] == k,
            forall|k: Seq<char>| #[trigger]
                final(self)@.contains_key(k) ==> old(self)@.contains_key(k) && final(self)@[k]
                    == old(self)@[k],
    {
        proof {
            use_type_invariant(&*self);
        }
        let ghost was = self.entries@;
        let mut entries: Vec<(String, V)> = Vec::new();
        std::mem::swap(&mut entries, &mut self.entries);
        let mut i: usize = entries.len();
        assert(was.take(i as int) + marked(was, marks@, i as int) =~= was);
        while i > 0
            invariant
                i <= was.len(),
                was.len() == marks@.len(),
                entries@ == was.take(i as int) + marked(was, marks@, i as int),
            decreases i,
        {
            i = i - 1;
            let ghost before = entries@;
            assert(before[i as int] == was[i as int]);
            if !marks[i] {
                entries.remove(i);
            }
            assert(entries@ =~= was.take(i as int) + marked(was, marks@, i as int));
        }
        proof {
            let now = entries@;
            assert(now =~= marked(was, marks@, 0));
            lemma_marked(was, marks@, 0);
            assert forall|k: Seq<char>| #[trigger] map_of(now).contains_key(k) <==> exists|i: int|
                0 <= i < marks@.len() && marks@[i] && #[trigger] keys_of(was)[i] == k by {
                if map_of(now).contains_key(k) {
                    let p = choose|p: int| 0 <= p < now.len() && keys_of(now)[p] == k;
                    let b = source_of(was, marks@, 0, p);
                    assert(keys_of(was)[b] == k);
                }
                if exists|i: int|
                    0 <= i < marks@.len() && marks@[i] && #[trigger] keys_of(was)[i] == k {
                    let b = choose|b: int|
                        0 <= b < marks@.len() && marks@[b] && #[trigger] keys_of(was)[b] == k;
                    assert(now.contains(was[b]));
                    let p = choose|p: int| 0 <= p < now.len() && now[p] == was[b];
                    assert(keys_of(now)[p] == k);
                }
            }
            assert forall|k: Seq<char>| #[trigger] map_of(now).contains_key(k) implies map_of(
                was,
            ).contains_key(k) && map_of(now)[k] == map_of(was)[k] by {
                let p = choose|p: int| 0 <= p < now.len() && keys_of(now)[p] == k;
                let b = source_of(was, marks@, 0, p);
                assert(now[p] == was[b]);
                lemma_place(now, p);
                lemma_place(was, b);
            }
        }
        self.entries = entries;
    }
}

/// The marked entries from place `i` on.
spec fn marked<V>(entries: Seq<(String, V)>, marks: Seq<bool>, i: int) -> Seq<(String, V)>
    decreases entries.len() - i,
{
    if i < 0 || i >= entries.len() {
        seq![]
    } else if marks[i] {
        seq![entries[i]] + marked(entries, marks, i + 1)
    } else {
        marked(entries, marks, i + 1)
    }
}

/// Where the entry at place `p` of the marked ones came from.
spec fn source_of<V>(entries: Seq<(String, V)>, marks: Seq<bool>, i: int, p: int) -> int {
    choose|b: int|
        i <= b < entries.len() && marks[b] && entries[b] == marked(entries, marks, i)[p]
}

/// The marked entries are those that are marked, in the same order.
proof fn lemma_marked<V>(entries: Seq<(String, V)>, marks: Seq<bool>, i: int)
    requires
        0 <= i <= entries.len(),
        text::ascending(keys_of(entries)),
    ensures
        text::ascending(keys_of(marked(entries, marks, i))),
        forall|p: int|
            0 <= p < marked(entries, marks, i).len() ==> {
                let b = #[trigger] source_of(entries, marks, i, p);
                i <= b < entries.len() && marks[b] && entries[b] == marked(entries, marks, i)[p]
            },
        forall|b: int|
            i <= b < entries.len() && #[trigger] marks[b] ==> marked(entries, marks, i).contains(
                entries[b],
            ),
    decreases entries.len() - i,
{
    if i < entries.len() {
        lemma_marked(entries, marks, i + 1);
        let rest = marked(entries, marks, i + 1);
        let all = marked(entries, marks, i);
        assert forall|p: int| 0 <= p < all.len() implies {
            let b = #[trigger] source_of(entries, marks, i, p);
            i <= b < entries.len() && marks[b] && entries[b] == all[p]
        } by {
            if marks[i] && p == 0 {
                assert(entries[i] == all[p]);
            } else {
                let q = if marks[i] { p - 1 } else { p };
                let c = source_of(entries, marks, i + 1, q);
                assert(rest[q] == all[p]);
                assert(i <= c < entries.len() && marks[c] && entries[c] == all[p]);
            }
        }
        assert forall|b: int| i <= b < entries.len() && #[trigger] marks[b] implies all.contains(
            entries[b],
        ) by {
            if b == i {
                assert(all[0] == entries[b]);
            } else {
                let q = choose|q: int| 0 <= q < rest.len() && rest[q] == entries[b];
                let p = if marks[i] { q + 1 } else { q };
                assert(all[p] == entries[b]);
            }
        }
        if marks[i] {
            assert forall|x: int, y: int| 0 <= x < y < all.len() implies text::before(
                #[trigger] keys_of(all)[x],
                #[trigger] keys_of(all)[y],
            ) by {
                if x == 0 {
                    let c = source_of(entries, marks, i + 1, y - 1);
                    assert(rest[y - 1] == all[y]);
                    assert(text::before(keys_of(entries)[i], keys_of(entries)[c]));
                } else {
                    assert(keys_of(rest)[x - 1] == keys_of(all)[x]);
                    assert(keys_of(rest)[y - 1] == keys_of(all)[y]);
                }
            }
        }
    }
}

} // verus!
