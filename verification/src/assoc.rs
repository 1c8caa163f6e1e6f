//! A name-keyed association list, the executable backing of every mapping in
//! this crate: store namespaces, the variable cache, profile assignments and
//! the profile registry.
//!
//! The abstraction is a mathematical `Map<Seq<char>, V>`; well-formed values
//! keep their keys unique, so every operation is a plain map operation.

use vstd::prelude::*;

verus! {

/// The mathematical map described by an association sequence; a later pair
/// overrides an earlier one with the same key.
pub open spec fn map_of<V>(s: Seq<(Seq<char>, V)>) -> Map<Seq<char>, V>
    decreases s.len(),
{
    if s.len() == 0 {
        Map::empty()
    } else {
        map_of(s.drop_last()).insert(s.last().0, s.last().1)
    }
}

/// No key occurs twice in the association sequence.
pub open spec fn unique_keys<V>(s: Seq<(Seq<char>, V)>) -> bool {
    forall|i: int, j: int| 0 <= i < j < s.len() ==> s[i].0 != s[j].0
}

/// A key of `map_of(s)` is exactly a key of some pair of `s`.
pub proof fn lemma_map_of_dom<V>(s: Seq<(Seq<char>, V)>)
    ensures
        forall|k: Seq<char>|
            #[trigger] map_of(s).contains_key(k) <==> exists|i: int| 0 <= i < s.len() && s[i].0 == k,
    decreases s.len(),
{
    if s.len() == 0 {
    } else {
        lemma_map_of_dom(s.drop_last());
        assert forall|k: Seq<char>| #[trigger] map_of(s).contains_key(k) implies exists|i: int|
            0 <= i < s.len() && s[i].0 == k by {
            if k == s.last().0 {
                assert(s[s.len() - 1].0 == k);
            } else {
                assert(map_of(s.drop_last()).contains_key(k));
                let i = choose|i: int| 0 <= i < s.drop_last().len() && s.drop_last()[i].0 == k;
                assert(s[i].0 == k);
            }
        }
        assert forall|k: Seq<char>| (exists|i: int| 0 <= i < s.len() && s[i].0 == k) implies #[trigger] map_of(
            s,
        ).contains_key(k) by {
            let i = choose|i: int| 0 <= i < s.len() && s[i].0 == k;
            if i < s.len() - 1 {
                assert(s.drop_last()[i].0 == k);
                assert(map_of(s.drop_last()).contains_key(k));
            }
        }
    }
}

/// With unique keys, the pair at index `i` gives the value of `map_of` at its
/// key.
pub proof fn lemma_map_of_index<V>(s: Seq<(Seq<char>, V)>, i: int)
    requires
        unique_keys(s),
        0 <= i < s.len(),
    ensures
        map_of(s).contains_key(s[i].0),
        map_of(s)[s[i].0] == s[i].1,
    decreases s.len(),
{
    if i == s.len() - 1 {
    } else {
        assert(s.drop_last()[i] == s[i]);
        lemma_map_of_index(s.drop_last(), i);
        assert(s[i].0 != s.last().0);
    }
}

/// With unique keys, replacing the value of the pair at index `i` updates the
/// map at that pair's key.
pub proof fn lemma_map_of_update<V>(s: Seq<(Seq<char>, V)>, i: int, v: V)
    requires
        unique_keys(s),
        0 <= i < s.len(),
    ensures
        map_of(s.update(i, (s[i].0, v))) =~= map_of(s).insert(s[i].0, v),
    decreases s.len(),
{
    let t = s.update(i, (s[i].0, v));
    if i == s.len() - 1 {
        assert(t.drop_last() =~= s.drop_last());
        assert(t.last() == (s[i].0, v));
    } else {
        assert(t.drop_last() =~= s.drop_last().update(i, (s[i].0, v)));
        assert(s.drop_last()[i] == s[i]);
        lemma_map_of_update(s.drop_last(), i, v);
        assert(t.last() == s.last());
        assert(s[i].0 != s.last().0);
        assert(map_of(t) =~= map_of(s).insert(s[i].0, v));
    }
}

/// With unique keys, dropping the pair at index `i` removes the map entry at
/// that pair's key.
pub proof fn lemma_map_of_remove<V>(s: Seq<(Seq<char>, V)>, i: int)
    requires
        unique_keys(s),
        0 <= i < s.len(),
    ensures
        map_of(s.remove(i)) =~= map_of(s).remove(s[i].0),
    decreases s.len(),
{
    let t = s.remove(i);
    if i == s.len() - 1 {
        assert(t =~= s.drop_last());
        lemma_map_of_dom(s.drop_last());
        assert(forall|j: int| 0 <= j < s.drop_last().len() ==> s.drop_last()[j].0 != s[i].0);
        assert(!map_of(s.drop_last()).contains_key(s[i].0));
        assert(map_of(t) =~= map_of(s).remove(s[i].0));
    } else {
        assert(t.drop_last() =~= s.drop_last().remove(i));
        assert(s.drop_last()[i] == s[i]);
        lemma_map_of_remove(s.drop_last(), i);
        assert(t.last() == s.last());
        assert(s[i].0 != s.last().0);
        assert(map_of(t) =~= map_of(s).remove(s[i].0));
    }
}

/// With unique keys, the map has exactly one entry per pair.
pub proof fn lemma_map_of_len<V>(s: Seq<(Seq<char>, V)>)
    requires
        unique_keys(s),
    ensures
        map_of(s).dom().finite(),
        map_of(s).dom().len() == s.len(),
    decreases s.len(),
{
    if s.len() == 0 {
        assert(map_of(s).dom() =~= Set::<Seq<char>>::empty());
    } else {
        lemma_map_of_len(s.drop_last());
        lemma_map_of_dom(s.drop_last());
        assert(forall|j: int| 0 <= j < s.drop_last().len() ==> s.drop_last()[j].0 != s.last().0);
        assert(!map_of(s.drop_last()).contains_key(s.last().0));
        assert(map_of(s).dom() =~= map_of(s.drop_last()).dom().insert(s.last().0));
    }
}

/// Pairwise view-equal association sequences denote view-equal maps, and
/// key uniqueness carries over.
pub proof fn lemma_map_of_views<V, W>(
    a: Seq<(Seq<char>, V)>,
    b: Seq<(Seq<char>, V)>,
    f: spec_fn(V) -> W,
)
    requires
        a.len() == b.len(),
        forall|i: int| 0 <= i < a.len() ==> (#[trigger] a[i]).0 == b[i].0 && f(a[i].1) == f(b[i].1),
    ensures
        map_of(a).map_values(f) =~= map_of(b).map_values(f),
        unique_keys(a) ==> unique_keys(b),
    decreases a.len(),
{
    if a.len() == 0 {
    } else {
        assert(forall|i: int|
            0 <= i < a.drop_last().len() ==> (#[trigger] a.drop_last()[i]) == a[i]);
        assert(forall|i: int|
            0 <= i < b.drop_last().len() ==> (#[trigger] b.drop_last()[i]) == b[i]);
        lemma_map_of_views(a.drop_last(), b.drop_last(), f);
        assert(a[a.len() - 1].0 == b[b.len() - 1].0 && f(a[a.len() - 1].1) == f(b[b.len() - 1].1));
        assert(map_of(a).map_values(f) =~= map_of(a.drop_last()).map_values(f).insert(
            a.last().0,
            f(a.last().1),
        ));
        assert(map_of(b).map_values(f) =~= map_of(b.drop_last()).map_values(f).insert(
            b.last().0,
            f(b.last().1),
        ));
        assert(map_of(a).map_values(f) =~= map_of(b).map_values(f));
    }
    if unique_keys(a) {
        assert forall|i: int, j: int| 0 <= i < j < b.len() implies b[i].0 != b[j].0 by {
            assert(a[i].0 == b[i].0);
            assert(a[j].0 == b[j].0);
        }
    }
}

/// An association list with `String` keys and a `Map<Seq<char>, V>`
/// abstraction.
#[derive(Debug)]
pub struct Assoc<V> {
    pub pairs: Vec<(String, V)>,
}

impl<V> Assoc<V> {
    /// The key/value pairs with keys abstracted to character sequences.
    pub open spec fn kv(self) -> Seq<(Seq<char>, V)> {
        self.pairs@.map_values(|p: (String, V)| (p.0@, p.1))
    }

    /// Keys are unique, so the list denotes its map faithfully.
    pub open spec fn wf(self) -> bool {
        unique_keys(self.kv())
    }

    pub fn new() -> (r: Self)
        ensures
            r.wf(),
            r@ == Map::<Seq<char>, V>::empty(),
            r.kv().len() == 0,
    {
        Assoc { pairs: Vec::new() }
    }

    /// Index of the pair holding `key`, if any.
    fn position_of(&self, key: &String) -> (r: Option<usize>)
        ensures
            match r {
                Some(i) => i < self.kv().len() && self.kv()[i as int].0 == key@,
                None => forall|i: int| 0 <= i < self.kv().len() ==> self.kv()[i].0 != key@,
            },
    {
        let mut i: usize = 0;
        while i < self.pairs.len()
            invariant
                i <= self.pairs.len(),
                forall|j: int| 0 <= j < i ==> self.kv()[j].0 != key@,
            decreases self.pairs.len() - i,
        {
            if self.pairs[i].0 == *key {
                return Some(i);
            }
            i += 1;
        }
        None
    }

    pub fn get<'a>(&'a self, key: &String) -> (r: Option<&'a V>)
        requires
            self.wf(),
        ensures
            match r {
                Some(v) => self@.contains_key(key@) && *v == self@[key@],
                None => !self@.contains_key(key@),
            },
    {
        proof {
            lemma_map_of_dom(self.kv());
        }
        match self.position_of(key) {
            Some(i) => {
                proof {
                    lemma_map_of_index(self.kv(), i as int);
                }
                Some(&self.pairs[i].1)
            },
            None => None,
        }
    }

    /// Insert or overwrite the value at `key`.
    pub fn insert(&mut self, key: String, value: V)
        requires
            old(self).wf(),
        ensures
            final(self).wf(),
            final(self)@ == old(self)@.insert(key@, value),
    {
        let ghost old_kv = self.kv();
        match self.position_of(&key) {
            Some(i) => {
                proof {
                    lemma_map_of_update(old_kv, i as int, value);
                }
                self.pairs.set(i, (key, value));
                proof {
                    assert(self.kv() =~= old_kv.update(i as int, (old_kv[i as int].0, value)));
                    assert(forall|j: int| 0 <= j < self.kv().len() ==> self.kv()[j].0 == old_kv[j].0);
                    assert(unique_keys(self.kv()));
                }
            },
            None => {
                self.pairs.push((key, value));
                proof {
                    assert(self.kv() =~= old_kv.push((key@, value)));
                    assert(self.kv().drop_last() =~= old_kv);
                    assert(self.kv().last() == (key@, value));
                    assert(forall|j: int| 0 <= j < old_kv.len() ==> self.kv()[j].0 == old_kv[j].0);
                    assert(unique_keys(self.kv()));
                }
            },
        }
    }

    /// Remove the entry at `key`, returning its value if it was present.
    pub fn remove(&mut self, key: &String) -> (r: Option<V>)
        requires
            old(self).wf(),
        ensures
            final(self).wf(),
            final(self)@ == old(self)@.remove(key@),
            match r {
                Some(v) => old(self)@.contains_key(key@) && v == old(self)@[key@],
                None => !old(self)@.contains_key(key@),
            },
    {
        let ghost old_kv = self.kv();
        proof {
            lemma_map_of_dom(old_kv);
        }
        match self.position_of(key) {
            Some(i) => {
                proof {
                    lemma_map_of_index(old_kv, i as int);
                    lemma_map_of_remove(old_kv, i as int);
                }
                let p = self.pairs.remove(i);
                proof {
                    assert(self.kv() =~= old_kv.remove(i as int));
                }
                Some(p.1)
            },
            None => {
                proof {
                    assert(self@ =~= old(self)@.remove(key@));
                }
                None
            },
        }
    }

    pub fn len(&self) -> (n: usize)
        ensures
            n == self.kv().len(),
    {
        self.pairs.len()
    }

    pub fn is_empty(&self) -> (r: bool)
        ensures
            r == (self.kv().len() == 0),
    {
        self.pairs.len() == 0
    }
}

impl<V> View for Assoc<V> {
    type V = Map<Seq<char>, V>;

    open spec fn view(&self) -> Map<Seq<char>, V> {
        map_of(self.kv())
    }
}

} // verus!
