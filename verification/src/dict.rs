//! A string-keyed map kept as a vector of entries in insertion order.
//!
//! Lookups compare the character content of the keys, so the map is modeled
//! as a `Map<Seq<char>, _>` over the views of its values. Keeping the
//! entries in a vector makes iteration order deterministic, which the
//! catalog uses when it walks every language.

use vstd::prelude::*;

verus! {

/// True when no two entries of `s` share a key.
pub open spec fn distinct_keys<V>(s: Seq<(String, V)>) -> bool {
    forall|i: int, j: int| 0 <= i < j < s.len() ==> s[i].0@ != s[j].0@
}

/// The association map denoted by the entry sequence `s`; a later entry
/// with the same key wins, so on sequences with `distinct_keys` this is
/// simply "the value stored beside the key".
pub open spec fn seq_assoc<V: View>(s: Seq<(String, V)>) -> Map<Seq<char>, V::V>
    decreases s.len(),
{
    if s.len() == 0 {
        Map::empty()
    } else {
        seq_assoc(s.drop_last()).insert(s.last().0@, s.last().1@)
    }
}

/// A map from `String` keys to `V` values, stored as a vector of pairs
/// with pairwise-distinct keys, in insertion order.
#[derive(Debug, Clone)]
pub struct Dict<V> {
    pub(crate) items: Vec<(String, V)>,
}

impl<V: View> View for Dict<V> {
    type V = Map<Seq<char>, V::V>;

    closed spec fn view(&self) -> Map<Seq<char>, V::V> {
        seq_assoc(self.items@)
    }
}

impl<V: View> Dict<V> {
    /// The entry sequence, in insertion order.
    pub closed spec fn entries(&self) -> Seq<(String, V)> {
        self.items@
    }

    /// Well-formed: no key occurs twice.
    pub open spec fn wf(&self) -> bool {
        distinct_keys(self.entries())
    }

    /// The view is the association map of the entries.
    pub proof fn lemma_view_is_assoc(&self)
        ensures
            self@ == seq_assoc(self.entries()),
    {
    }

    /// On a well-formed dictionary, a key is in the view exactly when some
    /// entry holds it, and it maps to that entry's value.
    pub proof fn lemma_props(&self)
        requires
            self.wf(),
        ensures
            self@ == seq_assoc(self.entries()),
            forall|k: Seq<char>|
                #[trigger] self@.dom().contains(k) <==> exists|i: int|
                    0 <= i < self.entries().len() && self.entries()[i].0@ == k,
            forall|i: int|
                0 <= i < self.entries().len() ==> self@.dom().contains(
                    #[trigger] self.entries()[i].0@,
                ) && self@[self.entries()[i].0@] == self.entries()[i].1@,
    {
        lemma_assoc_props(self.entries());
    }

    pub fn new() -> (d: Self)
        ensures
            d.wf(),
            d@ =~= Map::<Seq<char>, V::V>::empty(),
            d.entries() =~= Seq::<(String, V)>::empty(),
    {
        Dict { items: Vec::new() }
    }
}

impl<V: View> Dict<V> {
    fn find(&self, key: &String) -> (r: Option<usize>)
        ensures
            match r {
                Some(i) => i < self.entries().len() && self.entries()[i as int].0@ == key@,
                None => forall|i: int| 0 <= i < self.entries().len() ==> self.entries()[i].0@ != key@,
            },
    {
        let n = self.items.len();
        let mut i: usize = 0;
        while i < n
            invariant
                i <= n,
                n == self.entries().len(),
                forall|j: int| 0 <= j < i ==> self.entries()[j].0@ != key@,
            decreases n - i,
        {
            if self.items[i].0 == *key {
                return Some(i);
            }
            i = i + 1;
        }
        None
    }

    /// Looks a key up, returning a reference to the stored value.
    pub fn get(&self, key: &String) -> (r: Option<&V>)
        requires
            self.wf(),
        ensures
            r is Some <==> self@.dom().contains(key@),
            r matches Some(v) ==> v@ == self@[key@] && exists|i: int|
                0 <= i < self.entries().len() && self.entries()[i].0@ == key@ && *v
                    == self.entries()[i].1,
    {
        proof {
            lemma_assoc_props(self.entries());
        }
        match self.find(key) {
            Some(i) => Some(&self.items[i].1),
            None => None,
        }
    }

    pub fn contains_key(&self, key: &String) -> (r: bool)
        requires
            self.wf(),
        ensures
            r == self@.dom().contains(key@),
    {
        proof {
            lemma_assoc_props(self.entries());
        }
        self.find(key).is_some()
    }

    /// Inserts or replaces the value stored under `key`. A fresh key is
    /// appended at the end; an existing key keeps its position.
    pub fn insert(&mut self, key: String, value: V)
        requires
            old(self).wf(),
        ensures
            final(self).wf(),
            final(self)@ =~= old(self)@.insert(key@, value@),
            old(self)@.dom().contains(key@) ==> exists|i: int|
                0 <= i < old(self).entries().len() && old(self).entries()[i].0@ == key@
                    && final(self).entries() == old(self).entries().update(i, (key, value)),
            !old(self)@.dom().contains(key@) ==> final(self).entries() == old(
                self,
            ).entries().push((key, value)),
    {
        proof {
            lemma_assoc_props(self.entries());
        }
        match self.find(&key) {
            Some(i) => {
                let ghost old_items = self.items@;
                self.items[i] = (key, value);
                proof {
                    lemma_assoc_update(old_items, i as int, (key, value));
                }
            },
            None => {
                let ghost old_items = self.items@;
                self.items.push((key, value));
                proof {
                    lemma_assoc_push(old_items, (key, value));
                }
            },
        }
    }

    /// Removes the entry stored under `key`, returning its value.
    pub fn remove(&mut self, key: &String) -> (r: Option<V>)
        requires
            old(self).wf(),
        ensures
            final(self).wf(),
            final(self)@ =~= old(self)@.remove(key@),
            r is Some <==> old(self)@.dom().contains(key@),
            r matches Some(v) ==> v@ == old(self)@[key@] && exists|i: int|
                0 <= i < old(self).entries().len() && old(self).entries()[i].0@ == key@ && v
                    == old(self).entries()[i].1 && final(self).entries() == old(
                    self,
                ).entries().remove(i),
            r is None ==> *final(self) == *old(self),
    {
        proof {
            lemma_assoc_props(self.entries());
        }
        match self.find(key) {
            Some(i) => {
                let ghost old_items = self.items@;
                let p = self.items.remove(i);
                proof {
                    lemma_assoc_remove(old_items, i as int);
                }
                Some(p.1)
            },
            None => {
                proof {
                    assert(self@ =~= self@.remove(key@));
                }
                None
            },
        }
    }

    pub fn len(&self) -> (n: usize)
        ensures
            n == self.entries().len(),
    {
        self.items.len()
    }

    pub fn is_empty(&self) -> (r: bool)
        ensures
            r == (self.entries().len() == 0),
    {
        self.items.is_empty()
    }

    /// Removes every entry.
    pub fn clear(&mut self)
        ensures
            final(self).wf(),
            final(self)@ =~= Map::<Seq<char>, V::V>::empty(),
            final(self).entries() =~= Seq::<(String, V)>::empty(),
    {
        self.items.clear();
    }

    /// The entry at position `i`, for iteration.
    pub fn entry_at(&self, i: usize) -> (r: &(String, V))
        requires
            i < self.entries().len(),
        ensures
            *r == self.entries()[i as int],
    {
        &self.items[i]
    }
}

/// Key membership and lookup of `seq_assoc` over a sequence with distinct
/// keys: a key is in the map exactly when some entry holds it, and it maps
/// to that entry's value.
pub proof fn lemma_assoc_props<V: View>(s: Seq<(String, V)>)
    requires
        distinct_keys(s),
    ensures
        forall|k: Seq<char>|
            #[trigger] seq_assoc(s).dom().contains(k) <==> exists|i: int|
                0 <= i < s.len() && s[i].0@ == k,
        forall|i: int|
            0 <= i < s.len() ==> seq_assoc(s).dom().contains(#[trigger] s[i].0@) && seq_assoc(
                s,
            )[s[i].0@] == s[i].1@,
    decreases s.len(),
{
    if s.len() > 0 {
        let s0 = s.drop_last();
        lemma_assoc_props(s0);
        assert forall|i: int| 0 <= i < s.len() implies seq_assoc(s).dom().contains(
            #[trigger] s[i].0@,
        ) && seq_assoc(s)[s[i].0@] == s[i].1@ by {
            if i < s.len() - 1 {
                assert(s0[i] == s[i]);
                assert(s[i].0@ != s.last().0@);
            }
        }
        assert forall|k: Seq<char>| #[trigger] seq_assoc(s).dom().contains(k) implies exists|i: int|
            0 <= i < s.len() && s[i].0@ == k by {
            if k == s.last().0@ {
                assert(s[s.len() - 1].0@ == k);
            } else {
                assert(seq_assoc(s0).dom().contains(k));
                let i = choose|i: int| 0 <= i < s0.len() && s0[i].0@ == k;
                assert(s0[i] == s[i]);
                assert(s[i].0@ == k);
            }
        }
    }
}

/// A prefix of a sequence with distinct keys has distinct keys, and the key
/// right after the prefix is not in the prefix's association map.
pub proof fn lemma_distinct_take<V: View>(s: Seq<(String, V)>, i: int)
    requires
        distinct_keys(s),
        0 <= i <= s.len(),
    ensures
        distinct_keys(s.take(i)),
        i < s.len() ==> !seq_assoc(s.take(i)).dom().contains(s[i].0@),
{
    assert forall|x: int, y: int| 0 <= x < y < i implies s.take(i)[x].0@ != s.take(i)[y].0@ by {
        assert(s.take(i)[x] == s[x] && s.take(i)[y] == s[y]);
    }
    if i < s.len() {
        lemma_assoc_props(s.take(i));
        if seq_assoc(s.take(i)).dom().contains(s[i].0@) {
            let j = choose|j: int| 0 <= j < i && s.take(i)[j].0@ == s[i].0@;
            assert(s.take(i)[j] == s[j]);
            assert(s[j].0@ != s[i].0@);
        }
    }
}

/// Appending an entry with a fresh key inserts it into the association map.
pub proof fn lemma_assoc_push<V: View>(s: Seq<(String, V)>, p: (String, V))
    requires
        distinct_keys(s),
        forall|i: int| 0 <= i < s.len() ==> s[i].0@ != p.0@,
    ensures
        distinct_keys(s.push(p)),
        seq_assoc(s.push(p)) =~= seq_assoc(s).insert(p.0@, p.1@),
{
    assert(s.push(p).drop_last() =~= s);
    assert forall|i: int, j: int| 0 <= i < j < s.push(p).len() implies s.push(p)[i].0@ != s.push(
        p,
    )[j].0@ by {
        if j < s.len() {
            assert(s.push(p)[i] == s[i] && s.push(p)[j] == s[j]);
        } else {
            assert(s.push(p)[i] == s[i]);
        }
    }
}

/// Overwriting the entry that holds a key updates the association map at
/// that key.
pub proof fn lemma_assoc_update<V: View>(s: Seq<(String, V)>, i: int, p: (String, V))
    requires
        distinct_keys(s),
        0 <= i < s.len(),
        s[i].0@ == p.0@,
    ensures
        distinct_keys(s.update(i, p)),
        seq_assoc(s.update(i, p)) =~= seq_assoc(s).insert(p.0@, p.1@),
    decreases s.len(),
{
    let s0 = s.drop_last();
    assert forall|x: int, y: int| 0 <= x < y < s.update(i, p).len() implies s.update(i, p)[x].0@
        != s.update(i, p)[y].0@ by {
        assert(s.update(i, p)[x].0@ == s[x].0@ && s.update(i, p)[y].0@ == s[y].0@);
    }
    if i == s.len() - 1 {
        assert(s.update(i, p).drop_last() =~= s0);
        assert(s.update(i, p).last() == p);
        assert(seq_assoc(s0).insert(s.last().0@, s.last().1@).insert(p.0@, p.1@) =~= seq_assoc(
            s0,
        ).insert(p.0@, p.1@));
    } else {
        assert(s.update(i, p).drop_last() =~= s0.update(i, p));
        assert(s0[i] == s[i]);
        lemma_assoc_update(s0, i, p);
        assert(s.update(i, p).last() == s.last());
        assert(s[i].0@ != s.last().0@);
        assert(seq_assoc(s0).insert(p.0@, p.1@).insert(s.last().0@, s.last().1@) =~= seq_assoc(
            s0,
        ).insert(s.last().0@, s.last().1@).insert(p.0@, p.1@));
    }
}

/// Removing the entry that holds a key removes that key from the
/// association map.
pub proof fn lemma_assoc_remove<V: View>(s: Seq<(String, V)>, i: int)
    requires
        distinct_keys(s),
        0 <= i < s.len(),
    ensures
        distinct_keys(s.remove(i)),
        seq_assoc(s.remove(i)) =~= seq_assoc(s).remove(s[i].0@),
    decreases s.len(),
{
    let s0 = s.drop_last();
    let k = s[i].0@;
    assert forall|x: int, y: int| 0 <= x < y < s.remove(i).len() implies s.remove(i)[x].0@
        != s.remove(i)[y].0@ by {
        let x0: int = if x < i {
            x
        } else {
            x + 1
        };
        let y0: int = if y < i {
            y
        } else {
            y + 1
        };
        assert(s.remove(i)[x].0@ == s[x0].0@ && s.remove(i)[y].0@ == s[y0].0@);
    }
    if i == s.len() - 1 {
        assert(s.remove(i) =~= s0);
        lemma_assoc_props(s0);
        assert(!seq_assoc(s0).dom().contains(k));
        assert(seq_assoc(s0).insert(k, s.last().1@).remove(k) =~= seq_assoc(s0));
    } else {
        assert(s.remove(i).drop_last() =~= s0.remove(i));
        assert(s.remove(i).last() == s.last());
        assert(s0[i] == s[i]);
        lemma_assoc_remove(s0, i);
        assert(s[i].0@ != s.last().0@);
        assert(seq_assoc(s0).remove(k).insert(s.last().0@, s.last().1@) =~= seq_assoc(s0).insert(
            s.last().0@,
            s.last().1@,
        ).remove(k));
    }
}

} // verus!
