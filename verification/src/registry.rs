//! Export registries: ordered mappings from fully-qualified identifiers to
//! asset records.  Entries keep their insertion order, which makes every walk
//! over a registry — index assignment in particular — deterministic; a
//! re-inserted key overwrites its record in place.

use vstd::prelude::*;
use crate::id::Identifier;

verus! {

/// The sequence of keys of an entry list.
pub open spec fn keys_of<V>(s: Seq<(Identifier, V)>) -> Seq<(Seq<char>, Seq<char>)> {
    s.map_values(|e: (Identifier, V)| e.0.key())
}

/// The mapping an entry list denotes; a later entry overwrites an earlier
/// one with the same key.
pub open spec fn map_of<V>(s: Seq<(Identifier, V)>) -> Map<(Seq<char>, Seq<char>), V>
    decreases s.len(),
{
    if s.len() == 0 {
        Map::empty()
    } else {
        map_of(s.drop_last()).insert(s.last().0.key(), s.last().1)
    }
}

/// A key occurs in the mapping exactly when some entry holds it.
pub proof fn lemma_map_of_contains<V>(s: Seq<(Identifier, V)>, k: (Seq<char>, Seq<char>))
    ensures
        map_of(s).contains_key(k) <==> exists|i: int| 0 <= i < s.len()
            && (#[trigger] s[i]).0.key() == k,
    decreases s.len(),
{
    if s.len() > 0 {
        lemma_map_of_contains(s.drop_last(), k);
        if map_of(s).contains_key(k) {
            if s.last().0.key() != k {
                let i = choose|i: int| 0 <= i < s.drop_last().len()
                    && (#[trigger] s.drop_last()[i]).0.key() == k;
                assert(s[i].0.key() == k);
            }
        } else {
            assert forall|i: int| 0 <= i < s.len() implies (#[trigger] s[i]).0.key() != k by {
                if i < s.len() - 1 {
                    assert(s.drop_last()[i] == s[i]);
                }
            }
        }
    }
}

/// With unique keys, the mapping's value at a key is the value of the entry
/// holding that key.
pub proof fn lemma_map_of_unique_at<V>(s: Seq<(Identifier, V)>, i: int)
    requires
        entries_wf(s),
        0 <= i < s.len(),
    ensures
        map_of(s).contains_key(s[i].0.key()),
        map_of(s)[s[i].0.key()] == s[i].1,
    decreases s.len(),
{
    if i < s.len() - 1 {
        assert(s.drop_last()[i] == s[i]);
        assert(entries_wf(s.drop_last())) by {
            assert forall|a: int, b: int|
                0 <= a < b < s.drop_last().len() implies
                (#[trigger] s.drop_last()[a]).0.key() != (#[trigger] s.drop_last()[b]).0.key() by {
                assert(s.drop_last()[a] == s[a] && s.drop_last()[b] == s[b]);
            }
        }
        lemma_map_of_unique_at(s.drop_last(), i);
        assert(s.last().0.key() != s[i].0.key());
    }
}

/// The mapping's value at a key is some entry's value.
pub proof fn lemma_map_of_value_source<V>(s: Seq<(Identifier, V)>, k: (Seq<char>, Seq<char>))
    requires
        map_of(s).contains_key(k),
    ensures
        exists|x: int| 0 <= x < s.len() && (#[trigger] s[x]).0.key() == k
            && map_of(s)[k] == s[x].1,
    decreases s.len(),
{
    if s.len() > 0 {
        if s.last().0.key() == k {
            assert(s[s.len() - 1].0.key() == k && map_of(s)[k] == s[s.len() - 1].1);
        } else {
            lemma_map_of_value_source(s.drop_last(), k);
            let x = choose|x: int| 0 <= x < s.drop_last().len()
                && (#[trigger] s.drop_last()[x]).0.key() == k
                && map_of(s.drop_last())[k] == s.drop_last()[x].1;
            assert(s[x].0.key() == k && map_of(s)[k] == s[x].1);
        }
    }
}

/// If exactly one entry holds a key, the mapping takes its value there.
pub proof fn lemma_map_of_sole<V>(s: Seq<(Identifier, V)>, i: int)
    requires
        0 <= i < s.len(),
        forall|j: int| 0 <= j < s.len() && j != i
            ==> (#[trigger] s[j]).0.key() != s[i].0.key(),
    ensures
        map_of(s).contains_key(s[i].0.key()),
        map_of(s)[s[i].0.key()] == s[i].1,
    decreases s.len(),
{
    if i == s.len() - 1 {
    } else {
        assert forall|j: int| 0 <= j < s.drop_last().len() && j != i implies
            (#[trigger] s.drop_last()[j]).0.key() != s.drop_last()[i].0.key() by {
            assert(s.drop_last()[j] == s[j] && s.drop_last()[i] == s[i]);
        }
        lemma_map_of_sole(s.drop_last(), i);
        assert(s.last().0.key() != s[i].0.key());
        assert(s.drop_last()[i] == s[i]);
    }
}

/// No two entries share a key.
pub open spec fn entries_wf<V>(s: Seq<(Identifier, V)>) -> bool {
    forall|i: int, j: int| 0 <= i < j < s.len()
        ==> (#[trigger] s[i]).0.key() != (#[trigger] s[j]).0.key()
}

/// An ordered identifier-keyed registry of export records.
#[derive(Debug, Clone, PartialEq)]
pub struct Registry<V> {
    pub entries: Vec<(Identifier, V)>,
}

impl<V> Registry<V> {
    /// The well-formedness invariant: entry keys are unique.
    pub open spec fn wf(&self) -> bool {
        entries_wf(self.entries@)
    }

    pub open spec fn as_map(&self) -> Map<(Seq<char>, Seq<char>), V> {
        map_of(self.entries@)
    }

    pub open spec fn spec_contains(&self, k: (Seq<char>, Seq<char>)) -> bool {
        self.as_map().contains_key(k)
    }

    pub fn new() -> (r: Registry<V>)
        ensures
            r.wf(),
            r.entries@.len() == 0,
            r.as_map() == Map::<(Seq<char>, Seq<char>), V>::empty(),
    {
        Registry { entries: Vec::new() }
    }

    pub fn len(&self) -> (r: usize)
        ensures
            r == self.entries@.len(),
    {
        self.entries.len()
    }

    /// The position of the entry holding `id`'s key, if any.
    fn position_of(&self, id: &Identifier) -> (r: Option<usize>)
        ensures
            match r {
                Some(i) => i < self.entries@.len() && self.entries@[i as int].0.key() == id.key(),
                None => forall|i: int| 0 <= i < self.entries@.len()
                    ==> (#[trigger] self.entries@[i]).0.key() != id.key(),
            },
    {
        let n = self.entries.len();
        let mut i: usize = 0;
        while i < n
            invariant
                n == self.entries@.len(),
                i <= n,
                forall|j: int| 0 <= j < i
                    ==> (#[trigger] self.entries@[j]).0.key() != id.key(),
            decreases n - i,
        {
            if self.entries[i].0.same_as(id) {
                return Some(i);
            }
            i = i + 1;
        }
        None
    }

    /// Looks `id` up.
    pub fn get(&self, id: &Identifier) -> (r: Option<&V>)
        requires
            self.wf(),
        ensures
            match r {
                Some(v) => self.spec_contains(id.key()) && self.as_map()[id.key()] == *v,
                None => !self.spec_contains(id.key()),
            },
    {
        proof {
            lemma_map_of_contains(self.entries@, id.key());
        }
        match self.position_of(id) {
            Some(i) => {
                proof {
                    lemma_map_of_unique_at(self.entries@, i as int);
                }
                Some(&self.entries[i].1)
            },
            None => None,
        }
    }

    /// Inserts `v` under `id`, overwriting in place any entry with the same
    /// key; a new key is appended at the end.
    pub fn insert(&mut self, id: Identifier, v: V)
        requires
            old(self).wf(),
        ensures
            final(self).wf(),
            final(self).as_map() == old(self).as_map().insert(id.key(), v),
            old(self).spec_contains(id.key()) ==> keys_of(final(self).entries@)
                == keys_of(old(self).entries@),
            !old(self).spec_contains(id.key()) ==> final(self).entries@
                == old(self).entries@.push((id, v)),
    {
        proof {
            lemma_map_of_contains(self.entries@, id.key());
        }
        let ghost k = id.key();
        match self.position_of(&id) {
            Some(i) => {
                self.entries[i] = (id, v);
                proof {
                    let s0 = old(self).entries@;
                    let s1 = self.entries@;
                    assert forall|a: int, b: int| 0 <= a < b < s1.len() implies
                        (#[trigger] s1[a]).0.key() != (#[trigger] s1[b]).0.key() by {
                        assert(s1[a].0.key() == s0[a].0.key());
                        assert(s1[b].0.key() == s0[b].0.key());
                    }
                    lemma_map_of_set(s0, i as int, (id, v));
                    assert(keys_of(s1) =~= keys_of(s0));
                }
            },
            None => {
                self.entries.push((id, v));
                proof {
                    let s0 = old(self).entries@;
                    let s1 = self.entries@;
                    assert(s1.drop_last() =~= s0);
                    assert forall|a: int, b: int| 0 <= a < b < s1.len() implies
                        (#[trigger] s1[a]).0.key() != (#[trigger] s1[b]).0.key() by {
                        if b < s1.len() - 1 {
                            assert(s1[a] == s0[a] && s1[b] == s0[b]);
                        } else {
                            assert(s1[a] == s0[a]);
                        }
                    }
                }
            },
        }
    }
}

impl<V> Registry<V> {
    /// Folds another registry into this one, consuming it; entries of
    /// `other` overwrite same-key entries already here.
    pub fn merge_from(&mut self, other: Registry<V>)
        requires
            old(self).wf(),
        ensures
            final(self).wf(),
            final(self).as_map() == old(self).as_map().union_prefer_right(
                map_of(other.entries@)),
    {
        let ghost orig = other.entries@;
        let mut rest = other.entries;
        let n0 = rest.len();
        assert(orig.len() == n0);
        let mut j: usize = 0;
        proof {
            assert(rest@ =~= orig.skip(0));
            assert(map_of(orig.take(0)) =~= Map::<(Seq<char>, Seq<char>), V>::empty());
            assert(self.as_map() =~= old(self).as_map().union_prefer_right(
                map_of(orig.take(0))));
        }
        while rest.len() > 0
            invariant
                orig.len() <= usize::MAX,
                j <= orig.len(),
                rest@ == orig.skip(j as int),
                self.wf(),
                self.as_map() == old(self).as_map().union_prefer_right(
                    map_of(orig.take(j as int))),
            decreases rest@.len(),
        {
            let (id, v) = rest.remove(0);
            let ghost k = id.key();
            self.insert(id, v);
            proof {
                assert(orig.skip(j as int)[0] == orig[j as int]);
                assert(orig.take(j as int + 1).drop_last() =~= orig.take(j as int));
                assert(map_of(orig.take(j as int + 1)) =~= map_of(orig.take(j as int)).insert(
                    k, v));
                assert(self.as_map() =~= old(self).as_map().union_prefer_right(
                    map_of(orig.take(j as int + 1))));
                assert(orig.skip(j as int).drop_first() =~= orig.skip(j as int + 1));
            }
            j = j + 1;
        }
        proof {
            assert(orig.take(j as int) =~= orig);
        }
    }
}

/// Overwriting the entry at a key's position updates the denoted mapping at
/// just that key.
proof fn lemma_map_of_set<V>(s: Seq<(Identifier, V)>, i: int, e: (Identifier, V))
    requires
        entries_wf(s),
        0 <= i < s.len(),
        s[i].0.key() == e.0.key(),
    ensures
        map_of(s.update(i, e)) == map_of(s).insert(e.0.key(), e.1),
    decreases s.len(),
{
    let t = s.update(i, e);
    if i == s.len() - 1 {
        assert(t.drop_last() =~= s.drop_last());
        assert(t.last() == e);
        assert(map_of(t) =~= map_of(s).insert(e.0.key(), e.1));
    } else {
        assert(entries_wf(s.drop_last())) by {
            assert forall|a: int, b: int|
                0 <= a < b < s.drop_last().len() implies
                (#[trigger] s.drop_last()[a]).0.key() != (#[trigger] s.drop_last()[b]).0.key() by {
                assert(s.drop_last()[a] == s[a] && s.drop_last()[b] == s[b]);
            }
        }
        assert(s.drop_last()[i] == s[i]);
        lemma_map_of_set(s.drop_last(), i, e);
        assert(t.drop_last() =~= s.drop_last().update(i, e));
        assert(t.last() == s.last());
        assert(s.last().0.key() != e.0.key());
        assert(map_of(t) =~= map_of(s).insert(e.0.key(), e.1));
    }
}

} // verus!
