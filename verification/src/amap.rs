//! Small association maps used throughout the runtime: entry lists with a
//! last-write-wins lookup, modelled by the spec function [`lookup`] over the
//! sequence of entry views.

use vstd::prelude::*;

verus! {

broadcast use vstd::std_specs::vec::group_vec_axioms, vstd::seq::group_seq_axioms;

/// A key whose executable equality decides equality of the mathematical
/// views.
pub trait AssocKey: View + Sized {
    fn key_eq(&self, other: &Self) -> (r: bool)
        ensures
            r == (self@ == other@),
    ;
}

/// The value bound to `k` in the entry sequence `s`: the value of the last
/// entry whose key is `k`, if any.
pub open spec fn lookup<KT, VT>(s: Seq<(KT, VT)>, k: KT) -> Option<VT>
    decreases s.len(),
{
    if s.len() == 0 {
        None
    } else if s.last().0 == k {
        Some(s.last().1)
    } else {
        lookup(s.drop_last(), k)
    }
}

/// Appending an entry binds its key and leaves every other key alone.
pub proof fn lemma_lookup_push<KT, VT>(s: Seq<(KT, VT)>, k: KT, v: VT, k2: KT)
    ensures
        lookup(s.push((k, v)), k2) == if k2 == k {
            Some(v)
        } else {
            lookup(s, k2)
        },
{
    assert(s.push((k, v)).drop_last() =~= s);
    assert(s.push((k, v)).last() == (k, v));
}

/// The entry sequence `s` with every entry for key `k` removed.
pub open spec fn removed<KT, VT>(s: Seq<(KT, VT)>, k: KT) -> Seq<(KT, VT)>
    decreases s.len(),
{
    if s.len() == 0 {
        s
    } else if s.last().0 == k {
        removed(s.drop_last(), k)
    } else {
        removed(s.drop_last(), k).push(s.last())
    }
}

/// Removing a key makes it absent and leaves every other key's binding as it
/// was.
pub proof fn lemma_lookup_removed<KT, VT>(s: Seq<(KT, VT)>, k: KT, k2: KT)
    ensures
        lookup(removed(s, k), k) is None,
        k2 != k ==> lookup(removed(s, k), k2) == lookup(s, k2),
    decreases s.len(),
{
    if s.len() == 0 {
    } else {
        lemma_lookup_removed(s.drop_last(), k, k2);
        if s.last().0 != k {
            let t = removed(s.drop_last(), k).push(s.last());
            assert(t.drop_last() =~= removed(s.drop_last(), k));
            assert(t.last() == s.last());
        }
    }
}

impl AssocKey for String {
    fn key_eq(&self, other: &Self) -> (r: bool) {
        *self == *other
    }
}

impl AssocKey for u32 {
    fn key_eq(&self, other: &Self) -> (r: bool) {
        *self == *other
    }
}

/// An association map from keys to values, with insertion shadowing earlier
/// entries for the same key.
pub struct AssocMap<K, V> {
    entries: Vec<(K, V)>,
}

impl<K: AssocKey, V: View> View for AssocMap<K, V> {
    type V = Seq<(K::V, V::V)>;

    closed spec fn view(&self) -> Seq<(K::V, V::V)> {
        self.entries@.map_values(|e: (K, V)| (e.0@, e.1@))
    }
}

impl<K: AssocKey, V: View> AssocMap<K, V> {
    pub fn new() -> (r: AssocMap<K, V>)
        ensures
            r@ == Seq::<(K::V, V::V)>::empty(),
    {
        let r = AssocMap { entries: Vec::new() };
        proof {
            assert(r@ =~= Seq::<(K::V, V::V)>::empty());
        }
        r
    }

    pub fn len(&self) -> (n: usize)
        ensures
            n == self@.len(),
    {
        self.entries.len()
    }

    /// The entry at a position, for walking the map's contents.
    pub fn entry_at(&self, i: usize) -> (r: (&K, &V))
        requires
            i < self@.len(),
        ensures
            (r.0@, r.1@) == self@[i as int],
    {
        let e = &self.entries[i];
        (&e.0, &e.1)
    }

    /// Look a key up: returns the value bound by the latest entry for it.
    pub fn get(&self, k: &K) -> (r: Option<&V>)
        ensures
            match r {
                Some(v) => lookup(self@, k@) == Some(v@),
                None => lookup(self@, k@) is None,
            },
    {
        let mut i: usize = self.entries.len();
        proof {
            assert(self@.take(i as int) =~= self@);
        }
        while i > 0
            invariant
                0 <= i <= self.entries@.len(),
                lookup(self@, k@) == lookup(self@.take(i as int), k@),
            decreases i,
        {
            i = i - 1;
            let e = &self.entries[i];
            if e.0.key_eq(k) {
                proof {
                    let t = self@.take(i as int + 1);
                    assert(t.last() == self@[i as int]);
                    assert(t.last().0 == k@);
                }
                return Some(&self.entries[i].1);
            }
            proof {
                let t = self@.take(i as int + 1);
                assert(t.last() == self@[i as int]);
                assert(t.drop_last() =~= self@.take(i as int));
            }
        }
        proof {
            assert(self@.take(0) =~= Seq::<(K::V, V::V)>::empty());
        }
        None
    }

    /// True exactly when the key is bound.
    pub fn contains(&self, k: &K) -> (r: bool)
        ensures
            r == (lookup(self@, k@) is Some),
    {
        self.get(k).is_some()
    }

    /// Bind a key to a value, shadowing any earlier binding.
    pub fn insert(&mut self, k: K, v: V)
        ensures
            final(self)@ == old(self)@.push((k@, v@)),
    {
        let ghost prev = self@;
        let ghost kk = k@;
        let ghost vv = v@;
        self.entries.push((k, v));
        proof {
            assert(self@ =~= prev.push((kk, vv)));
        }
    }

    /// Drop every binding for a key.
    pub fn remove_key(&mut self, k: &K)
        ensures
            final(self)@ == removed(old(self)@, k@),
    {
        let ghost orig = self@;
        let mut rest: Vec<(K, V)> = Vec::new();
        core::mem::swap(&mut rest, &mut self.entries);
        let mut kept: Vec<(K, V)> = Vec::new();
        let ghost n = orig.len();
        let ghost mut i: int = 0;
        while rest.len() > 0
            invariant
                i + rest@.len() == n,
                0 <= i,
                orig.len() == n,
                forall|j: int|
                    0 <= j < rest@.len() ==> (rest@[j].0@, rest@[j].1@) == orig[i + j],
                Seq::new(kept@.len(), |j: int| (kept@[j].0@, kept@[j].1@)) == removed(
                    orig.take(i),
                    k@,
                ),
            decreases rest@.len(),
        {
            let e = rest.remove(0);
            let ghost ev = (e.0@, e.1@);
            proof {
                assert(ev == orig[i]);
                let t = orig.take(i + 1);
                assert(t.last() == orig[i]);
                assert(t.drop_last() =~= orig.take(i));
            }
            let ghost kv = Seq::new(kept@.len(), |j: int| (kept@[j].0@, kept@[j].1@));
            if !e.0.key_eq(k) {
                kept.push(e);
                proof {
                    assert(Seq::new(kept@.len(), |j: int| (kept@[j].0@, kept@[j].1@)) =~= kv.push(
                        ev,
                    ));
                }
            }
            proof {
                i = i + 1;
            }
        }
        proof {
            assert(orig.take(n as int) =~= orig);
        }
        self.entries = kept;
        proof {
            assert(self@ =~= removed(orig, k@));
        }
    }
}

} // verus!
