//! A bounded map from digests to values that forgets its oldest entry when full.
use vstd::prelude::*;

use crate::bytes::bytes_eq;
use crate::common::Digest;

verus! {

/// The keys of the entries, in order.
pub open spec fn keys_of<V>(e: Seq<(Seq<u8>, V)>) -> Seq<Seq<u8>> {
    e.map_values(|x: (Seq<u8>, V)| x.0)
}

/// Whether some entry has key `k`.
pub open spec fn has_key<V>(e: Seq<(Seq<u8>, V)>, k: Seq<u8>) -> bool {
    exists|i: int| 0 <= i < e.len() && (#[trigger] e[i]).0 == k
}

/// The position of the entry with key `k`, if there is one.
pub open spec fn key_pos<V>(e: Seq<(Seq<u8>, V)>, k: Seq<u8>) -> int {
    choose|i: int| 0 <= i < e.len() && (#[trigger] e[i]).0 == k
}

/// No two entries share a key.
pub open spec fn keys_distinct<V>(e: Seq<(Seq<u8>, V)>) -> bool {
    forall|i: int, j: int| 0 <= i < e.len() && 0 <= j < e.len() && i != j ==> (#[trigger] e[i]).0 != (#[trigger] e[j]).0
}

/// Inserting `(k, v)` into entries kept in insertion order with room for `cap`:
/// an existing key keeps its place and takes the new value; a new key goes
/// last, after the oldest entry has left if the map was full.
pub open spec fn fifo_insert<V>(e: Seq<(Seq<u8>, V)>, cap: nat, k: Seq<u8>, v: V) -> Seq<(Seq<u8>, V)> {
    if has_key(e, k) {
        e.update(key_pos(e, k), (k, v))
    } else if e.len() >= cap {
        e.drop_first().push((k, v))
    } else {
        e.push((k, v))
    }
}

/// Inserting the pairs `(keys[i], vals[i])` in order.
pub open spec fn fifo_insert_all<V>(e: Seq<(Seq<u8>, V)>, cap: nat, keys: Seq<Seq<u8>>, vals: Seq<V>) -> Seq<(Seq<u8>, V)>
    decreases keys.len(),
{
    if keys.len() == 0 || vals.len() == 0 {
        e
    } else {
        fifo_insert(fifo_insert_all(e, cap, keys.drop_last(), vals.drop_last()), cap, keys.last(), vals.last())
    }
}

/// A bounded map kept in insertion order.
pub struct FifoMap<V> {
    entries: Vec<(Digest, V)>,
    cap: usize,
}

impl<V> FifoMap<V> {
    /// The entries, oldest first, with their keys as byte sequences.
    pub closed spec fn entries(&self) -> Seq<(Seq<u8>, V)> {
        self.entries@.map_values(|e: (Digest, V)| (e.0@, e.1))
    }

    /// How many entries the map holds before it evicts.
    pub closed spec fn capacity(&self) -> nat {
        self.cap as nat
    }

    /// The map's invariant: distinct keys, within the capacity, which is positive.
    pub open spec fn wf(&self) -> bool {
        &&& keys_distinct(self.entries())
        &&& self.entries().len() <= self.capacity()
        &&& self.capacity() > 0
    }

    /// Creates an empty map for `cap` entries (at least one).
    pub fn with_capacity(cap: usize) -> (r: FifoMap<V>)
        ensures
            r.wf(),
            r.entries() == Seq::<(Seq<u8>, V)>::empty(),
            r.capacity() == if cap == 0 { 1 } else { cap as nat },
    {
        let r = FifoMap { entries: Vec::new(), cap: if cap == 0 { 1 } else { cap } };
        assert(r.entries() =~= Seq::<(Seq<u8>, V)>::empty());
        r
    }

    /// The number of entries.
    pub fn len(&self) -> (r: usize)
        ensures
            r == self.entries().len(),
    {
        self.entries.len()
    }

    /// The position of the entry with key `k`, if there is one.
    pub fn position(&self, k: &Digest) -> (r: Option<usize>)
        requires
            self.wf(),
        ensures
            r is None <==> !has_key(self.entries(), k@),
            r matches Some(i) ==> i < self.entries().len() && i == key_pos(self.entries(), k@)
                && self.entries()[i as int].0 == k@,
    {
        let mut i: usize = 0;
        while i < self.entries.len()
            invariant
                self.wf(),
                0 <= i <= self.entries@.len(),
                forall|j: int| 0 <= j < i ==> (#[trigger] self.entries()[j]).0 != k@,
            decreases self.entries.len() - i,
        {
            if bytes_eq(&self.entries[i].0, k) {
                proof {
                    assert(self.entries()[i as int].0 == k@);
                    let p = key_pos(self.entries(), k@);
                    assert(0 <= p < self.entries().len() && self.entries()[p].0 == k@);
                    assert(self.entries()[p].0 == self.entries()[i as int].0);
                    if p != i as int {
                        assert(self.entries()[p].0 != self.entries()[i as int].0);
                    }
                }
                return Some(i);
            }
            i = i + 1;
        }
        None
    }

    /// The value at position `i`.
    pub fn value_at(&self, i: usize) -> (r: &V)
        requires
            i < self.entries().len(),
        ensures
            *r == self.entries()[i as int].1,
    {
        &self.entries[i].1
    }

    /// Replaces the value at position `i`, keeping its key and place.
    pub fn set_value_at(&mut self, i: usize, v: V)
        requires
            i < old(self).entries().len(),
        ensures
            final(self).entries() == old(self).entries().update(i as int, (old(self).entries()[i as int].0, v)),
            final(self).capacity() == old(self).capacity(),
    {
        let k = self.entries[i].0;
        self.entries.set(i, (k, v));
        assert(self.entries() =~= old(self).entries().update(i as int, (old(self).entries()[i as int].0, v)));
    }

    /// Inserts `v` under `k`; see `fifo_insert`.
    pub fn insert(&mut self, k: Digest, v: V)
        requires
            old(self).wf(),
        ensures
            final(self).wf(),
            final(self).capacity() == old(self).capacity(),
            final(self).entries() == fifo_insert(old(self).entries(), old(self).capacity(), k@, v),
    {
        let ghost e = self.entries();
        match self.position(&k) {
            Some(i) => {
                self.entries.set(i, (k, v));
                assert(self.entries() =~= e.update(i as int, (k@, v)));
            },
            None => {
                if self.entries.len() >= self.cap {
                    self.entries.remove(0);
                    assert(self.entries() =~= e.drop_first());
                }
                self.entries.push((k, v));
                assert(self.entries() =~= fifo_insert(e, self.cap as nat, k@, v));
            },
        }
    }
}

/// Inserting a run of distinct keys into an empty map with room for all of
/// them keeps exactly those keys, in order.
proof fn lemma_fifo_fill<V>(cap: nat, keys: Seq<Seq<u8>>, vals: Seq<V>)
    requires
        cap > 0,
        keys.len() <= cap,
        vals.len() == keys.len(),
        forall|i: int, j: int| 0 <= i < j < keys.len() ==> keys[i] != keys[j],
    ensures
        keys_of(fifo_insert_all(Seq::empty(), cap, keys, vals)) == keys,
    decreases keys.len(),
{
    if keys.len() > 0 {
        let pk = keys.drop_last();
        let pv = vals.drop_last();
        lemma_fifo_fill(cap, pk, pv);
        let prev = fifo_insert_all(Seq::empty(), cap, pk, pv);
        let prev_keys = keys_of(prev);
        assert(prev_keys == pk);
        assert(prev.len() == pk.len());
        assert(!has_key(prev, keys.last())) by {
            if has_key(prev, keys.last()) {
                let i = choose|i: int| 0 <= i < prev.len() && (#[trigger] prev[i]).0 == keys.last();
                assert(prev_keys[i] == pk[i]);
                assert(pk[i] == keys[i]);
            }
        }
        let fin = fifo_insert_all(Seq::empty(), cap, keys, vals);
        assert(fin == fifo_insert(prev, cap, keys.last(), vals.last()));
        assert(fin == prev.push((keys.last(), vals.last())));
        assert(keys_of(fin) =~= keys) by {
            assert forall|i: int| 0 <= i < keys.len() implies keys_of(fin)[i] == keys[i] by {
                if i < keys.len() - 1 {
                    assert(prev_keys[i] == pk[i]);
                }
            }
        }
    }
}

/// A map with room for `cap` entries that receives `cap + 1` distinct keys
/// no longer holds the first of them.
pub proof fn lemma_fifo_evicts_first<V>(cap: nat, keys: Seq<Seq<u8>>, vals: Seq<V>)
    requires
        cap > 0,
        keys.len() == cap + 1,
        vals.len() == keys.len(),
        forall|i: int, j: int| 0 <= i < j < keys.len() ==> keys[i] != keys[j],
    ensures
        !has_key(fifo_insert_all(Seq::empty(), cap, keys, vals), keys[0]),
{
    let pk = keys.drop_last();
    let pv = vals.drop_last();
    lemma_fifo_fill(cap, pk, pv);
    let prev = fifo_insert_all(Seq::empty(), cap, pk, pv);
    let prev_keys = keys_of(prev);
    assert(prev_keys == pk);
    assert(prev.len() == pk.len());
    assert(!has_key(prev, keys.last())) by {
        if has_key(prev, keys.last()) {
            let i = choose|i: int| 0 <= i < prev.len() && (#[trigger] prev[i]).0 == keys.last();
            assert(prev_keys[i] == pk[i]);
            assert(pk[i] == keys[i]);
        }
    }
    let fin = fifo_insert_all(Seq::empty(), cap, keys, vals);
    assert(fin == fifo_insert(prev, cap, keys.last(), vals.last()));
    assert(fin == prev.drop_first().push((keys.last(), vals.last())));
    if has_key(fin, keys[0]) {
        let i = choose|i: int| 0 <= i < fin.len() && (#[trigger] fin[i]).0 == keys[0];
        if i < fin.len() - 1 {
            assert(fin[i] == prev[i + 1]);
            assert(prev_keys[i + 1] == pk[i + 1]);
            assert(pk[i + 1] == keys[i + 1]);
        } else {
            assert(fin[i].0 == keys[cap as int]);
        }
    }
}

} // verus!
