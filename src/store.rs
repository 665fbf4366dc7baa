//! The validator's in-memory store: one bounded FIFO map of records per namespace.
use vstd::prelude::*;

use crate::bytes::bytes_eq;
use crate::common::{
    message_digest_spec, record_digest_spec, record_views, Digest, Log, Namespace, Record, RecordView,
};
use crate::fifo::{fifo_insert, has_key, key_pos, FifoMap};
use crate::timestamp::Timestamp;

verus! {

/// The records of a bucket, oldest first.
pub open spec fn bucket_records(e: Seq<(Seq<u8>, Record)>) -> Seq<Record> {
    e.map_values(|x: (Seq<u8>, Record)| x.1)
}

/// Whether a record's timestamp lies in `[start, end]`.
pub open spec fn in_range(start: Timestamp, end: Timestamp) -> spec_fn(RecordView) -> bool {
    |r: RecordView| start.0 <= r.timestamp.0 && r.timestamp.0 <= end.0
}

/// The most recently inserted record of `s` whose message has identity `msg_id`.
pub open spec fn latest_with_id(s: Seq<Record>, namespace: Seq<u8>, msg_id: Seq<u8>) -> Option<RecordView>
    decreases s.len(),
{
    if s.len() == 0 {
        None
    } else if message_digest_spec(namespace, s.last().message@) == msg_id {
        Some(s.last()@)
    } else {
        latest_with_id(s.drop_last(), namespace, msg_id)
    }
}

/// An in-memory store of records, partitioned by namespace.
pub struct InMemoryStore {
    cap: usize,
    buckets: Vec<(Namespace, FifoMap<Record>)>,
}

impl InMemoryStore {
    /// How many records each namespace keeps.
    pub closed spec fn capacity(&self) -> nat {
        self.cap as nat
    }

    closed spec fn has_bucket(&self, ns: Seq<u8>) -> bool {
        exists|i: int| 0 <= i < self.buckets@.len() && (#[trigger] self.buckets@[i]).0@ == ns
    }

    closed spec fn bucket_index(&self, ns: Seq<u8>) -> int {
        choose|i: int| 0 <= i < self.buckets@.len() && (#[trigger] self.buckets@[i]).0@ == ns
    }

    /// The entries of a namespace, oldest first, keyed by record digest.
    pub closed spec fn bucket(&self, ns: Seq<u8>) -> Seq<(Seq<u8>, Record)> {
        if self.has_bucket(ns) {
            self.buckets@[self.bucket_index(ns)].1.entries()
        } else {
            Seq::empty()
        }
    }

    /// The store's invariant: one bucket per namespace, each a well-formed
    /// map with the store's capacity.
    pub closed spec fn wf(&self) -> bool {
        &&& self.cap > 0
        &&& forall|i: int, j: int|
            0 <= i < self.buckets@.len() && 0 <= j < self.buckets@.len() && i != j
                ==> (#[trigger] self.buckets@[i]).0@ != (#[trigger] self.buckets@[j]).0@
        &&& forall|i: int| 0 <= i < self.buckets@.len() ==> (#[trigger] self.buckets@[i]).1.wf()
            && self.buckets@[i].1.capacity() == self.cap
    }

    /// Creates an empty store keeping `cap` records per namespace (at least one).
    pub fn with_capacity(cap: usize) -> (r: InMemoryStore)
        ensures
            r.wf(),
            r.capacity() == if cap == 0 { 1 } else { cap as nat },
            forall|ns: Seq<u8>| r.bucket(ns) == Seq::<(Seq<u8>, Record)>::empty(),
    {
        InMemoryStore { cap: if cap == 0 { 1 } else { cap }, buckets: Vec::new() }
    }

    fn find_bucket(&self, ns: &[u8]) -> (r: Option<usize>)
        requires
            self.wf(),
        ensures
            r is None <==> !self.has_bucket(ns@),
            r matches Some(i) ==> i < self.buckets@.len() && i == self.bucket_index(ns@),
    {
        let mut i: usize = 0;
        while i < self.buckets.len()
            invariant
                self.wf(),
                0 <= i <= self.buckets@.len(),
                forall|j: int| 0 <= j < i ==> (#[trigger] self.buckets@[j]).0@ != ns@,
            decreases self.buckets.len() - i,
        {
            if bytes_eq(self.buckets[i].0.as_slice(), ns) {
                proof {
                    let p = self.bucket_index(ns@);
                    assert(self.buckets@[i as int].0@ == ns@);
                    assert(0 <= p < self.buckets@.len() && self.buckets@[p].0@ == ns@);
                    if p != i as int {
                        assert(self.buckets@[p].0@ != self.buckets@[i as int].0@);
                    }
                }
                return Some(i);
            }
            i = i + 1;
        }
        None
    }

    /// Inserts a record under its digest into its namespace's bucket,
    /// creating the bucket if needed; a full bucket forgets its oldest record
    /// first, and a record with a known digest replaces the old one in place.
    pub fn write_one(&mut self, namespace: Namespace, record: Record)
        requires
            old(self).wf(),
        ensures
            final(self).wf(),
            final(self).capacity() == old(self).capacity(),
            final(self).bucket(namespace@) == fifo_insert(
                old(self).bucket(namespace@),
                old(self).capacity(),
                record_digest_spec(namespace@, record.timestamp, record.message@),
                record,
            ),
            forall|ns: Seq<u8>| ns != namespace@ ==> final(self).bucket(ns) == old(self).bucket(ns),
    {
        let key = record.digest(&namespace);
        let ghost ns = namespace@;
        let ghost rk = record_digest_spec(namespace@, record.timestamp, record.message@);
        let ghost rec = record;
        match self.find_bucket(namespace.as_slice()) {
            Some(i) => {
                let (name, mut map) = self.buckets.remove(i);
                map.insert(key, record);
                self.buckets.insert(i, (name, map));
                proof {
                    assert(self.buckets@[i as int].0@ == ns);
                    assert forall|j: int| 0 <= j < self.buckets@.len() && j != i implies
                        #[trigger] self.buckets@[j] == old(self).buckets@[j] by {}
                    assert(self.has_bucket(ns));
                    let p = self.bucket_index(ns);
                    if p != i as int {
                        assert(old(self).buckets@[p].0@ != old(self).buckets@[i as int].0@);
                    }
                    assert forall|other: Seq<u8>| other != ns implies self.bucket(other) == old(self).bucket(other) by {
                        if old(self).has_bucket(other) {
                            let q = old(self).bucket_index(other);
                            assert(self.buckets@[q] == old(self).buckets@[q]);
                            assert(self.has_bucket(other));
                            let q2 = self.bucket_index(other);
                            if q2 != q {
                                assert(self.buckets@[q2].0@ != self.buckets@[q].0@);
                            }
                        } else {
                            if self.has_bucket(other) {
                                let q2 = self.bucket_index(other);
                                assert(q2 != i as int);
                                assert(old(self).buckets@[q2] == self.buckets@[q2]);
                            }
                        }
                    }
                }
            },
            None => {
                let mut map: FifoMap<Record> = FifoMap::with_capacity(self.cap);
                map.insert(key, record);
                self.buckets.push((namespace, map));
                proof {
                    let last = self.buckets@.len() - 1;
                    assert(self.buckets@[last].0@ == ns);
                    assert(self.has_bucket(ns));
                    let p = self.bucket_index(ns);
                    if p != last {
                        assert(old(self).buckets@[p].0@ == ns);
                        assert(old(self).has_bucket(ns));
                    }
                    assert forall|other: Seq<u8>| other != ns implies self.bucket(other) == old(self).bucket(other) by {
                        if old(self).has_bucket(other) {
                            let q = old(self).bucket_index(other);
                            assert(self.buckets@[q] == old(self).buckets@[q]);
                            assert(self.has_bucket(other));
                            let q2 = self.bucket_index(other);
                            if q2 != q {
                                assert(self.buckets@[q2].0@ != self.buckets@[q].0@);
                            }
                        } else {
                            if self.has_bucket(other) {
                                let q2 = self.bucket_index(other);
                                assert(q2 != last);
                                assert(old(self).buckets@[q2] == self.buckets@[q2]);
                            }
                        }
                    }
                }
            },
        }
    }

    /// Returns the records of a namespace whose timestamps lie in
    /// `[start, end]`, oldest first; an unknown namespace has none.
    pub fn read_range(&self, namespace: Namespace, start: Timestamp, end: Timestamp) -> (r: Log)
        requires
            self.wf(),
        ensures
            r@ == record_views(bucket_records(self.bucket(namespace@))).filter(in_range(start, end)),
    {
        let mut out: Vec<Record> = Vec::new();
        match self.find_bucket(namespace.as_slice()) {
            None => {
                assert(record_views(bucket_records(self.bucket(namespace@))) =~= Seq::<RecordView>::empty());
                Log { records: out }
            },
            Some(b) => {
                let map = &self.buckets[b].1;
                let ghost all = record_views(bucket_records(map.entries()));
                let mut i: usize = 0;
                while i < map.len()
                    invariant
                        0 <= i <= map.entries().len(),
                        all == record_views(bucket_records(map.entries())),
                        record_views(out@) == all.subrange(0, i as int).filter(in_range(start, end)),
                    decreases map.entries().len() - i,
                {
                    let rec = map.value_at(i);
                    proof {
                        assert(all.subrange(0, i + 1) =~= all.subrange(0, i as int).push(all[i as int]));
                        all.subrange(0, i as int).lemma_filter_push(all[i as int], in_range(start, end));
                    }
                    if start.0 <= rec.timestamp.0 && rec.timestamp.0 <= end.0 {
                        let ghost before = out@;
                        out.push(rec.duplicate());
                        assert(record_views(out@) =~= record_views(before).push(rec@));
                    }
                    i = i + 1;
                }
                assert(all.subrange(0, i as int) =~= all);
                Log { records: out }
            },
        }
    }

    /// Returns the most recently inserted record of a namespace whose message
    /// has identity `msg_id`.
    pub fn read_message(&self, namespace: Namespace, msg_id: Digest) -> (r: Option<Record>)
        requires
            self.wf(),
        ensures
            r is None <==> latest_with_id(bucket_records(self.bucket(namespace@)), namespace@, msg_id@) is None,
            r matches Some(rec) ==> latest_with_id(bucket_records(self.bucket(namespace@)), namespace@, msg_id@)
                == Some(rec@),
    {
        match self.find_bucket(namespace.as_slice()) {
            None => None,
            Some(b) => {
                let map = &self.buckets[b].1;
                let ghost all = bucket_records(map.entries());
                let mut i: usize = map.len();
                assert(all.subrange(0, i as int) =~= all);
                while i > 0
                    invariant
                        0 <= i <= map.entries().len(),
                        all == bucket_records(map.entries()),
                        all == bucket_records(self.bucket(namespace@)),
                        latest_with_id(all, namespace@, msg_id@) == latest_with_id(
                            all.subrange(0, i as int),
                            namespace@,
                            msg_id@,
                        ),
                    decreases i,
                {
                    let rec = map.value_at(i - 1);
                    let id = rec.message_digest(&namespace);
                    assert(all.subrange(0, i as int).drop_last() =~= all.subrange(0, i - 1));
                    assert(all.subrange(0, i as int).last() == *rec);
                    if bytes_eq(&id, &msg_id) {
                        return Some(rec.duplicate());
                    }
                    i = i - 1;
                }
                None
            },
        }
    }
}

/// A record that a bucket has just taken is returned by every range read
/// whose range covers the record's timestamp.
pub proof fn lemma_written_record_is_read(
    e: Seq<(Seq<u8>, Record)>,
    cap: nat,
    key: Seq<u8>,
    stored: Record,
    start: Timestamp,
    end: Timestamp,
)
    requires
        cap > 0,
        start.0 <= stored.timestamp.0 <= end.0,
    ensures
        record_views(bucket_records(fifo_insert(e, cap, key, stored))).filter(in_range(start, end)).contains(stored@),
{
    let f = fifo_insert(e, cap, key, stored);
    let i: int = if has_key(e, key) {
        key_pos(e, key)
    } else {
        f.len() - 1
    };
    assert(0 <= i < f.len());
    assert(f[i] == (key, stored));
    let s = record_views(bucket_records(f));
    assert(s[i] == stored@);
    let p = in_range(start, end);
    assert(s =~= s.subrange(0, i) + seq![stored@] + s.subrange(i + 1, s.len() as int));
    Seq::filter_distributes_over_add(s.subrange(0, i) + seq![stored@], s.subrange(i + 1, s.len() as int), p);
    Seq::filter_distributes_over_add(s.subrange(0, i), seq![stored@], p);
    assert(seq![stored@].filter(p) == seq![stored@]) by {
        reveal_with_fuel(Seq::filter, 2);
        assert(seq![stored@].drop_last() =~= Seq::<RecordView>::empty());
    }
    let whole = s.subrange(0, i).filter(p) + seq![stored@] + s.subrange(i + 1, s.len() as int).filter(p);
    assert(whole[s.subrange(0, i).filter(p).len() as int] == stored@);
}

/// A namespace none of whose records carries message identity `msg_id` has
/// no record to return for it.
pub proof fn lemma_unwritten_message_absent(s: Seq<Record>, namespace: Seq<u8>, msg_id: Seq<u8>)
    requires
        forall|i: int| 0 <= i < s.len() ==> message_digest_spec(namespace, (#[trigger] s[i]).message@) != msg_id,
    ensures
        latest_with_id(s, namespace, msg_id) is None,
    decreases s.len(),
{
    if s.len() > 0 {
        assert(s.last() == s[s.len() - 1]);
        lemma_unwritten_message_absent(s.drop_last(), namespace, msg_id);
    }
}

} // verus!
