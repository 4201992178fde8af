use vstd::prelude::*;

verus! {

/// The next offset to read from one partition of one topic.
pub struct PartitionOffset {
    pub topic: String,
    pub partition: i32,
    pub offset: i64,
}

/// What identifies a partition: its topic and its number.
pub type PartitionKey = (Seq<char>, i32);

pub open spec fn key_of(e: PartitionOffset) -> PartitionKey {
    (e.topic@, e.partition)
}

pub open spec fn keys_unique(s: Seq<PartitionOffset>) -> bool {
    forall|i: int, j: int|
        0 <= i < j < s.len() ==> key_of(#[trigger] s[i]) != key_of(#[trigger] s[j])
}

/// `s` lists each partition of `m` once, with its offset, and nothing else.
pub open spec fn represents(s: Seq<PartitionOffset>, m: Map<PartitionKey, i64>) -> bool {
    &&& keys_unique(s)
    &&& forall|i: int|
        0 <= i < s.len() ==> m.contains_key(key_of(#[trigger] s[i])) && m[key_of(s[i])]
            == s[i].offset
    &&& forall|k: PartitionKey|
        m.contains_key(k) ==> exists|i: int| 0 <= i < s.len() && key_of(#[trigger] s[i]) == k
}

impl PartitionOffset {
    pub fn duplicate(&self) -> (r: PartitionOffset)
        ensures
            key_of(r) == key_of(*self),
            r.offset == self.offset,
    {
        PartitionOffset { topic: self.topic.clone(), partition: self.partition, offset: self.offset }
    }
}

/// The offsets consumed in the current transaction, one per partition.
pub struct OffsetTracker {
    entries: Vec<PartitionOffset>,
    model: Ghost<Map<PartitionKey, i64>>,
}

impl View for OffsetTracker {
    type V = Map<PartitionKey, i64>;

    closed spec fn view(&self) -> Map<PartitionKey, i64> {
        self.model@
    }
}

impl OffsetTracker {
    pub closed spec fn wf(&self) -> bool {
        represents(self.entries@, self.model@)
    }

    pub fn new() -> (r: OffsetTracker)
        ensures
            r.wf(),
            r@ == Map::<PartitionKey, i64>::empty(),
    {
        OffsetTracker { entries: Vec::new(), model: Ghost(Map::empty()) }
    }

    /// Notes that `offset` of the partition was consumed: the next offset to
    /// read there is `offset + 1`, whatever was noted before.
    pub fn record(&mut self, topic: &str, partition: i32, offset: i64)
        requires
            old(self).wf(),
            offset < i64::MAX,
        ensures
            final(self).wf(),
            final(self)@ == old(self)@.insert((topic@, partition), (offset + 1) as i64),
    {
        let ghost k: PartitionKey = (topic@, partition);
        let name = topic.to_owned();
        let next: i64 = offset + 1;
        let mut i: usize = 0;
        while i < self.entries.len()
            invariant
                self.wf(),
                self@ == old(self)@,
                self.entries@ == old(self).entries@,
                name@ == topic@,
                k == (topic@, partition),
                next == offset + 1,
                0 <= i <= self.entries@.len(),
                forall|j: int| 0 <= j < i ==> key_of(#[trigger] self.entries@[j]) != k,
            decreases self.entries@.len() - i,
        {
            let same_topic = self.entries[i].topic.eq(&name);
            if self.entries[i].partition == partition && same_topic {
                assert(key_of(self.entries@[i as int]) == k);
                let ghost before = self.entries@;
                self.entries[i].offset = next;
                self.model = Ghost(self.model@.insert(k, next));
                assert(forall|j: int|
                    0 <= j < before.len() && j != i ==> self.entries@[j] == before[j]);
                assert(key_of(self.entries@[i as int]) == k);
                assert forall|j: int| 0 <= j < self.entries@.len() implies self.model@.contains_key(
                    key_of(#[trigger] self.entries@[j]),
                ) && self.model@[key_of(self.entries@[j])] == self.entries@[j].offset by {
                    if j != i {
                        assert(key_of(before[j]) != k);
                    }
                }
                assert forall|j1: int, j2: int|
                    0 <= j1 < j2 < self.entries@.len() implies key_of(#[trigger] self.entries@[j1])
                    != key_of(#[trigger] self.entries@[j2]) by {
                    assert(key_of(before[j1]) != key_of(before[j2]));
                }
                assert forall|q: PartitionKey| self.model@.contains_key(q) implies exists|j: int|
                    0 <= j < self.entries@.len() && key_of(#[trigger] self.entries@[j]) == q by {
                    if q != k {
                        let j = choose|j: int|
                            0 <= j < before.len() && key_of(#[trigger] before[j]) == q;
                        assert(key_of(self.entries@[j]) == q);
                    } else {
                        assert(key_of(self.entries@[i as int]) == q);
                    }
                }
                return;
            }
            i = i + 1;
        }
        let ghost before = self.entries@;
        self.entries.push(PartitionOffset { topic: name, partition, offset: next });
        self.model = Ghost(self.model@.insert(k, next));
        assert(forall|j: int| 0 <= j < before.len() ==> self.entries@[j] == before[j]);
        assert(forall|q: PartitionKey|
            self.model@.contains_key(q) ==> exists|j: int|
                0 <= j < self.entries@.len() && key_of(#[trigger] self.entries@[j]) == q) by {
            assert forall|q: PartitionKey| self.model@.contains_key(q) implies exists|j: int|
                0 <= j < self.entries@.len() && key_of(#[trigger] self.entries@[j]) == q by {
                if q != k {
                    let j = choose|j: int| 0 <= j < before.len() && key_of(#[trigger] before[j]) == q;
                    assert(key_of(self.entries@[j]) == q);
                } else {
                    assert(key_of(self.entries@[before.len() as int]) == q);
                }
            }
        }
    }

    /// The mapping as it stands: one entry per partition.
    pub fn snapshot(&self) -> (r: Vec<PartitionOffset>)
        requires
            self.wf(),
        ensures
            represents(r@, self@),
    {
        let mut r: Vec<PartitionOffset> = Vec::new();
        let mut i: usize = 0;
        while i < self.entries.len()
            invariant
                self.wf(),
                0 <= i <= self.entries@.len(),
                r@.len() == i,
                forall|j: int|
                    0 <= j < i ==> key_of(#[trigger] r@[j]) == key_of(self.entries@[j])
                        && r@[j].offset == self.entries@[j].offset,
            decreases self.entries@.len() - i,
        {
            let e = self.entries[i].duplicate();
            r.push(e);
            i = i + 1;
        }
        assert forall|k: PartitionKey| self@.contains_key(k) implies exists|j: int|
            0 <= j < r@.len() && key_of(#[trigger] r@[j]) == k by {
            let j = choose|j: int|
                0 <= j < self.entries@.len() && key_of(#[trigger] self.entries@[j]) == k;
            assert(key_of(r@[j]) == k);
        }
        r
    }

    /// Empties the mapping.
    pub fn clear(&mut self)
        ensures
            final(self).wf(),
            final(self)@ == Map::<PartitionKey, i64>::empty(),
    {
        self.entries.clear();
        self.model = Ghost(Map::empty());
    }

    pub fn is_empty(&self) -> (r: bool)
        requires
            self.wf(),
        ensures
            r == (self@ == Map::<PartitionKey, i64>::empty()),
    {
        let r = self.entries.len() == 0;
        if r {
            assert(self@ =~= Map::<PartitionKey, i64>::empty());
        } else {
            assert(self@.contains_key(key_of(self.entries@[0])));
        }
        r
    }
}

} // verus!
