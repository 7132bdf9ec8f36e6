//! The keyspace: byte-string keys mapped to values with an optional expiry,
//! evicted lazily when read after they expire.
use vstd::prelude::*;
use crate::codec::copy_range;

verus! {

/// A stored value and the instant, in milliseconds, at which it expires.
pub struct Entry {
    pub key: Vec<u8>,
    pub value: Vec<u8>,
    pub expires_at: Option<u64>,
}

pub struct Keyspace {
    entries: Vec<Entry>,
}

/// Whether an entry with this expiry is dead at instant `now`.
pub open spec fn expired(expires_at: Option<u64>, now: u64) -> bool {
    expires_at matches Some(t) && t <= now
}

/// The expiry that a time to live of `px` milliseconds set at `now` gives;
/// an instant past the clock's range stays at its end.
pub open spec fn expiry_after(now: u64, px: Option<u64>) -> Option<u64> {
    match px {
        Some(ms) => Some(
            if now + ms > u64::MAX {
                u64::MAX
            } else {
                (now + ms) as u64
            },
        ),
        None => None,
    }
}

pub fn bytes_eq(a: &[u8], b: &[u8]) -> (r: bool)
    ensures
        r == (a@ == b@),
{
    if a.len() != b.len() {
        return false;
    }
    let mut i: usize = 0;
    while i < a.len()
        invariant
            i <= a@.len() == b@.len(),
            forall|j: int| 0 <= j < i ==> a@[j] == b@[j],
        decreases a@.len() - i,
    {
        if a[i] != b[i] {
            return false;
        }
        i = i + 1;
    }
    assert(a@ =~= b@);
    true
}

impl View for Keyspace {
    type V = Map<Seq<u8>, (Seq<u8>, Option<u64>)>;

    closed spec fn view(&self) -> Self::V {
        Map::new(
            |k: Seq<u8>| exists|i: int| 0 <= i < self.entries@.len() && self.entries@[i].key@ == k,
            |k: Seq<u8>|
                {
                    let i = choose|i: int| 0 <= i < self.entries@.len() && self.entries@[i].key@ == k;
                    (self.entries@[i].value@, self.entries@[i].expires_at)
                },
        )
    }
}

impl Keyspace {
    /// No key appears twice.
    pub closed spec fn wf(&self) -> bool {
        forall|i: int, j: int|
            0 <= i < self.entries@.len() && 0 <= j < self.entries@.len() && i != j
                ==> self.entries@[i].key@ != self.entries@[j].key@
    }

    proof fn lemma_view_at(&self, i: int)
        requires
            self.wf(),
            0 <= i < self.entries@.len(),
        ensures
            self@.contains_key(self.entries@[i].key@),
            self@[self.entries@[i].key@] == (self.entries@[i].value@, self.entries@[i].expires_at),
    {
        let k = self.entries@[i].key@;
        assert(self@.dom().contains(k));
        let j = choose|j: int| 0 <= j < self.entries@.len() && self.entries@[j].key@ == k;
        assert(j == i);
    }

    proof fn lemma_view_absent(&self, k: Seq<u8>)
        requires
            forall|i: int| 0 <= i < self.entries@.len() ==> self.entries@[i].key@ != k,
        ensures
            !self@.contains_key(k),
    {
    }

    pub fn new() -> (r: Keyspace)
        ensures
            r.wf(),
            r@ == Map::<Seq<u8>, (Seq<u8>, Option<u64>)>::empty(),
    {
        let r = Keyspace { entries: Vec::new() };
        assert(r@ =~= Map::<Seq<u8>, (Seq<u8>, Option<u64>)>::empty());
        r
    }

    /// Where `key` is stored, if anywhere.
    fn find(&self, key: &[u8]) -> (r: Option<usize>)
        ensures
            match r {
                Some(i) => i < self.entries@.len() && self.entries@[i as int].key@ == key@,
                None => forall|i: int|
                    0 <= i < self.entries@.len() ==> self.entries@[i].key@ != key@,
            },
    {
        let mut i: usize = 0;
        while i < self.entries.len()
            invariant
                i <= self.entries@.len(),
                forall|j: int| 0 <= j < i ==> self.entries@[j].key@ != key@,
            decreases self.entries@.len() - i,
        {
            if bytes_eq(self.entries[i].key.as_slice(), key) {
                return Some(i);
            }
            i = i + 1;
        }
        None
    }

    /// Stores `value` under `key` with the given expiry, replacing any entry
    /// the key had.
    pub fn insert(&mut self, key: Vec<u8>, value: Vec<u8>, expires_at: Option<u64>)
        requires
            old(self).wf(),
        ensures
            final(self).wf(),
            final(self)@ == old(self)@.insert(key@, (value@, expires_at)),
    {
        let ghost k = key@;
        let ghost v = value@;
        let ghost pre = *self;
        match self.find(key.as_slice()) {
            Some(i) => {
                self.entries.set(i, Entry { key, value, expires_at });
                assert(self.wf()) by {
                    assert forall|a: int, b: int|
                        0 <= a < self.entries@.len() && 0 <= b < self.entries@.len() && a != b
                            implies self.entries@[a].key@ != self.entries@[b].key@ by {
                        if a != i && b != i {
                            assert(self.entries@[a] == pre.entries@[a]);
                            assert(self.entries@[b] == pre.entries@[b]);
                        } else if a == i {
                            assert(self.entries@[b] == pre.entries@[b]);
                        } else {
                            assert(self.entries@[a] == pre.entries@[a]);
                        }
                    }
                }
                assert forall|q: Seq<u8>| #[trigger]
                    self@.contains_key(q) == pre@.insert(k, (v, expires_at)).contains_key(q) && (
                    self@.contains_key(q) ==> self@[q] == pre@.insert(k, (v, expires_at))[q]) by {
                    if q == k {
                        self.lemma_view_at(i as int);
                    } else {
                        if exists|j: int| 0 <= j < pre.entries@.len() && pre.entries@[j].key@ == q {
                            let j = choose|j: int|
                                0 <= j < pre.entries@.len() && pre.entries@[j].key@ == q;
                            pre.lemma_view_at(j);
                            self.lemma_view_at(j);
                        } else {
                            assert forall|j: int| 0 <= j < self.entries@.len() implies self.entries@[j].key@
                                != q by {
                                if j != i {
                                    assert(self.entries@[j] == pre.entries@[j]);
                                }
                            }
                            self.lemma_view_absent(q);
                        }
                    }
                }
                assert(self@ =~= pre@.insert(k, (v, expires_at)));
            },
            None => {
                self.entries.push(Entry { key, value, expires_at });
                let n = self.entries.len() - 1;
                assert(self.wf()) by {
                    assert forall|a: int, b: int|
                        0 <= a < self.entries@.len() && 0 <= b < self.entries@.len() && a != b
                            implies self.entries@[a].key@ != self.entries@[b].key@ by {
                        if a < n && b < n {
                            assert(self.entries@[a] == pre.entries@[a]);
                            assert(self.entries@[b] == pre.entries@[b]);
                        } else if a == n {
                            assert(self.entries@[b] == pre.entries@[b]);
                        } else {
                            assert(self.entries@[a] == pre.entries@[a]);
                        }
                    }
                }
                assert forall|q: Seq<u8>| #[trigger]
                    self@.contains_key(q) == pre@.insert(k, (v, expires_at)).contains_key(q) && (
                    self@.contains_key(q) ==> self@[q] == pre@.insert(k, (v, expires_at))[q]) by {
                    if q == k {
                        self.lemma_view_at(n as int);
                    } else {
                        if exists|j: int| 0 <= j < pre.entries@.len() && pre.entries@[j].key@ == q {
                            let j = choose|j: int|
                                0 <= j < pre.entries@.len() && pre.entries@[j].key@ == q;
                            pre.lemma_view_at(j);
                            assert(self.entries@[j] == pre.entries@[j]);
                            self.lemma_view_at(j);
                        } else {
                            assert forall|j: int| 0 <= j < self.entries@.len() implies self.entries@[j].key@
                                != q by {
                                if j < n {
                                    assert(self.entries@[j] == pre.entries@[j]);
                                }
                            }
                            self.lemma_view_absent(q);
                        }
                    }
                }
                assert(self@ =~= pre@.insert(k, (v, expires_at)));
            },
        }
    }

    /// Removes `key` if it is present.
    pub fn remove(&mut self, key: &[u8])
        requires
            old(self).wf(),
        ensures
            final(self).wf(),
            final(self)@ == old(self)@.remove(key@),
    {
        let ghost pre = *self;
        match self.find(key) {
            Some(i) => {
                self.entries.remove(i);
                assert forall|a: int| 0 <= a < self.entries@.len() implies #[trigger] self.entries@[a]
                    == pre.entries@[if a < i {
                    a
                } else {
                    a + 1
                }] by {}
                assert(self.wf()) by {
                    assert forall|a: int, b: int|
                        0 <= a < self.entries@.len() && 0 <= b < self.entries@.len() && a != b
                            implies self.entries@[a].key@ != self.entries@[b].key@ by {
                        let a2 = if a < i {
                            a
                        } else {
                            a + 1
                        };
                        let b2 = if b < i {
                            b
                        } else {
                            b + 1
                        };
                        assert(self.entries@[a] == pre.entries@[a2]);
                        assert(self.entries@[b] == pre.entries@[b2]);
                    }
                }
                assert forall|q: Seq<u8>| #[trigger]
                    self@.contains_key(q) == pre@.remove(key@).contains_key(q) && (self@.contains_key(q)
                        ==> self@[q] == pre@.remove(key@)[q]) by {
                    if exists|j: int| 0 <= j < self.entries@.len() && self.entries@[j].key@ == q {
                        let j = choose|j: int|
                            0 <= j < self.entries@.len() && self.entries@[j].key@ == q;
                        let j2 = if j < i {
                            j
                        } else {
                            j + 1
                        };
                        assert(self.entries@[j] == pre.entries@[j2]);
                        self.lemma_view_at(j);
                        pre.lemma_view_at(j2);
                    } else {
                        self.lemma_view_absent(q);
                        if q != key@ && pre@.contains_key(q) {
                            let j = choose|j: int|
                                0 <= j < pre.entries@.len() && pre.entries@[j].key@ == q;
                            assert(j != i);
                            let j1 = if j < i {
                                j
                            } else {
                                j - 1
                            };
                            assert(self.entries@[j1] == pre.entries@[j]);
                        }
                    }
                }
                assert(self@ =~= pre@.remove(key@));
            },
            None => {
                proof {
                    self.lemma_view_absent(key@);
                }
                assert(self@ =~= pre@.remove(key@));
            },
        }
    }

    /// The value under `key` at instant `now`. An entry that has expired by
    /// `now` is removed and reads as absent.
    pub fn get(&mut self, key: &[u8], now: u64) -> (r: Option<Vec<u8>>)
        requires
            old(self).wf(),
        ensures
            final(self).wf(),
            !old(self)@.contains_key(key@) ==> r is None && final(self)@ == old(self)@,
            old(self)@.contains_key(key@) && expired(old(self)@[key@].1, now) ==> r is None
                && final(self)@ == old(self)@.remove(key@),
            old(self)@.contains_key(key@) && !expired(old(self)@[key@].1, now) ==> (r matches Some(
                v,
            ) && v@ == old(self)@[key@].0 && final(self)@ == old(self)@),
    {
        match self.find(key) {
            None => {
                proof {
                    self.lemma_view_absent(key@);
                }
                None
            },
            Some(i) => {
                proof {
                    self.lemma_view_at(i as int);
                }
                let dead = match self.entries[i].expires_at {
                    Some(t) => t <= now,
                    None => false,
                };
                if dead {
                    self.remove(key);
                    None
                } else {
                    let v = &self.entries[i].value;
                    Some(copy_range(v.as_slice(), 0, v.len()))
                }
            },
        }
    }
}

} // verus!
