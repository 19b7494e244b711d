use vstd::prelude::*;
use crate::classify::{Classification, same_result};
use crate::tier::Tier;

verus! {

/// What a cached classification is keyed by: the file's content and the
/// classification settings it was made with.
#[derive(Clone, Copy, Debug, PartialEq, Eq, Structural)]
pub struct CacheKey {
    pub content_hash: u64,
    pub config: u64,
}

pub open spec fn tier_index(t: Tier) -> nat {
    match t {
        Tier::Free => 0,
        Tier::Pro => 1,
        Tier::Enterprise => 2,
    }
}

/// The settings of a classification as one number: distinct settings, distinct numbers.
pub open spec fn config_of(deep: bool, multi: bool, tier: Tier) -> nat {
    (if deep {
        1nat
    } else {
        0nat
    }) + (if multi {
        2nat
    } else {
        0nat
    }) + 4 * tier_index(tier)
}

/// The settings of a classification as one number.
pub fn model_config(deep_analysis: bool, use_multi_model: bool, tier: Tier) -> (r: u64)
    ensures
        r == config_of(deep_analysis, use_multi_model, tier),
{
    let d: u64 = if deep_analysis {
        1
    } else {
        0
    };
    let m: u64 = if use_multi_model {
        2
    } else {
        0
    };
    let t: u64 = match tier {
        Tier::Free => 0,
        Tier::Pro => 4,
        Tier::Enterprise => 8,
    };
    d + m + t
}

/// Whether some entry of `es` has key `k`.
pub open spec fn cached(es: Seq<(CacheKey, Classification)>, k: CacheKey) -> bool {
    exists|i: int| 0 <= i < es.len() && es[i].0 == k
}

pub open spec fn keys_unique(es: Seq<(CacheKey, Classification)>) -> bool {
    forall|i: int, j: int| 0 <= i < j < es.len() ==> es[i].0 != es[j].0
}

/// `s`, cut to its first `cap` entries.
pub open spec fn trimmed(s: Seq<(CacheKey, Classification)>, cap: nat) -> Seq<(CacheKey, Classification)> {
    if s.len() > cap {
        s.subrange(0, cap as int)
    } else {
        s
    }
}

/// A bounded cache of classifications, the most recently used first; when it
/// is full, the least recently used entry leaves. It also tracks which keys are
/// being classified, so that no key is classified twice at once.
pub struct ClassificationCache {
    capacity: usize,
    entries: Vec<(CacheKey, Classification)>,
    in_flight: Vec<CacheKey>,
}

impl ClassificationCache {
    pub closed spec fn capacity(&self) -> nat {
        self.capacity as nat
    }

    /// The cached entries, the most recently used first.
    pub closed spec fn entries(&self) -> Seq<(CacheKey, Classification)> {
        self.entries@
    }

    /// The keys being classified now.
    pub closed spec fn in_flight(&self) -> Seq<CacheKey> {
        self.in_flight@
    }

    pub open spec fn wf(&self) -> bool {
        &&& self.capacity() > 0
        &&& self.entries().len() <= self.capacity()
        &&& keys_unique(self.entries())
    }

    /// An empty cache holding at most `capacity` entries.
    pub fn new(capacity: usize) -> (r: ClassificationCache)
        requires
            capacity > 0,
        ensures
            r.wf(),
            r.capacity() == capacity,
            r.entries().len() == 0,
            r.in_flight().len() == 0,
    {
        ClassificationCache { capacity, entries: Vec::new(), in_flight: Vec::new() }
    }

    fn position(&self, key: CacheKey) -> (r: Option<usize>)
        ensures
            r matches Some(i) ==> i < self.entries().len() && self.entries()[i as int].0 == key,
            r is None ==> !cached(self.entries(), key),
    {
        let mut i: usize = 0;
        while i < self.entries.len()
            invariant
                i <= self.entries@.len(),
                forall|j: int| 0 <= j < i ==> self.entries@[j].0 != key,
            decreases self.entries@.len() - i,
        {
            if self.entries[i].0 == key {
                return Some(i);
            }
            i = i + 1;
        }
        None
    }

    /// The cached classification under `key`, if any; a hit becomes the most
    /// recently used entry.
    pub fn get(&mut self, key: CacheKey) -> (r: Option<Classification>)
        requires
            old(self).wf(),
        ensures
            final(self).wf(),
            final(self).capacity() == old(self).capacity(),
            final(self).in_flight() == old(self).in_flight(),
            r is None <==> !cached(old(self).entries(), key),
            r is None ==> final(self).entries() == old(self).entries(),
            forall|i: int|
                0 <= i < old(self).entries().len() && old(self).entries()[i].0 == key ==> {
                    &&& r matches Some(c) && same_result(c, old(self).entries()[i].1)
                    &&& final(self).entries() == seq![old(self).entries()[i]] + old(
                        self,
                    ).entries().remove(i)
                },
    {
        match self.position(key) {
            None => None,
            Some(i) => {
                let e = self.entries.remove(i);
                let c = e.1.duplicate();
                self.entries.insert(0, e);
                proof {
                    let o = old(self).entries@;
                    assert(self.entries@ =~= seq![o[i as int]] + o.remove(i as int));
                    assert forall|j: int| 0 <= j < o.len() && o[j].0 == key implies j == i by {}
                    assert forall|a: int, b: int| 0 <= a < b < self.entries@.len() implies
                        self.entries@[a].0 != self.entries@[b].0 by {
                        let ia = if a == 0 { i as int } else if a - 1 < i { a - 1 } else { a };
                        let ib = if b - 1 < i { b - 1 } else { b };
                        assert(self.entries@[a] == o[ia]);
                        assert(self.entries@[b] == o[ib]);
                    }
                }
                Some(c)
            },
        }
    }

    /// Stores `value` under `key` as the most recently used entry, replacing
    /// what was there; a full cache lets its least recently used entry go.
    pub fn put(&mut self, key: CacheKey, value: Classification)
        requires
            old(self).wf(),
        ensures
            final(self).wf(),
            final(self).capacity() == old(self).capacity(),
            final(self).in_flight() == old(self).in_flight(),
            !cached(old(self).entries(), key) ==> final(self).entries() == trimmed(
                seq![(key, value)] + old(self).entries(),
                old(self).capacity(),
            ),
            forall|i: int|
                0 <= i < old(self).entries().len() && old(self).entries()[i].0 == key
                    ==> final(self).entries() == seq![(key, value)] + old(self).entries().remove(i),
    {
        let ghost o = self.entries@;
        let ghost rest: Seq<(CacheKey, Classification)>;
        match self.position(key) {
            Some(i) => {
                self.entries.remove(i);
                proof {
                    rest = o.remove(i as int);
                    assert forall|j: int| 0 <= j < o.len() && o[j].0 == key implies j == i by {}
                    assert forall|j: int| 0 <= j < rest.len() implies rest[j].0 != key by {
                        let oj = if j < i { j } else { j + 1 };
                        assert(rest[j] == o[oj]);
                    }
                    assert forall|a: int, b: int| 0 <= a < b < rest.len() implies rest[a].0 != rest[b].0 by {
                        let oa = if a < i { a } else { a + 1 };
                        let ob = if b < i { b } else { b + 1 };
                        assert(rest[a] == o[oa]);
                        assert(rest[b] == o[ob]);
                    }
                }
            },
            None => {
                proof {
                    rest = o;
                }
            },
        }
        assert(self.entries@ == rest);
        assert(keys_unique(rest));
        assert(forall|j: int| 0 <= j < rest.len() ==> rest[j].0 != key);
        self.entries.insert(0, (key, value));
        let ghost full = self.entries@;
        assert(full =~= seq![(key, value)] + rest);
        assert(keys_unique(full)) by {
            assert forall|a: int, b: int| 0 <= a < b < full.len() implies full[a].0 != full[b].0 by {
                assert(full[b] == rest[b - 1]);
                if a > 0 {
                    assert(full[a] == rest[a - 1]);
                }
            }
        }
        if self.entries.len() > self.capacity {
            self.entries.pop();
            assert(self.entries@ =~= full.subrange(0, self.capacity as int));
        }
    }

    /// Claims `key` for classification: `false` when it is being classified already.
    pub fn begin(&mut self, key: CacheKey) -> (r: bool)
        requires
            old(self).wf(),
        ensures
            final(self).wf(),
            final(self).capacity() == old(self).capacity(),
            final(self).entries() == old(self).entries(),
            r == !old(self).in_flight().contains(key),
            r ==> final(self).in_flight() == old(self).in_flight().push(key),
            !r ==> final(self).in_flight() == old(self).in_flight(),
    {
        let mut i: usize = 0;
        while i < self.in_flight.len()
            invariant
                self.wf(),
                i <= self.in_flight@.len(),
                forall|j: int| 0 <= j < i ==> self.in_flight@[j] != key,
            decreases self.in_flight@.len() - i,
        {
            if self.in_flight[i] == key {
                assert(self.in_flight@.contains(key));
                return false;
            }
            i = i + 1;
        }
        self.in_flight.push(key);
        true
    }

    /// Releases every claim on `key`.
    pub fn finish(&mut self, key: CacheKey)
        requires
            old(self).wf(),
        ensures
            final(self).wf(),
            final(self).capacity() == old(self).capacity(),
            final(self).entries() == old(self).entries(),
            final(self).in_flight() == old(self).in_flight().filter(|k: CacheKey| k != key),
    {
        let mut kept: Vec<CacheKey> = Vec::new();
        let mut i: usize = 0;
        while i < self.in_flight.len()
            invariant
                i <= self.in_flight@.len(),
                kept@ == self.in_flight@.subrange(0, i as int).filter(|k: CacheKey| k != key),
            decreases self.in_flight@.len() - i,
        {
            proof {
                reveal(Seq::filter);
                assert(self.in_flight@.subrange(0, i + 1).drop_last() =~= self.in_flight@.subrange(0, i as int));
            }
            if self.in_flight[i] != key {
                kept.push(self.in_flight[i]);
            }
            i = i + 1;
        }
        assert(self.in_flight@.subrange(0, self.in_flight@.len() as int) =~= self.in_flight@);
        self.in_flight = kept;
    }
}

} // verus!
