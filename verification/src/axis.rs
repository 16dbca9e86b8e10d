//! Continuous-axis value store.
//!
//! A pure last-write-wins store: `set` overwrites, `get` returns the last
//! stored value or reports the key as absent, `remove` deletes the entry.
//! Values are the raw 32-bit patterns of the hardware's normalized readings
//! (IEEE 754 single precision, passed through untouched); the store never
//! interprets them, and shaping such as deadzones is a consumer concern.

use vstd::prelude::*;

use crate::kinds::AxisKey;

verus! {

/// One stored axis value.
#[derive(Clone, Copy, PartialEq, Eq, Structural, Debug)]
struct AxisEntry {
    key: AxisKey,
    value: u32,
}

/// True iff some entry of `s` has key `k`.
spec fn seq_contains(s: Seq<AxisEntry>, k: AxisKey) -> bool {
    exists|i: int| 0 <= i < s.len() && (#[trigger] s[i]).key == k
}

/// The value stored under `k`; meaningful only when the keys of `s` are
/// unique and `seq_contains(s, k)` holds.
spec fn seq_value(s: Seq<AxisEntry>, k: AxisKey) -> u32 {
    s[choose|i: int| 0 <= i < s.len() && (#[trigger] s[i]).key == k].value
}

/// Continuous-axis value store over (device, axis kind) keys.
pub struct AxisState {
    entries: Vec<AxisEntry>,
}

impl AxisState {
    /// Well-formedness: each key has at most one entry.
    pub closed spec fn wf(self) -> bool {
        forall|i: int, j: int|
            0 <= i < j < self.entries@.len() ==> (#[trigger] self.entries@[i]).key != (
            #[trigger] self.entries@[j]).key
    }

    /// An entry for `k` exists.
    pub closed spec fn spec_contains(self, k: AxisKey) -> bool {
        seq_contains(self.entries@, k)
    }

    /// The value stored under `k`; meaningful only when `spec_contains(k)`.
    pub closed spec fn spec_value(self, k: AxisKey) -> u32 {
        seq_value(self.entries@, k)
    }

    /// What a read of `k` reports: the last stored value, or absent.
    pub open spec fn spec_get(self, k: AxisKey) -> Option<u32> {
        if self.spec_contains(k) {
            Some(self.spec_value(k))
        } else {
            None
        }
    }

    /// An empty store: every key reads as absent.
    pub fn new() -> (s: Self)
        ensures
            s.wf(),
            forall|k: AxisKey| s.spec_get(k) == Option::<u32>::None,
    {
        AxisState { entries: Vec::new() }
    }

    /// Under `wf`, the entry at index `i` decides what its key reads as.
    proof fn lemma_entry_reads(self, k: AxisKey, i: int)
        requires
            self.wf(),
            0 <= i < self.entries@.len(),
            self.entries@[i].key == k,
        ensures
            self.spec_contains(k),
            self.spec_value(k) == self.entries@[i].value,
    {
        let s = self.entries@;
        assert(seq_contains(s, k));
        let j = choose|j: int| 0 <= j < s.len() && (#[trigger] s[j]).key == k;
        assert(j == i);
    }

    /// Index of the entry for `k`, if one exists.
    fn find(&self, k: AxisKey) -> (r: Option<usize>)
        ensures
            match r {
                Some(i) => i < self.entries@.len() && self.entries@[i as int].key == k,
                None => forall|j: int|
                    0 <= j < self.entries@.len() ==> (#[trigger] self.entries@[j]).key != k,
            },
    {
        let mut i: usize = 0;
        while i < self.entries.len()
            invariant
                i <= self.entries@.len(),
                forall|j: int| 0 <= j < i ==> (#[trigger] self.entries@[j]).key != k,
            decreases self.entries@.len() - i,
        {
            if self.entries[i].key == k {
                return Some(i);
            }
            i = i + 1;
        }
        None
    }

    /// Unconditionally store `v` under `k`, overwriting any prior value and
    /// creating the entry if absent. Every other key reads as before.
    pub fn set(&mut self, k: AxisKey, v: u32)
        requires
            old(self).wf(),
        ensures
            final(self).wf(),
            final(self).spec_get(k) == Some(v),
            forall|k2: AxisKey| k2 != k ==> final(self).spec_get(k2) == old(self).spec_get(k2),
    {
        let ghost s1 = self.entries@;
        let entry = AxisEntry { key: k, value: v };
        let found = self.find(k);
        match found {
            Some(i) => {
                self.entries.set(i, entry);
                proof {
                    let s2 = self.entries@;
                    assert forall|a: int, b: int| 0 <= a < b < s2.len() implies (
                    #[trigger] s2[a]).key != (#[trigger] s2[b]).key by {
                        assert(s2[a].key == s1[a].key);
                        assert(s2[b].key == s1[b].key);
                    }
                    assert(s2[i as int] == entry);
                    self.lemma_entry_reads(k, i as int);
                    assert forall|j: int|
                        0 <= j < s1.len() && (#[trigger] s1[j]).key != k implies exists|i2: int|
                        0 <= i2 < s2.len() && #[trigger] s2[i2] == s1[j] by {
                        assert(s2[j] == s1[j]);
                    }
                    assert forall|i2: int|
                        0 <= i2 < s2.len() && (#[trigger] s2[i2]).key != k implies exists|j: int|
                        0 <= j < s1.len() && #[trigger] s1[j] == s2[i2] by {
                        assert(s1[i2] == s2[i2]);
                    }
                    self.lemma_frame(*old(self), k);
                }
            },
            None => {
                self.entries.push(entry);
                proof {
                    let s2 = self.entries@;
                    let n = s1.len() as int;
                    assert forall|a: int, b: int| 0 <= a < b < s2.len() implies (
                    #[trigger] s2[a]).key != (#[trigger] s2[b]).key by {
                        if b < n {
                            assert(s2[a] == s1[a] && s2[b] == s1[b]);
                        } else {
                            assert(s2[a] == s1[a] && s2[b] == entry);
                        }
                    }
                    assert(s2[n] == entry);
                    self.lemma_entry_reads(k, n);
                    assert forall|j: int|
                        0 <= j < s1.len() && (#[trigger] s1[j]).key != k implies exists|i2: int|
                        0 <= i2 < s2.len() && #[trigger] s2[i2] == s1[j] by {
                        assert(s2[j] == s1[j]);
                    }
                    assert forall|i2: int|
                        0 <= i2 < s2.len() && (#[trigger] s2[i2]).key != k implies exists|j: int|
                        0 <= j < s1.len() && #[trigger] s1[j] == s2[i2] by {
                        assert(i2 != n);
                        assert(s1[i2] == s2[i2]);
                    }
                    self.lemma_frame(*old(self), k);
                }
            },
        }
    }

    /// Both states are well formed and every entry with a key other than `k`
    /// survives from `pre` to `self` and back: then every key other than `k`
    /// reads the same in both.
    proof fn lemma_frame(self, pre: AxisState, k: AxisKey)
        requires
            pre.wf(),
            self.wf(),
            forall|j: int|
                0 <= j < pre.entries@.len() && (#[trigger] pre.entries@[j]).key != k
                    ==> exists|i: int|
                    0 <= i < self.entries@.len() && #[trigger] self.entries@[i] == pre.entries@[j],
            forall|i: int|
                0 <= i < self.entries@.len() && (#[trigger] self.entries@[i]).key != k
                    ==> exists|j: int|
                    0 <= j < pre.entries@.len() && #[trigger] pre.entries@[j] == self.entries@[i],
        ensures
            forall|k2: AxisKey| k2 != k ==> self.spec_get(k2) == pre.spec_get(k2),
    {
        let s1 = pre.entries@;
        let s2 = self.entries@;
        assert forall|k2: AxisKey| k2 != k implies self.spec_get(k2) == pre.spec_get(k2) by {
            if seq_contains(s1, k2) {
                let j = choose|j: int| 0 <= j < s1.len() && (#[trigger] s1[j]).key == k2;
                let i = choose|i: int| 0 <= i < s2.len() && #[trigger] s2[i] == s1[j];
                pre.lemma_entry_reads(k2, j);
                self.lemma_entry_reads(k2, i);
            }
            if seq_contains(s2, k2) {
                let i = choose|i: int| 0 <= i < s2.len() && (#[trigger] s2[i]).key == k2;
                let j = choose|j: int| 0 <= j < s1.len() && #[trigger] s1[j] == s2[i];
                assert(seq_contains(s1, k2));
            }
        }
    }

    /// Delete the entry for `k`; it reads as absent afterwards. Every other
    /// key reads as before.
    pub fn remove(&mut self, k: AxisKey)
        requires
            old(self).wf(),
        ensures
            final(self).wf(),
            final(self).spec_get(k) == Option::<u32>::None,
            forall|k2: AxisKey| k2 != k ==> final(self).spec_get(k2) == old(self).spec_get(k2),
    {
        let ghost s1 = self.entries@;
        let found = self.find(k);
        match found {
            Some(i) => {
                self.entries.remove(i);
                proof {
                    let s2 = self.entries@;
                    assert forall|a: int, b: int| 0 <= a < b < s2.len() implies (
                    #[trigger] s2[a]).key != (#[trigger] s2[b]).key by {
                        let a1: int = if a < i { a } else { a + 1 };
                        let b1: int = if b < i { b } else { b + 1 };
                        assert(s2[a] == s1[a1] && s2[b] == s1[b1]);
                    }
                    assert forall|j: int|
                        0 <= j < s1.len() && (#[trigger] s1[j]).key != k implies exists|i2: int|
                        0 <= i2 < s2.len() && #[trigger] s2[i2] == s1[j] by {
                        if j < i {
                            assert(s2[j] == s1[j]);
                        } else {
                            assert(j != i);
                            assert(s2[j - 1] == s1[j]);
                        }
                    }
                    assert forall|i2: int|
                        0 <= i2 < s2.len() && (#[trigger] s2[i2]).key != k implies exists|j: int|
                        0 <= j < s1.len() && #[trigger] s1[j] == s2[i2] by {
                        if i2 < i {
                            assert(s1[i2] == s2[i2]);
                        } else {
                            assert(s1[i2 + 1] == s2[i2]);
                        }
                    }
                    self.lemma_frame(*old(self), k);
                    if seq_contains(s2, k) {
                        let j = choose|j: int| 0 <= j < s2.len() && (#[trigger] s2[j]).key == k;
                        let j1: int = if j < i { j } else { j + 1 };
                        assert(s2[j] == s1[j1]);
                        assert(s1[j1].key == k && s1[i as int].key == k && j1 != i as int);
                        assert(false);
                    }
                }
            },
            None => {
                proof {
                    if seq_contains(s1, k) {
                        let j = choose|j: int| 0 <= j < s1.len() && (#[trigger] s1[j]).key == k;
                    }
                }
            },
        }
    }

    /// The last value stored under `k`, or `None` if never set or removed.
    pub fn get(&self, k: AxisKey) -> (r: Option<u32>)
        requires
            self.wf(),
        ensures
            r == self.spec_get(k),
    {
        let found = self.find(k);
        match found {
            Some(i) => {
                proof {
                    self.lemma_entry_reads(k, i as int);
                }
                Some(self.entries[i].value)
            },
            None => {
                proof {
                    if seq_contains(self.entries@, k) {
                        let j = choose|j: int|
                            0 <= j < self.entries@.len() && (#[trigger] self.entries@[j]).key == k;
                    }
                }
                None
            },
        }
    }
}

} // verus!
