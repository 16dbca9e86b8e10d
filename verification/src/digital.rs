//! Tri-state digital button tracker.
//!
//! For each tracked key the store holds two flags: "currently pressed" and
//! "changed this frame" (by a press or a release). A key without an entry is
//! defined as not pressed and not changed. [`DigitalState::update`] clears
//! every "changed this frame" flag and must be called exactly once per frame,
//! before any press or release of that frame.

use vstd::prelude::*;

use crate::kinds::ButtonKey;

verus! {

/// One tracked key with its two per-frame flags.
#[derive(Clone, Copy, PartialEq, Eq, Structural, Debug)]
struct DigitalEntry {
    key: ButtonKey,
    pressed: bool,
    changed: bool,
}

/// True iff some entry of `s` has key `k` and its "currently pressed" flag set.
spec fn seq_pressed(s: Seq<DigitalEntry>, k: ButtonKey) -> bool {
    exists|i: int| 0 <= i < s.len() && (#[trigger] s[i]).key == k && s[i].pressed
}

/// True iff some entry of `s` has key `k` and its "changed this frame" flag set.
spec fn seq_changed(s: Seq<DigitalEntry>, k: ButtonKey) -> bool {
    exists|i: int| 0 <= i < s.len() && (#[trigger] s[i]).key == k && s[i].changed
}

/// The entries of `s1` whose key is not `k` all survive into `s2` and vice
/// versa: then every key other than `k` reads the same in both.
proof fn lemma_frame(s1: Seq<DigitalEntry>, s2: Seq<DigitalEntry>, k: ButtonKey)
    requires
        forall|j: int|
            0 <= j < s1.len() && (#[trigger] s1[j]).key != k ==> exists|i: int|
                0 <= i < s2.len() && #[trigger] s2[i] == s1[j],
        forall|i: int|
            0 <= i < s2.len() && (#[trigger] s2[i]).key != k ==> exists|j: int|
                0 <= j < s1.len() && #[trigger] s1[j] == s2[i],
    ensures
        forall|k2: ButtonKey| k2 != k ==> seq_pressed(s2, k2) == seq_pressed(s1, k2),
        forall|k2: ButtonKey| k2 != k ==> seq_changed(s2, k2) == seq_changed(s1, k2),
{
    assert forall|k2: ButtonKey| k2 != k implies seq_pressed(s2, k2) == seq_pressed(s1, k2) by {
        if seq_pressed(s1, k2) {
            let j = choose|j: int| 0 <= j < s1.len() && (#[trigger] s1[j]).key == k2 && s1[j].pressed;
            let i = choose|i: int| 0 <= i < s2.len() && #[trigger] s2[i] == s1[j];
            assert(s2[i].key == k2 && s2[i].pressed);
        }
        if seq_pressed(s2, k2) {
            let i = choose|i: int| 0 <= i < s2.len() && (#[trigger] s2[i]).key == k2 && s2[i].pressed;
            let j = choose|j: int| 0 <= j < s1.len() && #[trigger] s1[j] == s2[i];
            assert(s1[j].key == k2 && s1[j].pressed);
        }
    }
    assert forall|k2: ButtonKey| k2 != k implies seq_changed(s2, k2) == seq_changed(s1, k2) by {
        if seq_changed(s1, k2) {
            let j = choose|j: int| 0 <= j < s1.len() && (#[trigger] s1[j]).key == k2 && s1[j].changed;
            let i = choose|i: int| 0 <= i < s2.len() && #[trigger] s2[i] == s1[j];
            assert(s2[i].key == k2 && s2[i].changed);
        }
        if seq_changed(s2, k2) {
            let i = choose|i: int| 0 <= i < s2.len() && (#[trigger] s2[i]).key == k2 && s2[i].changed;
            let j = choose|j: int| 0 <= j < s1.len() && #[trigger] s1[j] == s2[i];
            assert(s1[j].key == k2 && s1[j].changed);
        }
    }
}

/// Tri-state digital button tracker: for every key it answers "currently
/// pressed", "pressed this frame" and "released this frame".
pub struct DigitalState {
    entries: Vec<DigitalEntry>,
}

impl DigitalState {
    /// Well-formedness: each key has at most one entry.
    pub closed spec fn wf(self) -> bool {
        forall|i: int, j: int|
            0 <= i < j < self.entries@.len() ==> (#[trigger] self.entries@[i]).key != (
            #[trigger] self.entries@[j]).key
    }

    /// `k` is currently pressed.
    pub closed spec fn spec_pressed(self, k: ButtonKey) -> bool {
        seq_pressed(self.entries@, k)
    }

    /// `k` was pressed or released this frame.
    pub closed spec fn spec_changed(self, k: ButtonKey) -> bool {
        seq_changed(self.entries@, k)
    }

    /// `k` went down this frame and is still down.
    pub open spec fn spec_just_pressed(self, k: ButtonKey) -> bool {
        self.spec_pressed(k) && self.spec_changed(k)
    }

    /// `k` went up this frame.
    pub open spec fn spec_just_released(self, k: ButtonKey) -> bool {
        !self.spec_pressed(k) && self.spec_changed(k)
    }

    /// In any state, at most one of just-pressed and just-released holds for
    /// a given key; an untouched key reports neither.
    pub proof fn lemma_just_flags_exclusive(self, k: ButtonKey)
        ensures
            !(self.spec_just_pressed(k) && self.spec_just_released(k)),
            !self.spec_changed(k) ==> !self.spec_just_pressed(k) && !self.spec_just_released(k),
    {
    }

    /// An empty store: every key reads as never touched.
    pub fn new() -> (s: Self)
        ensures
            s.wf(),
            forall|k: ButtonKey| !s.spec_pressed(k) && !s.spec_changed(k),
    {
        DigitalState { entries: Vec::new() }
    }

    /// Index of the entry for `k`, if one exists.
    fn find(&self, k: ButtonKey) -> (r: Option<usize>)
        ensures
            match r {
                Some(i) => i < self.entries@.len() && self.entries@[i as int].key == k,
                None => forall|j: int|
                    0 <= j < self.entries@.len() ==> (#[trigger] self.entries@[j]).key != k,
            },
    {
        let mut i: usize = 0;
        while i < self.entries.len()
            invariant
                i <= self.entries@.len(),
                forall|j: int| 0 <= j < i ==> (#[trigger] self.entries@[j]).key != k,
            decreases self.entries@.len() - i,
        {
            if self.entries[i].key == k {
                return Some(i);
            }
            i = i + 1;
        }
        None
    }

    /// Store `entry` under its key, replacing the key's entry if one exists.
    /// Every other key reads as before.
    fn put(&mut self, entry: DigitalEntry)
        requires
            old(self).wf(),
        ensures
            final(self).wf(),
            final(self).spec_pressed(entry.key) == entry.pressed,
            final(self).spec_changed(entry.key) == entry.changed,
            forall|k2: ButtonKey|
                k2 != entry.key ==> final(self).spec_pressed(k2) == old(self).spec_pressed(k2)
                    && final(self).spec_changed(k2) == old(self).spec_changed(k2),
    {
        let ghost s1 = self.entries@;
        let k = entry.key;
        let found = self.find(k);
        match found {
            Some(i) => {
                self.entries.set(i, entry);
                proof {
                    let s2 = self.entries@;
                    assert forall|a: int, b: int| 0 <= a < b < s2.len() implies (
                    #[trigger] s2[a]).key != (#[trigger] s2[b]).key by {
                        assert(s2[a].key == s1[a].key);
                        assert(s2[b].key == s1[b].key);
                    }
                    assert(s2[i as int] == entry);
                    self.lemma_entry_reads(k, i as int);
                    assert forall|j: int|
                        0 <= j < s1.len() && (#[trigger] s1[j]).key != k implies exists|i2: int|
                        0 <= i2 < s2.len() && #[trigger] s2[i2] == s1[j] by {
                        assert(s2[j] == s1[j]);
                    }
                    assert forall|i2: int|
                        0 <= i2 < s2.len() && (#[trigger] s2[i2]).key != k implies exists|j: int|
                        0 <= j < s1.len() && #[trigger] s1[j] == s2[i2] by {
                        assert(s1[i2] == s2[i2]);
                    }
                    lemma_frame(s1, s2, k);
                }
            },
            None => {
                self.entries.push(entry);
                proof {
                    let s2 = self.entries@;
                    let n = s1.len() as int;
                    assert forall|a: int, b: int| 0 <= a < b < s2.len() implies (
                    #[trigger] s2[a]).key != (#[trigger] s2[b]).key by {
                        if b < n {
                            assert(s2[a] == s1[a] && s2[b] == s1[b]);
                        } else {
                            assert(s2[a] == s1[a] && s2[b] == entry);
                        }
                    }
                    assert(s2[n] == entry);
                    self.lemma_entry_reads(k, n);
                    assert forall|j: int|
                        0 <= j < s1.len() && (#[trigger] s1[j]).key != k implies exists|i2: int|
                        0 <= i2 < s2.len() && #[trigger] s2[i2] == s1[j] by {
                        assert(s2[j] == s1[j]);
                    }
                    assert forall|i2: int|
                        0 <= i2 < s2.len() && (#[trigger] s2[i2]).key != k implies exists|j: int|
                        0 <= j < s1.len() && #[trigger] s1[j] == s2[i2] by {
                        assert(i2 != n);
                        assert(s1[i2] == s2[i2]);
                    }
                    lemma_frame(s1, s2, k);
                }
            },
        }
    }

    /// Under `wf`, the entry at index `i` decides what its key reads as.
    proof fn lemma_entry_reads(self, k: ButtonKey, i: int)
        requires
            self.wf(),
            0 <= i < self.entries@.len(),
            self.entries@[i].key == k,
        ensures
            self.spec_pressed(k) == self.entries@[i].pressed,
            self.spec_changed(k) == self.entries@[i].changed,
    {
        let s = self.entries@;
        if s[i].pressed {
            assert(seq_pressed(s, k));
        } else {
            if seq_pressed(s, k) {
                let j = choose|j: int| 0 <= j < s.len() && (#[trigger] s[j]).key == k && s[j].pressed;
                assert(j == i);
            }
        }
        if s[i].changed {
            assert(seq_changed(s, k));
        } else {
            if seq_changed(s, k) {
                let j = choose|j: int| 0 <= j < s.len() && (#[trigger] s[j]).key == k && s[j].changed;
                assert(j == i);
            }
        }
    }

    /// Record that `k` went down: it now reads as pressed and changed this
    /// frame, whatever its prior state; a missing entry is created.
    pub fn press(&mut self, k: ButtonKey)
        requires
            old(self).wf(),
        ensures
            final(self).wf(),
            final(self).spec_pressed(k),
            final(self).spec_changed(k),
            forall|k2: ButtonKey|
                k2 != k ==> final(self).spec_pressed(k2) == old(self).spec_pressed(k2)
                    && final(self).spec_changed(k2) == old(self).spec_changed(k2),
    {
        self.put(DigitalEntry { key: k, pressed: true, changed: true });
    }

    /// Record that `k` went up: it now reads as not pressed and changed this
    /// frame, whatever its prior state.
    pub fn release(&mut self, k: ButtonKey)
        requires
            old(self).wf(),
        ensures
            final(self).wf(),
            !final(self).spec_pressed(k),
            final(self).spec_changed(k),
            forall|k2: ButtonKey|
                k2 != k ==> final(self).spec_pressed(k2) == old(self).spec_pressed(k2)
                    && final(self).spec_changed(k2) == old(self).spec_changed(k2),
    {
        self.put(DigitalEntry { key: k, pressed: false, changed: true });
    }

    /// Forget `k` entirely: it reads as never pressed with no change this
    /// frame, even if it was pressed or released earlier in the same frame.
    pub fn reset(&mut self, k: ButtonKey)
        requires
            old(self).wf(),
        ensures
            final(self).wf(),
            !final(self).spec_pressed(k),
            !final(self).spec_changed(k),
            forall|k2: ButtonKey|
                k2 != k ==> final(self).spec_pressed(k2) == old(self).spec_pressed(k2)
                    && final(self).spec_changed(k2) == old(self).spec_changed(k2),
    {
        let ghost s1 = self.entries@;
        let found = self.find(k);
        match found {
            Some(i) => {
                self.entries.remove(i);
                proof {
                    let s2 = self.entries@;
                    let n = s1.len() as int;
                    assert forall|a: int, b: int| 0 <= a < b < s2.len() implies (
                    #[trigger] s2[a]).key != (#[trigger] s2[b]).key by {
                        let a1: int = if a < i { a } else { a + 1 };
                        let b1: int = if b < i { b } else { b + 1 };
                        assert(s2[a] == s1[a1] && s2[b] == s1[b1]);
                    }
                    assert forall|j: int|
                        0 <= j < s1.len() && (#[trigger] s1[j]).key != k implies exists|i2: int|
                        0 <= i2 < s2.len() && #[trigger] s2[i2] == s1[j] by {
                        if j < i {
                            assert(s2[j] == s1[j]);
                        } else {
                            assert(j != i);
                            assert(s2[j - 1] == s1[j]);
                        }
                    }
                    assert forall|i2: int|
                        0 <= i2 < s2.len() && (#[trigger] s2[i2]).key != k implies exists|j: int|
                        0 <= j < s1.len() && #[trigger] s1[j] == s2[i2] by {
                        if i2 < i {
                            assert(s1[i2] == s2[i2]);
                        } else {
                            assert(s1[i2 + 1] == s2[i2]);
                        }
                    }
                    lemma_frame(s1, s2, k);
                    if seq_pressed(s2, k) {
                        let j = choose|j: int|
                            0 <= j < s2.len() && (#[trigger] s2[j]).key == k && s2[j].pressed;
                        let j1: int = if j < i { j } else { j + 1 };
                        assert(s2[j] == s1[j1]);
                        assert(s1[j1].key == k && s1[i as int].key == k && j1 != i as int);
                        assert(false);
                    }
                    if seq_changed(s2, k) {
                        let j = choose|j: int|
                            0 <= j < s2.len() && (#[trigger] s2[j]).key == k && s2[j].changed;
                        let j1: int = if j < i { j } else { j + 1 };
                        assert(s2[j] == s1[j1]);
                        assert(s1[j1].key == k && s1[i as int].key == k && j1 != i as int);
                        assert(false);
                    }
                }
            },
            None => {
                proof {
                    if seq_pressed(s1, k) {
                        let j = choose|j: int|
                            0 <= j < s1.len() && (#[trigger] s1[j]).key == k && s1[j].pressed;
                    }
                    if seq_changed(s1, k) {
                        let j = choose|j: int|
                            0 <= j < s1.len() && (#[trigger] s1[j]).key == k && s1[j].changed;
                    }
                }
            },
        }
    }

    /// Begin-frame reset: clear every "changed this frame" flag, leaving
    /// "currently pressed" untouched. Idempotent when no press or release
    /// intervenes.
    pub fn update(&mut self)
        requires
            old(self).wf(),
        ensures
            final(self).wf(),
            forall|k: ButtonKey| final(self).spec_pressed(k) == old(self).spec_pressed(k),
            forall|k: ButtonKey| !final(self).spec_changed(k),
    {
        let ghost s1 = self.entries@;
        let mut i: usize = 0;
        while i < self.entries.len()
            invariant
                i <= self.entries@.len(),
                self.entries@.len() == s1.len(),
                forall|j: int|
                    0 <= j < s1.len() ==> (#[trigger] self.entries@[j]).key == s1[j].key
                        && self.entries@[j].pressed == s1[j].pressed,
                forall|j: int| 0 <= j < i ==> !(#[trigger] self.entries@[j]).changed,
                forall|j: int| i <= j < s1.len() ==> #[trigger] self.entries@[j] == s1[j],
            decreases self.entries@.len() - i,
        {
            let e = self.entries[i];
            self.entries.set(i, DigitalEntry { key: e.key, pressed: e.pressed, changed: false });
            i = i + 1;
        }
        proof {
            let s2 = self.entries@;
            assert forall|a: int, b: int| 0 <= a < b < s2.len() implies (#[trigger] s2[a]).key != (
            #[trigger] s2[b]).key by {
                assert(s2[a].key == s1[a].key && s2[b].key == s1[b].key);
            }
            assert forall|k: ButtonKey| seq_pressed(s2, k) == seq_pressed(s1, k) by {
                if seq_pressed(s1, k) {
                    let j = choose|j: int|
                        0 <= j < s1.len() && (#[trigger] s1[j]).key == k && s1[j].pressed;
                    assert(s2[j].key == k && s2[j].pressed);
                }
                if seq_pressed(s2, k) {
                    let j = choose|j: int|
                        0 <= j < s2.len() && (#[trigger] s2[j]).key == k && s2[j].pressed;
                    assert(s1[j].key == k && s1[j].pressed);
                }
            }
            assert forall|k: ButtonKey| !seq_changed(s2, k) by {
                if seq_changed(s2, k) {
                    let j = choose|j: int|
                        0 <= j < s2.len() && (#[trigger] s2[j]).key == k && s2[j].changed;
                }
            }
        }
    }

    /// `k` is currently pressed.
    pub fn pressed(&self, k: ButtonKey) -> (r: bool)
        requires
            self.wf(),
        ensures
            r == self.spec_pressed(k),
    {
        let found = self.find(k);
        match found {
            Some(i) => {
                proof {
                    self.lemma_entry_reads(k, i as int);
                }
                self.entries[i].pressed
            },
            None => {
                proof {
                    if seq_pressed(self.entries@, k) {
                        let j = choose|j: int|
                            0 <= j < self.entries@.len() && (#[trigger] self.entries@[j]).key == k
                                && self.entries@[j].pressed;
                    }
                }
                false
            },
        }
    }

    /// `k` was pressed or released this frame.
    fn changed(&self, k: ButtonKey) -> (r: bool)
        requires
            self.wf(),
        ensures
            r == self.spec_changed(k),
    {
        let found = self.find(k);
        match found {
            Some(i) => {
                proof {
                    self.lemma_entry_reads(k, i as int);
                }
                self.entries[i].changed
            },
            None => {
                proof {
                    if seq_changed(self.entries@, k) {
                        let j = choose|j: int|
                            0 <= j < self.entries@.len() && (#[trigger] self.entries@[j]).key == k
                                && self.entries@[j].changed;
                    }
                }
                false
            },
        }
    }

    /// `k` went down this frame and is still down.
    pub fn just_pressed(&self, k: ButtonKey) -> (r: bool)
        requires
            self.wf(),
        ensures
            r == self.spec_just_pressed(k),
    {
        self.pressed(k) && self.changed(k)
    }

    /// `k` went up this frame.
    pub fn just_released(&self, k: ButtonKey) -> (r: bool)
        requires
            self.wf(),
        ensures
            r == self.spec_just_released(k),
    {
        !self.pressed(k) && self.changed(k)
    }
}

} // verus!
