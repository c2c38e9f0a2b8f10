//! Per-splat selection state: one byte of flags per splat, with cached counts
//! of the selected, locked and deleted splats.
use vstd::prelude::*;
use crate::splat_state::{DELETED, LOCKED, NORMAL, SELECTED, SelectionOp};

verus! {

pub open spec fn has_flag(s: u8, f: u8) -> bool {
    s & f != 0
}

/// Selection operations may change the splat: it is neither locked nor deleted.
pub open spec fn selectable(s: u8) -> bool {
    !has_flag(s, LOCKED) && !has_flag(s, DELETED)
}

/// A selected splat is neither locked nor deleted.
pub open spec fn exclusive(s: u8) -> bool {
    has_flag(s, SELECTED) ==> selectable(s)
}

/// Number of states in `s` with flag `f`.
pub open spec fn count_flag(s: Seq<u8>, f: u8) -> nat
    decreases s.len(),
{
    if s.len() == 0 {
        0
    } else {
        count_flag(s.drop_last(), f) + if has_flag(s.last(), f) {
            1nat
        } else {
            0nat
        }
    }
}

pub open spec fn select_byte(s: u8) -> u8 {
    if selectable(s) {
        s | SELECTED
    } else {
        s
    }
}

pub open spec fn deselect_byte(s: u8) -> u8 {
    s & !SELECTED
}

pub open spec fn invert_byte(s: u8) -> u8 {
    if selectable(s) {
        s ^ SELECTED
    } else {
        s
    }
}

pub open spec fn delete_byte(s: u8) -> u8 {
    if has_flag(s, SELECTED) {
        (s | DELETED) & !SELECTED
    } else {
        s
    }
}

pub open spec fn lock_byte(s: u8) -> u8 {
    if has_flag(s, SELECTED) {
        (s | LOCKED) & !SELECTED
    } else {
        s
    }
}

pub open spec fn undelete_byte(s: u8) -> u8 {
    s & !DELETED
}

pub open spec fn unlock_byte(s: u8) -> u8 {
    s & !LOCKED
}

/// The state after a selection result: `hit` tells whether the splat was hit.
pub open spec fn hit_byte(s: u8, hit: bool, op: SelectionOp) -> u8 {
    if !selectable(s) {
        s
    } else {
        match op {
            SelectionOp::Replace => if hit {
                s | SELECTED
            } else {
                s & !SELECTED
            },
            SelectionOp::Add => if hit {
                s | SELECTED
            } else {
                s
            },
            SelectionOp::Remove => if hit {
                s & !SELECTED
            } else {
                s
            },
        }
    }
}

/// The state after selecting the listed indices (indices out of range do nothing).
pub open spec fn select_listed(s: Seq<u8>, indices: Seq<u32>) -> Seq<u8> {
    Seq::new(
        s.len(),
        |i: int|
            if indices.contains(i as u32) {
                select_byte(s[i])
            } else {
                s[i]
            },
    )
}

/// The state after deselecting the listed indices (indices out of range do nothing).
pub open spec fn deselect_listed(s: Seq<u8>, indices: Seq<u32>) -> Seq<u8> {
    Seq::new(
        s.len(),
        |i: int|
            if indices.contains(i as u32) {
                deselect_byte(s[i])
            } else {
                s[i]
            },
    )
}

proof fn lemma_flag_bits(s: u8)
    by (bit_vector)
    ensures
        (s | 1u8) & 1u8 != 0,
        (s | 1u8) & 2u8 == s & 2u8,
        (s | 1u8) & 4u8 == s & 4u8,
        (s & !1u8) & 1u8 == 0,
        (s & !1u8) & 2u8 == s & 2u8,
        (s & !1u8) & 4u8 == s & 4u8,
        (s ^ 1u8) & 1u8 != 0 <==> s & 1u8 == 0,
        (s ^ 1u8) & 2u8 == s & 2u8,
        (s ^ 1u8) & 4u8 == s & 4u8,
        ((s | 4u8) & !1u8) & 1u8 == 0,
        ((s | 4u8) & !1u8) & 2u8 == s & 2u8,
        ((s | 4u8) & !1u8) & 4u8 != 0,
        ((s | 2u8) & !1u8) & 1u8 == 0,
        ((s | 2u8) & !1u8) & 2u8 != 0,
        ((s | 2u8) & !1u8) & 4u8 == s & 4u8,
        (s & !4u8) & 4u8 == 0,
        (s & !4u8) & 1u8 == s & 1u8,
        (s & !4u8) & 2u8 == s & 2u8,
        (s & !2u8) & 2u8 == 0,
        (s & !2u8) & 1u8 == s & 1u8,
        (s & !2u8) & 4u8 == s & 4u8,
        s & 6u8 == 0 <==> (s & 2u8 == 0 && s & 4u8 == 0),
        s & 1u8 != 0 ==> s | 1u8 == s,
        s & 1u8 == 0 ==> s & !1u8 == s,
        (s | 1u8) | 1u8 == s | 1u8,
        (s & !1u8) & !1u8 == s & !1u8,
{
}

proof fn lemma_count_update(s: Seq<u8>, i: int, v: u8, f: u8)
    requires
        0 <= i < s.len(),
    ensures
        count_flag(s.update(i, v), f) + (if has_flag(s[i], f) {
            1int
        } else {
            0int
        }) == count_flag(s, f) + (if has_flag(v, f) {
            1int
        } else {
            0int
        }),
    decreases s.len(),
{
    let t = s.update(i, v);
    if i == s.len() - 1 {
        assert(t.drop_last() =~= s.drop_last());
    } else {
        assert(t.drop_last() =~= s.drop_last().update(i, v));
        lemma_count_update(s.drop_last(), i, v, f);
    }
}

proof fn lemma_count_le_len(s: Seq<u8>, f: u8)
    ensures
        count_flag(s, f) <= s.len(),
    decreases s.len(),
{
    if s.len() > 0 {
        lemma_count_le_len(s.drop_last(), f);
    }
}

proof fn lemma_count_none(s: Seq<u8>, f: u8)
    requires
        forall|i: int| 0 <= i < s.len() ==> !has_flag(#[trigger] s[i], f),
    ensures
        count_flag(s, f) == 0,
    decreases s.len(),
{
    if s.len() > 0 {
        lemma_count_none(s.drop_last(), f);
    }
}

proof fn lemma_count_all(s: Seq<u8>, f: u8)
    requires
        forall|i: int| 0 <= i < s.len() ==> has_flag(#[trigger] s[i], f),
    ensures
        count_flag(s, f) == s.len(),
    decreases s.len(),
{
    if s.len() > 0 {
        lemma_count_all(s.drop_last(), f);
    }
}

proof fn lemma_zeros_count(n: nat, f: u8)
    ensures
        count_flag(Seq::new(n, |i: int| 0u8), f) == 0,
{
    let z = Seq::new(n, |i: int| 0u8);
    assert forall|i: int| 0 <= i < n implies !has_flag(#[trigger] z[i], f) by {
        assert(0u8 & f == 0) by (bit_vector);
    }
    lemma_count_none(z, f);
}

proof fn lemma_take_push_contains(s: Seq<u32>, k: int, x: u32)
    requires
        0 <= k < s.len(),
    ensures
        s.take(k + 1).contains(x) <==> (s.take(k).contains(x) || s[k] == x),
{
    assert(s.take(k + 1) =~= s.take(k).push(s[k]));
    if s.take(k + 1).contains(x) {
        let w = choose|w: int| 0 <= w < k + 1 && #[trigger] s.take(k + 1)[w] == x;
        if w < k {
            assert(s.take(k)[w] == x);
        }
    }
    if s.take(k).contains(x) {
        let w = choose|w: int| 0 <= w < k && #[trigger] s.take(k)[w] == x;
        assert(s.take(k + 1)[w] == x);
    }
    if s[k] == x {
        assert(s.take(k + 1)[k] == x);
    }
}

/// Per-splat state (bit 0 selected, bit 1 locked, bit 2 deleted) with cached counts.
pub struct SplatSelectionState {
    /// One state byte per splat.
    pub states: Vec<u8>,
    /// Number of selected splats.
    pub num_selected: u32,
    /// Number of locked splats.
    pub num_locked: u32,
    /// Number of deleted splats.
    pub num_deleted: u32,
    /// The state changed since it was last uploaded.
    pub dirty: bool,
}

impl SplatSelectionState {
    pub open spec fn counts_match(&self) -> bool {
        &&& self.states@.len() <= u32::MAX
        &&& self.num_selected == count_flag(self.states@, SELECTED)
        &&& self.num_locked == count_flag(self.states@, LOCKED)
        &&& self.num_deleted == count_flag(self.states@, DELETED)
    }

    /// The counts are those of `states`, and no selected splat is locked or deleted.
    pub open spec fn wf(&self) -> bool {
        &&& self.counts_match()
        &&& forall|i: int| 0 <= i < self.states@.len() ==> exclusive(#[trigger] self.states@[i])
    }

    /// State for `num_splats` splats, none of them selected, locked or deleted.
    pub fn new(num_splats: usize) -> (r: Self)
        requires
            num_splats <= u32::MAX,
        ensures
            r.wf(),
            r.states@ == Seq::new(num_splats as nat, |i: int| NORMAL),
            r.num_selected == 0,
            r.num_locked == 0,
            r.num_deleted == 0,
            r.dirty,
    {
        proof {
            lemma_zeros_count(num_splats as nat, SELECTED);
            lemma_zeros_count(num_splats as nat, LOCKED);
            lemma_zeros_count(num_splats as nat, DELETED);
            assert(NORMAL & SELECTED == 0) by (bit_vector);
        }
        let r = SplatSelectionState {
            states: vec![NORMAL; num_splats],
            num_selected: 0,
            num_locked: 0,
            num_deleted: 0,
            dirty: true,
        };
        assert(r.states@ =~= Seq::new(num_splats as nat, |i: int| 0u8));
        r
    }

    /// Writes state `v` for splat `i` and adjusts the counts.
    fn set_state(&mut self, i: usize, v: u8)
        requires
            old(self).wf(),
            i < old(self).states@.len(),
            exclusive(v),
        ensures
            final(self).wf(),
            final(self).states@ == old(self).states@.update(i as int, v),
            final(self).dirty == old(self).dirty,
    {
        let ghost s0 = self.states@;
        let o = self.states[i];
        self.states.set(i, v);
        proof {
            lemma_count_update(s0, i as int, v, SELECTED);
            lemma_count_update(s0, i as int, v, LOCKED);
            lemma_count_update(s0, i as int, v, DELETED);
            lemma_count_le_len(self.states@, SELECTED);
            lemma_count_le_len(self.states@, LOCKED);
            lemma_count_le_len(self.states@, DELETED);
        }
        if o & SELECTED != 0 && v & SELECTED == 0 {
            self.num_selected = self.num_selected - 1;
        } else if o & SELECTED == 0 && v & SELECTED != 0 {
            self.num_selected = self.num_selected + 1;
        }
        if o & LOCKED != 0 && v & LOCKED == 0 {
            self.num_locked = self.num_locked - 1;
        } else if o & LOCKED == 0 && v & LOCKED != 0 {
            self.num_locked = self.num_locked + 1;
        }
        if o & DELETED != 0 && v & DELETED == 0 {
            self.num_deleted = self.num_deleted - 1;
        } else if o & DELETED == 0 && v & DELETED != 0 {
            self.num_deleted = self.num_deleted + 1;
        }
    }

    /// Clears the selected bit of every splat.
    pub fn deselect_all(&mut self)
        requires
            old(self).wf(),
        ensures
            final(self).wf(),
            final(self).states@ == old(self).states@.map_values(|b: u8| deselect_byte(b)),
            final(self).num_selected == 0,
            final(self).dirty,
    {
        let n = self.states.len();
        let mut i: usize = 0;
        while i < n
            invariant
                self.wf(),
                n == self.states@.len(),
                n == old(self).states@.len(),
                forall|j: int| 0 <= j < i ==> #[trigger] self.states@[j] == deselect_byte(old(self).states@[j]),
                forall|j: int| i <= j < n ==> #[trigger] self.states@[j] == old(self).states@[j],
            decreases n - i,
        {
            let s = self.states[i];
            proof {
                lemma_flag_bits(s);
            }
            self.set_state(i, s & !SELECTED);
            i = i + 1;
        }
        self.dirty = true;
        proof {
            assert(self.states@ =~= old(self).states@.map_values(|b: u8| deselect_byte(b)));
            assert forall|j: int| 0 <= j < n implies !has_flag(#[trigger] self.states@[j], SELECTED) by {
                lemma_flag_bits(old(self).states@[j]);
            }
            lemma_count_none(self.states@, SELECTED);
        }
    }

    /// Selects every splat that is neither locked nor deleted.
    pub fn select_all(&mut self)
        requires
            old(self).wf(),
        ensures
            final(self).wf(),
            final(self).states@ == old(self).states@.map_values(|b: u8| select_byte(b)),
            final(self).dirty,
    {
        let n = self.states.len();
        let mut i: usize = 0;
        while i < n
            invariant
                self.wf(),
                n == self.states@.len(),
                n == old(self).states@.len(),
                forall|j: int| 0 <= j < i ==> #[trigger] self.states@[j] == select_byte(old(self).states@[j]),
                forall|j: int| i <= j < n ==> #[trigger] self.states@[j] == old(self).states@[j],
            decreases n - i,
        {
            let s = self.states[i];
            proof {
                lemma_flag_bits(s);
            }
            if s & LOCKED == 0 && s & DELETED == 0 && s & SELECTED == 0 {
                self.set_state(i, s | SELECTED);
            }
            i = i + 1;
        }
        self.dirty = true;
        proof {
            assert(self.states@ =~= old(self).states@.map_values(|b: u8| select_byte(b)));
        }
    }

    /// Toggles the selected bit of every splat that is neither locked nor deleted.
    pub fn invert_selection(&mut self)
        requires
            old(self).wf(),
        ensures
            final(self).wf(),
            final(self).states@ == old(self).states@.map_values(|b: u8| invert_byte(b)),
            final(self).dirty,
    {
        let n = self.states.len();
        let mut i: usize = 0;
        while i < n
            invariant
                self.wf(),
                n == self.states@.len(),
                n == old(self).states@.len(),
                forall|j: int| 0 <= j < i ==> #[trigger] self.states@[j] == invert_byte(old(self).states@[j]),
                forall|j: int| i <= j < n ==> #[trigger] self.states@[j] == old(self).states@[j],
            decreases n - i,
        {
            let s = self.states[i];
            proof {
                lemma_flag_bits(s);
            }
            if s & LOCKED == 0 && s & DELETED == 0 {
                self.set_state(i, s ^ SELECTED);
            }
            i = i + 1;
        }
        self.dirty = true;
        proof {
            assert(self.states@ =~= old(self).states@.map_values(|b: u8| invert_byte(b)));
        }
    }

    /// Marks every selected splat deleted and no longer selected.
    pub fn delete_selected(&mut self)
        requires
            old(self).wf(),
        ensures
            final(self).wf(),
            final(self).states@ == old(self).states@.map_values(|b: u8| delete_byte(b)),
            final(self).num_selected == 0,
            final(self).dirty,
    {
        let n = self.states.len();
        let mut i: usize = 0;
        while i < n
            invariant
                self.wf(),
                n == self.states@.len(),
                n == old(self).states@.len(),
                forall|j: int| 0 <= j < i ==> #[trigger] self.states@[j] == delete_byte(old(self).states@[j]),
                forall|j: int| i <= j < n ==> #[trigger] self.states@[j] == old(self).states@[j],
            decreases n - i,
        {
            let s = self.states[i];
            proof {
                lemma_flag_bits(s);
            }
            if s & SELECTED != 0 {
                self.set_state(i, (s | DELETED) & !SELECTED);
            }
            i = i + 1;
        }
        self.dirty = true;
        proof {
            assert(self.states@ =~= old(self).states@.map_values(|b: u8| delete_byte(b)));
            assert forall|j: int| 0 <= j < n implies !has_flag(#[trigger] self.states@[j], SELECTED) by {
                lemma_flag_bits(old(self).states@[j]);
            }
            lemma_count_none(self.states@, SELECTED);
        }
    }

    /// Clears the deleted bit of every splat.
    pub fn undelete_all(&mut self)
        requires
            old(self).wf(),
        ensures
            final(self).wf(),
            final(self).states@ == old(self).states@.map_values(|b: u8| undelete_byte(b)),
            final(self).num_deleted == 0,
            final(self).dirty,
    {
        let n = self.states.len();
        let mut i: usize = 0;
        while i < n
            invariant
                self.wf(),
                n == self.states@.len(),
                n == old(self).states@.len(),
                forall|j: int| 0 <= j < i ==> #[trigger] self.states@[j] == undelete_byte(old(self).states@[j]),
                forall|j: int| i <= j < n ==> #[trigger] self.states@[j] == old(self).states@[j],
            decreases n - i,
        {
            let s = self.states[i];
            proof {
                lemma_flag_bits(s);
            }
            self.set_state(i, s & !DELETED);
            i = i + 1;
        }
        self.dirty = true;
        proof {
            assert(self.states@ =~= old(self).states@.map_values(|b: u8| undelete_byte(b)));
            assert forall|j: int| 0 <= j < n implies !has_flag(#[trigger] self.states@[j], DELETED) by {
                lemma_flag_bits(old(self).states@[j]);
            }
            lemma_count_none(self.states@, DELETED);
        }
    }

    /// Marks every selected splat locked and no longer selected.
    pub fn lock_selected(&mut self)
        requires
            old(self).wf(),
        ensures
            final(self).wf(),
            final(self).states@ == old(self).states@.map_values(|b: u8| lock_byte(b)),
            final(self).num_selected == 0,
            final(self).dirty,
    {
        let n = self.states.len();
        let mut i: usize = 0;
        while i < n
            invariant
                self.wf(),
                n == self.states@.len(),
                n == old(self).states@.len(),
                forall|j: int| 0 <= j < i ==> #[trigger] self.states@[j] == lock_byte(old(self).states@[j]),
                forall|j: int| i <= j < n ==> #[trigger] self.states@[j] == old(self).states@[j],
            decreases n - i,
        {
            let s = self.states[i];
            proof {
                lemma_flag_bits(s);
            }
            if s & SELECTED != 0 {
                self.set_state(i, (s | LOCKED) & !SELECTED);
            }
            i = i + 1;
        }
        self.dirty = true;
        proof {
            assert(self.states@ =~= old(self).states@.map_values(|b: u8| lock_byte(b)));
            assert forall|j: int| 0 <= j < n implies !has_flag(#[trigger] self.states@[j], SELECTED) by {
                lemma_flag_bits(old(self).states@[j]);
            }
            lemma_count_none(self.states@, SELECTED);
        }
    }

    /// Clears the locked bit of every splat.
    pub fn unlock_all(&mut self)
        requires
            old(self).wf(),
        ensures
            final(self).wf(),
            final(self).states@ == old(self).states@.map_values(|b: u8| unlock_byte(b)),
            final(self).num_locked == 0,
            final(self).dirty,
    {
        let n = self.states.len();
        let mut i: usize = 0;
        while i < n
            invariant
                self.wf(),
                n == self.states@.len(),
                n == old(self).states@.len(),
                forall|j: int| 0 <= j < i ==> #[trigger] self.states@[j] == unlock_byte(old(self).states@[j]),
                forall|j: int| i <= j < n ==> #[trigger] self.states@[j] == old(self).states@[j],
            decreases n - i,
        {
            let s = self.states[i];
            proof {
                lemma_flag_bits(s);
            }
            self.set_state(i, s & !LOCKED);
            i = i + 1;
        }
        self.dirty = true;
        proof {
            assert(self.states@ =~= old(self).states@.map_values(|b: u8| unlock_byte(b)));
            assert forall|j: int| 0 <= j < n implies !has_flag(#[trigger] self.states@[j], LOCKED) by {
                lemma_flag_bits(old(self).states@[j]);
            }
            lemma_count_none(self.states@, LOCKED);
        }
    }

    /// Selects the listed splats that are neither locked nor deleted; indices out of range are ignored.
    pub fn select(&mut self, indices: &[u32])
        requires
            old(self).wf(),
        ensures
            final(self).wf(),
            final(self).states@ == select_listed(old(self).states@, indices@),
            final(self).dirty,
    {
        let n = self.states.len();
        let mut k: usize = 0;
        while k < indices.len()
            invariant
                self.wf(),
                n == self.states@.len(),
                n == old(self).states@.len(),
                k <= indices@.len(),
                self.states@ == select_listed(old(self).states@, indices@.take(k as int)),
            decreases indices@.len() - k,
        {
            let idx = indices[k];
            let ghost prev = self.states@;
            if (idx as usize) < n {
                let s = self.states[idx as usize];
                proof {
                    lemma_flag_bits(s);
                    lemma_flag_bits(old(self).states@[idx as int]);
                }
                if s & SELECTED == 0 && s & LOCKED == 0 && s & DELETED == 0 {
                    self.set_state(idx as usize, s | SELECTED);
                }
            }
            proof {
                assert forall|j: int| 0 <= j < n implies #[trigger] self.states@[j] == select_listed(
                    old(self).states@,
                    indices@.take(k + 1),
                )[j] by {
                    lemma_take_push_contains(indices@, k as int, j as u32);
                    lemma_flag_bits(old(self).states@[j]);
                }
                assert(self.states@ =~= select_listed(old(self).states@, indices@.take(k + 1)));
            }
            k = k + 1;
        }
        self.dirty = true;
        proof {
            assert(indices@.take(indices@.len() as int) =~= indices@);
        }
    }

    /// Deselects the listed splats; indices out of range are ignored.
    pub fn deselect(&mut self, indices: &[u32])
        requires
            old(self).wf(),
        ensures
            final(self).wf(),
            final(self).states@ == deselect_listed(old(self).states@, indices@),
            final(self).dirty,
    {
        let n = self.states.len();
        let mut k: usize = 0;
        while k < indices.len()
            invariant
                self.wf(),
                n == self.states@.len(),
                n == old(self).states@.len(),
                k <= indices@.len(),
                self.states@ == deselect_listed(old(self).states@, indices@.take(k as int)),
            decreases indices@.len() - k,
        {
            let idx = indices[k];
            let ghost prev = self.states@;
            if (idx as usize) < n {
                let s = self.states[idx as usize];
                proof {
                    lemma_flag_bits(s);
                    lemma_flag_bits(old(self).states@[idx as int]);
                }
                if s & SELECTED != 0 {
                    self.set_state(idx as usize, s & !SELECTED);
                }
            }
            proof {
                assert forall|j: int| 0 <= j < n implies #[trigger] self.states@[j] == deselect_listed(
                    old(self).states@,
                    indices@.take(k + 1),
                )[j] by {
                    lemma_take_push_contains(indices@, k as int, j as u32);
                    lemma_flag_bits(old(self).states@[j]);
                }
                assert(self.states@ =~= deselect_listed(old(self).states@, indices@.take(k + 1)));
            }
            k = k + 1;
        }
        self.dirty = true;
        proof {
            assert(indices@.take(indices@.len() as int) =~= indices@);
        }
    }

    /// Replaces the selection by the listed splats that are neither locked nor deleted.
    pub fn set_selection(&mut self, indices: &[u32])
        requires
            old(self).wf(),
        ensures
            final(self).wf(),
            final(self).states@ == select_listed(
                old(self).states@.map_values(|b: u8| deselect_byte(b)),
                indices@,
            ),
            final(self).dirty,
    {
        self.deselect_all();
        self.select(indices);
    }

    /// Indices of the selected splats, in increasing order.
    pub fn get_selected_indices(&self) -> (r: Vec<u32>)
        requires
            self.states@.len() <= u32::MAX,
        ensures
            forall|a: int, b: int| 0 <= a < b < r@.len() ==> r@[a] < r@[b],
            forall|a: int|
                0 <= a < r@.len() ==> #[trigger] r@[a] < self.states@.len() && has_flag(
                    self.states@[r@[a] as int],
                    SELECTED,
                ),
            forall|i: int|
                0 <= i < self.states@.len() && has_flag(#[trigger] self.states@[i], SELECTED)
                    ==> r@.contains(i as u32),
    {
        let mut r: Vec<u32> = Vec::new();
        let n = self.states.len();
        let mut i: usize = 0;
        while i < n
            invariant
                i <= n,
                n == self.states@.len(),
                n <= u32::MAX,
                forall|a: int, b: int| 0 <= a < b < r@.len() ==> r@[a] < r@[b],
                forall|a: int|
                    0 <= a < r@.len() ==> #[trigger] r@[a] < i && has_flag(
                        self.states@[r@[a] as int],
                        SELECTED,
                    ),
                forall|j: int|
                    0 <= j < i && has_flag(#[trigger] self.states@[j], SELECTED) ==> r@.contains(
                        j as u32,
                    ),
            decreases n - i,
        {
            if self.states[i] & SELECTED != 0 {
                let ghost before = r@;
                r.push(i as u32);
                proof {
                    assert forall|j: int|
                        0 <= j < i + 1 && has_flag(#[trigger] self.states@[j], SELECTED) implies r@.contains(
                        j as u32,
                    ) by {
                        if j < i {
                            let w = choose|w: int| 0 <= w < before.len() && #[trigger] before[w] == j as u32;
                            assert(r@[w] == j as u32);
                        } else {
                            assert(r@[r@.len() - 1] == j as u32);
                        }
                    }
                }
            }
            i = i + 1;
        }
        r
    }

    /// Whether splat `index` exists and is selected.
    pub fn is_selected(&self, index: usize) -> (r: bool)
        ensures
            r == (index < self.states@.len() && has_flag(self.states@[index as int], SELECTED)),
    {
        index < self.states.len() && self.states[index] & SELECTED != 0
    }

    /// Whether splat `index` exists and is locked.
    pub fn is_locked(&self, index: usize) -> (r: bool)
        ensures
            r == (index < self.states@.len() && has_flag(self.states@[index as int], LOCKED)),
    {
        index < self.states.len() && self.states[index] & LOCKED != 0
    }

    /// Whether splat `index` exists and is deleted.
    pub fn is_deleted(&self, index: usize) -> (r: bool)
        ensures
            r == (index < self.states@.len() && has_flag(self.states@[index as int], DELETED)),
    {
        index < self.states.len() && self.states[index] & DELETED != 0
    }

    /// Recomputes the three counts from the state bytes.
    pub fn recount(&mut self)
        requires
            old(self).states@.len() <= u32::MAX,
        ensures
            final(self).counts_match(),
            final(self).states == old(self).states,
            final(self).dirty == old(self).dirty,
    {
        let n = self.states.len();
        let mut sel: u32 = 0;
        let mut lck: u32 = 0;
        let mut del: u32 = 0;
        let mut i: usize = 0;
        while i < n
            invariant
                i <= n,
                n == self.states@.len(),
                n <= u32::MAX,
                self.states == old(self).states,
                sel == count_flag(self.states@.take(i as int), SELECTED),
                lck == count_flag(self.states@.take(i as int), LOCKED),
                del == count_flag(self.states@.take(i as int), DELETED),
            decreases n - i,
        {
            let s = self.states[i];
            proof {
                assert(self.states@.take(i + 1).drop_last() =~= self.states@.take(i as int));
                lemma_count_le_len(self.states@.take(i as int), SELECTED);
                lemma_count_le_len(self.states@.take(i as int), LOCKED);
                lemma_count_le_len(self.states@.take(i as int), DELETED);
            }
            if s & SELECTED != 0 {
                sel = sel + 1;
            }
            if s & LOCKED != 0 {
                lck = lck + 1;
            }
            if s & DELETED != 0 {
                del = del + 1;
            }
            i = i + 1;
        }
        proof {
            assert(self.states@.take(n as int) =~= self.states@);
        }
        self.num_selected = sel;
        self.num_locked = lck;
        self.num_deleted = del;
    }

    /// Applies a per-splat hit list (`hits[i] != 0`: splat `i` was hit) with
    /// `op`; locked and deleted splats keep their state. A hit list of another
    /// length than the state is not applied, and `false` is returned.
    pub fn apply_selection_hits(&mut self, hits: &[u8], op: SelectionOp) -> (applied: bool)
        requires
            old(self).wf(),
        ensures
            final(self).wf(),
            applied == (hits@.len() == old(self).states@.len()),
            applied ==> final(self).states@ == Seq::new(
                old(self).states@.len(),
                |i: int| hit_byte(old(self).states@[i], hits@[i] != 0, op),
            ),
            applied ==> final(self).dirty,
            !applied ==> *final(self) == *old(self),
    {
        let n = self.states.len();
        if hits.len() != n {
            return false;
        }
        let mut i: usize = 0;
        while i < n
            invariant
                self.wf(),
                n == self.states@.len(),
                n == old(self).states@.len(),
                n == hits@.len(),
                forall|j: int|
                    0 <= j < i ==> #[trigger] self.states@[j] == hit_byte(
                        old(self).states@[j],
                        hits@[j] != 0,
                        op,
                    ),
                forall|j: int| i <= j < n ==> #[trigger] self.states@[j] == old(self).states@[j],
            decreases n - i,
        {
            let s = self.states[i];
            let hit = hits[i] != 0;
            proof {
                lemma_flag_bits(s);
            }
            if s & LOCKED == 0 && s & DELETED == 0 {
                let v = match op {
                    SelectionOp::Replace => if hit {
                        s | SELECTED
                    } else {
                        s & !SELECTED
                    },
                    SelectionOp::Add => if hit {
                        s | SELECTED
                    } else {
                        s
                    },
                    SelectionOp::Remove => if hit {
                        s & !SELECTED
                    } else {
                        s
                    },
                };
                self.set_state(i, v);
            }
            i = i + 1;
        }
        self.dirty = true;
        proof {
            assert(self.states@ =~= Seq::new(
                old(self).states@.len(),
                |i: int| hit_byte(old(self).states@[i], hits@[i] != 0, op),
            ));
        }
        true
    }

    /// Applies a list of picked splat indices with `op`: `Replace` selects
    /// exactly the picked ones, `Add` selects them too, `Remove` deselects them.
    /// Indices out of range are ignored; locked and deleted splats are not selected.
    pub fn apply_picked_indices(&mut self, indices: &[u32], op: SelectionOp)
        requires
            old(self).wf(),
        ensures
            final(self).wf(),
            final(self).dirty,
            final(self).states@ == match op {
                SelectionOp::Replace => select_listed(
                    old(self).states@.map_values(|b: u8| deselect_byte(b)),
                    indices@,
                ),
                SelectionOp::Add => select_listed(old(self).states@, indices@),
                SelectionOp::Remove => deselect_listed(old(self).states@, indices@),
            },
    {
        match op {
            SelectionOp::Replace => self.set_selection(indices),
            SelectionOp::Add => self.select(indices),
            SelectionOp::Remove => self.deselect(indices),
        }
    }
}

impl Default for SplatSelectionState {
    /// State for no splats.
    fn default() -> (r: Self)
        ensures
            r.wf(),
            r.states@.len() == 0,
            !r.dirty,
    {
        let r = SplatSelectionState {
            states: Vec::new(),
            num_selected: 0,
            num_locked: 0,
            num_deleted: 0,
            dirty: false,
        };
        assert(r.states@.len() == 0);
        r
    }
}

/// The state as uploaded to the GPU: one word per splat.
pub struct ExtractedSelectionState {
    pub states: Vec<u32>,
    /// The words have to be written to the GPU.
    pub dirty: bool,
}

/// The upload of a selection state: made when the state is marked dirty or its
/// contents changed (`changed`) since the last upload.
pub fn extract_selection_state(state: &SplatSelectionState, changed: bool) -> (r: Option<ExtractedSelectionState>)
    ensures
        (state.dirty || changed) <==> r.is_some(),
        r matches Some(e) ==> e.dirty && e.states@.len() == state.states@.len() && forall|i: int|
            0 <= i < state.states@.len() ==> #[trigger] e.states@[i] == state.states@[i] as u32,
{
    if !(state.dirty || changed) {
        return None;
    }
    let mut words: Vec<u32> = Vec::new();
    let mut i: usize = 0;
    while i < state.states.len()
        invariant
            i <= state.states@.len(),
            words@.len() == i,
            forall|j: int| 0 <= j < i ==> #[trigger] words@[j] == state.states@[j] as u32,
        decreases state.states@.len() - i,
    {
        words.push(state.states[i] as u32);
        i = i + 1;
    }
    Some(ExtractedSelectionState { states: words, dirty: true })
}

/// Selecting all splats after locking all of them (selecting all, then
/// locking the selection) selects none and leaves every splat locked, when no
/// splat is deleted.
pub proof fn lemma_select_all_after_lock_all(s: Seq<u8>)
    requires
        forall|i: int| 0 <= i < s.len() ==> !has_flag(#[trigger] s[i], DELETED),
    ensures
        ({
            let t = s.map_values(|b: u8| select_byte(b)).map_values(|b: u8| lock_byte(b)).map_values(
                |b: u8| select_byte(b),
            );
            &&& t.len() == s.len()
            &&& count_flag(t, SELECTED) == 0
            &&& count_flag(t, LOCKED) == s.len()
        }),
{
    let t = s.map_values(|b: u8| select_byte(b)).map_values(|b: u8| lock_byte(b)).map_values(
        |b: u8| select_byte(b),
    );
    assert forall|i: int| 0 <= i < s.len() implies has_flag(#[trigger] t[i], LOCKED) && !has_flag(
        t[i],
        SELECTED,
    ) by {
        let a = select_byte(s[i]);
        let b = lock_byte(a);
        lemma_flag_bits(s[i]);
        lemma_flag_bits(a);
        lemma_flag_bits(b);
    }
    lemma_count_none(t, SELECTED);
    lemma_count_all(t, LOCKED);
}

/// Deleting the selection twice leaves the same state as deleting it once.
pub proof fn lemma_delete_selected_idempotent(s: Seq<u8>)
    ensures
        s.map_values(|b: u8| delete_byte(b)).map_values(|b: u8| delete_byte(b)) == s.map_values(
            |b: u8| delete_byte(b),
        ),
{
    let once = s.map_values(|b: u8| delete_byte(b));
    assert forall|i: int| 0 <= i < s.len() implies delete_byte(#[trigger] once[i]) == once[i] by {
        lemma_flag_bits(s[i]);
    }
    assert(once.map_values(|b: u8| delete_byte(b)) =~= once);
}

} // verus!
