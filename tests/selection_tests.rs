use rfs_gsplat_render::selection::SplatSelectionState;
use rfs_gsplat_render::splat_state::{SelectionOp, DELETED, LOCKED, SELECTED};

fn recounted(s: &SplatSelectionState) -> (u32, u32, u32) {
    let mut c = (0, 0, 0);
    for &b in &s.states {
        if b & SELECTED != 0 {
            c.0 += 1;
        }
        if b & LOCKED != 0 {
            c.1 += 1;
        }
        if b & DELETED != 0 {
            c.2 += 1;
        }
    }
    c
}

fn counts(s: &SplatSelectionState) -> (u32, u32, u32) {
    (s.num_selected, s.num_locked, s.num_deleted)
}

#[test]
fn counts_follow_select_deselect_and_set() {
    let mut s = SplatSelectionState::new(6);
    s.select(&[0, 2, 2, 5, 17]);
    assert_eq!(counts(&s), recounted(&s));
    assert_eq!(s.num_selected, 3);
    s.deselect(&[2, 3, 99]);
    assert_eq!(counts(&s), recounted(&s));
    assert_eq!(s.get_selected_indices(), vec![0, 5]);
    s.set_selection(&[1, 4]);
    assert_eq!(counts(&s), recounted(&s));
    assert_eq!(s.get_selected_indices(), vec![1, 4]);
    assert!(s.dirty);
}

#[test]
fn select_skips_locked_and_deleted() {
    let mut s = SplatSelectionState::new(4);
    s.select(&[0, 1]);
    s.lock_selected();
    s.select(&[2]);
    s.delete_selected();
    s.select(&[0, 1, 2, 3]);
    assert_eq!(s.states, vec![LOCKED, LOCKED, DELETED, SELECTED]);
    assert_eq!(counts(&s), (1, 2, 1));
}

#[test]
fn select_all_after_locking_everything_selects_nothing() {
    let mut s = SplatSelectionState::new(5);
    s.select(&[3]);
    s.select_all();
    s.lock_selected();
    s.select_all();
    assert_eq!(s.num_selected, 0);
    assert_eq!(s.num_locked, 5);
    assert_eq!(counts(&s), recounted(&s));
}

#[test]
fn delete_selected_twice_equals_once() {
    let mut s = SplatSelectionState::new(5);
    s.select(&[1, 3]);
    s.delete_selected();
    let once = (s.states.clone(), counts(&s));
    s.delete_selected();
    assert_eq!((s.states.clone(), counts(&s)), once);
}

#[test]
fn delete_then_undelete_round_trip() {
    let mut s = SplatSelectionState::new(4);
    assert_eq!(s.states, vec![0, 0, 0, 0]);
    s.select(&[0, 2]);
    s.delete_selected();
    assert_eq!(s.states, vec![DELETED, 0, DELETED, 0]);
    assert_eq!(s.num_selected, 0);
    assert_eq!(s.num_deleted, 2);
    s.undelete_all();
    assert_eq!(s.states, vec![0, 0, 0, 0]);
    assert_eq!(s.num_deleted, 0);
}

#[test]
fn invert_and_unlock() {
    let mut s = SplatSelectionState::new(4);
    s.select(&[0]);
    s.lock_selected();
    s.select(&[1]);
    s.invert_selection();
    assert_eq!(s.states, vec![LOCKED, 0, SELECTED, SELECTED]);
    s.unlock_all();
    assert_eq!(s.states, vec![0, 0, SELECTED, SELECTED]);
    assert_eq!(counts(&s), (2, 0, 0));
    s.deselect_all();
    assert_eq!(counts(&s), (0, 0, 0));
}

#[test]
fn queries_out_of_range_are_false() {
    let mut s = SplatSelectionState::new(2);
    s.select(&[1]);
    assert!(s.is_selected(1));
    assert!(!s.is_selected(0));
    assert!(!s.is_selected(2));
    assert!(!s.is_locked(5));
    assert!(!s.is_deleted(5));
}

#[test]
fn recount_repairs_counts() {
    let mut s = SplatSelectionState::new(3);
    s.states = vec![SELECTED, LOCKED | DELETED, DELETED];
    s.recount();
    assert_eq!(counts(&s), (1, 1, 2));
}

#[test]
fn default_state_is_empty() {
    let s = SplatSelectionState::default();
    assert!(s.states.is_empty());
    assert_eq!(counts(&s), (0, 0, 0));
}

#[test]
fn pick_rect_selects_the_hit_splat() {
    let mut s = SplatSelectionState::new(2);
    assert!(s.apply_selection_hits(&[0, 1], SelectionOp::Replace));
    assert_eq!(s.get_selected_indices(), vec![1]);
    assert_eq!(s.num_selected, 1);
    assert_eq!(s.states[0], 0);
}

#[test]
fn hits_add_remove_and_length_mismatch() {
    let mut s = SplatSelectionState::new(3);
    s.select(&[2]);
    s.lock_selected();
    assert!(s.apply_selection_hits(&[1, 0, 1], SelectionOp::Add));
    assert_eq!(s.states, vec![SELECTED, 0, LOCKED]);
    assert!(s.apply_selection_hits(&[1, 1, 1], SelectionOp::Remove));
    assert_eq!(s.states, vec![0, 0, LOCKED]);
    assert!(s.apply_selection_hits(&[0, 1, 1], SelectionOp::Replace));
    assert_eq!(s.states, vec![0, SELECTED, LOCKED]);
    assert!(!s.apply_selection_hits(&[1, 1], SelectionOp::Replace));
    assert_eq!(s.states, vec![0, SELECTED, LOCKED]);
}
