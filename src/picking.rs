//! Host side of the pick pass: the pick texture stores, for each pixel, the
//! 1-based index of the splat drawn there as little-endian RGBA8 (0 is the
//! background). The readback is cut to the pick rectangle, decoded to a sorted
//! list of distinct splat indices, and applied to the selection.
use vstd::prelude::*;
use crate::radix_sort::{is_sorted, lemma_stable_sort_is_sorted, lemma_stable_sort_same_keys, radix_sort_pairs};
use crate::selection::{deselect_byte, deselect_listed, select_listed, SplatSelectionState};
use crate::splat_state::SelectionOp;

verus! {

/// How picked splats combine with the current selection.
#[derive(Clone, Copy, Debug, PartialEq, Eq, Structural)]
pub enum PickOp {
    /// Add to the current selection.
    Add,
    /// Remove from the current selection.
    Remove,
    /// Replace the current selection.
    Replace,
}

impl PickOp {
    pub open spec fn spec_selection_op(self) -> SelectionOp {
        match self {
            PickOp::Add => SelectionOp::Add,
            PickOp::Remove => SelectionOp::Remove,
            PickOp::Replace => SelectionOp::Replace,
        }
    }

    /// The same combination as a selection operation.
    pub fn selection_op(self) -> (r: SelectionOp)
        ensures
            r == self.spec_selection_op(),
    {
        match self {
            PickOp::Add => SelectionOp::Add,
            PickOp::Remove => SelectionOp::Remove,
            PickOp::Replace => SelectionOp::Replace,
        }
    }
}

/// A rectangle of the pick texture, in pixels.
#[derive(Clone, Copy, Debug, PartialEq, Eq, Structural)]
pub struct PickRect {
    pub x: u32,
    pub y: u32,
    pub width: u32,
    pub height: u32,
}

/// The little-endian word stored in one pick pixel.
pub open spec fn pixel_word(r: u8, g: u8, b: u8, a: u8) -> int {
    r + g * 0x100 + b * 0x1_0000 + a * 0x100_0000
}

/// The splat index that a pick pixel holds, if any: the word minus one; the
/// background (0) and the cleared value (all ones) hold none.
pub open spec fn pixel_pick(r: u8, g: u8, b: u8, a: u8) -> Option<u32> {
    let w = pixel_word(r, g, b, a);
    if w == 0 || w == u32::MAX {
        None
    } else {
        Some((w - 1) as u32)
    }
}

/// The splat index held by pixel `k` of RGBA8 data.
pub open spec fn pixel_pick_at(p: Seq<u8>, k: int) -> Option<u32> {
    pixel_pick(p[4 * k], p[4 * k + 1], p[4 * k + 2], p[4 * k + 3])
}

/// Decodes one pick pixel.
pub fn decode_pick_pixel(r: u8, g: u8, b: u8, a: u8) -> (idx: Option<u32>)
    ensures
        idx == pixel_pick(r, g, b, a),
{
    let w = (r as u32) | ((g as u32) << 8) | ((b as u32) << 16) | ((a as u32) << 24);
    assert(w == r + g * 0x100 + b * 0x1_0000 + a * 0x100_0000) by (bit_vector)
        requires
            w == (r as u32) | ((g as u32) << 8u32) | ((b as u32) << 16u32) | ((a as u32) << 24u32),
    ;
    if w == 0 || w == u32::MAX {
        None
    } else {
        Some(w - 1)
    }
}

/// Whether some whole pixel of `p` holds splat index `x`.
pub open spec fn picked_in(p: Seq<u8>, x: u32) -> bool {
    exists|k: int| 0 <= k < p.len() / 4 && #[trigger] pixel_pick_at(p, k) == Some(x)
}

/// The distinct splat indices held by the whole pixels of RGBA8 data, in
/// increasing order.
pub fn decode_pick_pixels(pixels: &[u8]) -> (r: Vec<u32>)
    requires
        pixels@.len() / 4 <= u32::MAX,
    ensures
        forall|a: int, b: int| 0 <= a < b < r@.len() ==> r@[a] < r@[b],
        forall|x: u32| r@.contains(x) <==> picked_in(pixels@, x),
{
    let n = pixels.len() / 4;
    let mut keys: Vec<u32> = Vec::new();
    let mut k: usize = 0;
    while k < n
        invariant
            k <= n,
            n == pixels@.len() / 4,
            n <= u32::MAX,
            keys@.len() <= k,
            forall|x: u32|
                keys@.contains(x) <==> exists|j: int| 0 <= j < k && #[trigger] pixel_pick_at(pixels@, j) == Some(x),
        decreases n - k,
    {
        let ghost before = keys@;
        let d = decode_pick_pixel(pixels[4 * k], pixels[4 * k + 1], pixels[4 * k + 2], pixels[4 * k + 3]);
        if let Some(x) = d {
            keys.push(x);
        }
        proof {
            assert forall|x: u32|
                keys@.contains(x) <==> exists|j: int| 0 <= j < k + 1 && #[trigger] pixel_pick_at(pixels@, j) == Some(x) by {
                if keys@.contains(x) {
                    let w = choose|w: int| 0 <= w < keys@.len() && #[trigger] keys@[w] == x;
                    if w < before.len() {
                        assert(before[w] == x);
                        assert(before.contains(x));
                    } else {
                        assert(pixel_pick_at(pixels@, k as int) == Some(x));
                    }
                }
                if exists|j: int| 0 <= j < k + 1 && #[trigger] pixel_pick_at(pixels@, j) == Some(x) {
                    let j = choose|j: int| 0 <= j < k + 1 && #[trigger] pixel_pick_at(pixels@, j) == Some(x);
                    if j < k {
                        assert(before.contains(x));
                        let w = choose|w: int| 0 <= w < before.len() && #[trigger] before[w] == x;
                        assert(keys@[w] == x);
                    } else {
                        assert(keys@[keys@.len() - 1] == x);
                    }
                }
            }
        }
        k = k + 1;
    }
    let ghost unsorted = keys@;
    let mut values: Vec<u32> = keys.clone();
    radix_sort_pairs(&mut keys, &mut values);
    proof {
        lemma_stable_sort_is_sorted(unsorted, unsorted, keys@, values@);
        lemma_stable_sort_same_keys(unsorted, unsorted, keys@, values@);
    }
    let mut r: Vec<u32> = Vec::new();
    let mut i: usize = 0;
    while i < keys.len()
        invariant
            i <= keys@.len(),
            is_sorted(keys@),
            forall|a: int, b: int| 0 <= a < b < r@.len() ==> r@[a] < r@[b],
            forall|x: u32| r@.contains(x) <==> keys@.take(i as int).contains(x),
            i > 0 ==> r@.len() > 0 && r@[r@.len() - 1] == keys@[i - 1],
            i == 0 ==> r@.len() == 0,
        decreases keys@.len() - i,
    {
        let ghost before = r@;
        let x = keys[i];
        if r.len() == 0 || r[r.len() - 1] != x {
            r.push(x);
        }
        proof {
            assert(keys@.take(i + 1) =~= keys@.take(i as int).push(x));
            if i > 0 {
                assert(keys@[i - 1] <= x);
            }
            assert forall|y: u32| r@.contains(y) <==> keys@.take(i + 1).contains(y) by {
                if r@.contains(y) {
                    let w = choose|w: int| 0 <= w < r@.len() && #[trigger] r@[w] == y;
                    if w < before.len() {
                        assert(before[w] == y);
                        assert(before.contains(y));
                        let v = choose|v: int| 0 <= v < i && #[trigger] keys@.take(i as int)[v] == y;
                        assert(keys@.take(i + 1)[v] == y);
                    } else {
                        assert(keys@.take(i + 1)[i as int] == y);
                    }
                }
                if keys@.take(i + 1).contains(y) {
                    let v = choose|v: int| 0 <= v < i + 1 && #[trigger] keys@.take(i + 1)[v] == y;
                    if v < i {
                        assert(keys@.take(i as int)[v] == y);
                        assert(keys@.take(i as int).contains(y));
                        assert(before.contains(y));
                        let w = choose|w: int| 0 <= w < before.len() && #[trigger] before[w] == y;
                        assert(r@[w] == y);
                    } else {
                        assert(r@[r@.len() - 1] == y);
                    }
                }
            }
        }
        i = i + 1;
    }
    proof {
        assert(keys@.take(keys@.len() as int) =~= keys@);
    }
    r
}

/// The pixels of the rows of a pick rectangle: row `y` of `rect_height` rows
/// is the `4 * rect_width` bytes from `4 * y * full_width` on, when the data
/// holds them (a row it does not hold is left out).
pub open spec fn rect_rows(p: Seq<u8>, full_width: nat, rect_width: nat, rows: nat) -> Seq<u8>
    decreases rows,
{
    if rows == 0 {
        Seq::empty()
    } else {
        let y = (rows - 1) as nat;
        let start = 4 * y * full_width;
        let end = start + 4 * rect_width;
        rect_rows(p, full_width, rect_width, y) + if end <= p.len() {
            p.subrange(start as int, end as int)
        } else {
            Seq::empty()
        }
    }
}

/// The part of the pick rectangle that lies in a `target_width` by
/// `target_height` texture: its width and height.
pub fn clamp_pick_rect(rect: PickRect, target_width: u32, target_height: u32) -> (r: (u32, u32))
    ensures
        r.0 == if target_width >= rect.x && rect.width > target_width - rect.x {
            (target_width - rect.x) as u32
        } else if target_width >= rect.x {
            rect.width
        } else {
            0
        },
        r.1 == if target_height >= rect.y && rect.height > target_height - rect.y {
            (target_height - rect.y) as u32
        } else if target_height >= rect.y {
            rect.height
        } else {
            0
        },
{
    let w = if target_width >= rect.x {
        if rect.width > target_width - rect.x {
            target_width - rect.x
        } else {
            rect.width
        }
    } else {
        0
    };
    let h = if target_height >= rect.y {
        if rect.height > target_height - rect.y {
            target_height - rect.y
        } else {
            rect.height
        }
    } else {
        0
    };
    (w, h)
}

/// Copies the rows of the pick rectangle out of the read-back texture data.
pub fn extract_pick_rect(pixels: &[u8], full_width: u32, rect_width: u32, rect_height: u32) -> (r: Vec<u8>)
    ensures
        r@ == rect_rows(pixels@, full_width as nat, rect_width as nat, rect_height as nat),
{
    let mut out: Vec<u8> = Vec::new();
    let mut y: u32 = 0;
    while y < rect_height
        invariant
            y <= rect_height,
            out@ == rect_rows(pixels@, full_width as nat, rect_width as nat, y as nat),
        decreases rect_height - y,
    {
        assert(4 * (y as u128) * (full_width as u128) <= 4 * 0xffff_ffffu128 * 0xffff_ffffu128)
            by (nonlinear_arith)
            requires y <= 0xffff_ffffu32, full_width <= 0xffff_ffffu32;
        let start: u128 = 4 * (y as u128) * (full_width as u128);
        let end: u128 = start + 4 * (rect_width as u128);
        if end <= pixels.len() as u128 {
            let s = start as usize;
            let e = end as usize;
            let mut j: usize = s;
            let ghost base = out@;
            while j < e
                invariant
                    s <= j <= e,
                    e <= pixels@.len(),
                    out@ == base + pixels@.subrange(s as int, j as int),
                decreases e - j,
            {
                out.push(pixels[j]);
                assert(pixels@.subrange(s as int, j + 1) =~= pixels@.subrange(s as int, j as int).push(pixels@[j as int]));
                j = j + 1;
            }
        }
        proof {
            let next = rect_rows(pixels@, full_width as nat, rect_width as nat, (y + 1) as nat);
            assert(next == rect_rows(pixels@, full_width as nat, rect_width as nat, y as nat) + if (end as nat) <= pixels@.len() {
                pixels@.subrange(start as int, end as int)
            } else {
                Seq::<u8>::empty()
            });
            if (end as nat) > pixels@.len() {
                assert(out@ =~= next);
            }
        }
        y = y + 1;
    }
    out
}

/// Applies decoded pick results to a selection.
pub fn apply_pick_results(state: &mut SplatSelectionState, splat_indices: &[u32], op: PickOp)
    requires
        old(state).wf(),
    ensures
        final(state).wf(),
        final(state).dirty,
        final(state).states@ == match op {
            PickOp::Replace => select_listed(
                old(state).states@.map_values(|b: u8| deselect_byte(b)),
                splat_indices@,
            ),
            PickOp::Add => select_listed(old(state).states@, splat_indices@),
            PickOp::Remove => deselect_listed(old(state).states@, splat_indices@),
        },
{
    state.apply_picked_indices(splat_indices, op.selection_op());
}

} // verus!
