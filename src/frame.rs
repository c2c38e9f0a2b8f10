//! The compute half of a frame for one entity: cull and compact, then sort the
//! visible splats back to front by depth key.
use vstd::prelude::*;
use crate::cull::{compact_visible, visible_list, DrawIndirectArgs};
use crate::temporal_coherence::{should_skip_render, GaussianSplatRenderCache, TemporalCoherenceCache, TemporalCoherenceConfig};
use crate::radix_sort::{execute_radix_sort, is_sorted, is_stable_sort_of, lemma_stable_sort_is_sorted, lemma_stable_sort_same_keys, RadixSortBuffers};

verus! {

/// The depth keys of the visible splats, in index order.
pub open spec fn visible_keys(visible: Seq<bool>, keys: Seq<u32>) -> Seq<u32> {
    Seq::new(visible_list(visible).len(), |j: int| keys[visible_list(visible)[j] as int])
}

/// Culls (`visible[i]` is the view test of splat `i`, `keys[i]` its depth
/// key) and sorts the visible splats by key with the sort reading its count
/// from the indirect draw record.
pub fn cull_and_sort(
    visible: &[bool],
    keys: &[u32],
    depth_keys: &mut Vec<u32>,
    visible_indices: &mut Vec<u32>,
    indirect: &mut DrawIndirectArgs,
    buffers: &mut RadixSortBuffers,
)
    requires
        keys@.len() == visible@.len(),
        visible@.len() <= old(depth_keys).len(),
        visible@.len() <= old(visible_indices).len(),
        visible@.len() <= u32::MAX,
        visible@.len() <= old(buffers).capacity(),
        old(buffers).wf(),
    ensures
        final(buffers).wf(),
        final(depth_keys).len() == old(depth_keys).len(),
        final(visible_indices).len() == old(visible_indices).len(),
        final(indirect).instance_count == visible_list(visible@).len(),
        final(indirect).instance_count <= visible@.len(),
        forall|j: int|
            0 <= j < final(indirect).instance_count ==> #[trigger] final(visible_indices)@[j] < visible@.len(),
        is_sorted(final(depth_keys)@.take(final(indirect).instance_count as int)),
        is_stable_sort_of(
            visible_keys(visible@, keys@),
            visible_list(visible@),
            final(depth_keys)@.take(final(indirect).instance_count as int),
            final(visible_indices)@.take(final(indirect).instance_count as int),
        ),
{
    compact_visible(visible, keys, depth_keys, visible_indices, indirect);
    let ghost count = indirect.instance_count as int;
    let ghost k0 = depth_keys@.take(count);
    let ghost v0 = visible_indices@.take(count);
    proof {
        assert(k0 =~= visible_keys(visible@, keys@));
    }
    execute_radix_sort(depth_keys, visible_indices, buffers, indirect);
    proof {
        let k1 = depth_keys@.take(count);
        let v1 = visible_indices@.take(count);
        lemma_stable_sort_is_sorted(k0, v0, k1, v1);
        lemma_stable_sort_same_keys(k0, v0, k1, v1);
        assert forall|j: int| 0 <= j < count implies #[trigger] visible_indices@[j] < visible@.len() by {
            assert(v1[j] == visible_indices@[j]);
            assert(v1.contains(v1[j]));
            let i = choose|i: int| 0 <= i < v0.len() && v0[i] == v1[j];
        }
    }
}

/// Threads per workgroup of the cull pass.
pub const CULL_WORKGROUP_SIZE: u32 = 256;

/// Workgroups that give one cull thread to each of `point_count` splats.
pub fn cull_workgroups(point_count: u32) -> (r: u32)
    ensures
        r == (point_count + CULL_WORKGROUP_SIZE - 1) / CULL_WORKGROUP_SIZE as int,
{
    let q = point_count / CULL_WORKGROUP_SIZE;
    if point_count % CULL_WORKGROUP_SIZE == 0 {
        q
    } else {
        q + 1
    }
}

/// What a frame does.
#[derive(Clone, Copy, Debug, PartialEq, Eq, Structural)]
pub enum FrameAction {
    /// The viewport is empty: nothing is drawn.
    Nothing,
    /// Show the cached image.
    BlitCache,
    /// Render every entity into the cache and show it; `cull_and_sort` runs
    /// the compute passes first (otherwise the previous order is reused).
    Render { cull_and_sort: bool },
}

/// Whether this frame reuses the previous sort order.
pub open spec fn reuses_sort(cache: TemporalCoherenceCache) -> bool {
    !cache.data_updated_this_frame && cache.sorting_skipped
}

/// Plans a frame from the controller's decisions, whether every entity is a
/// training preview, the render cache and the viewport size.
pub fn plan_frame(
    cache: &TemporalCoherenceCache,
    config: &TemporalCoherenceConfig,
    all_training_mode: bool,
    render_cache: &GaussianSplatRenderCache,
    width: u32,
    height: u32,
) -> (r: FrameAction)
    ensures
        r == if width == 0 || height == 0 {
            FrameAction::Nothing
        } else if cache.frame_count != 0 && config.enabled && reuses_sort(*cache)
            && cache.render_skip_count < 2 * config.max_skip_frames && all_training_mode
            && render_cache.valid && render_cache.has_texture {
            FrameAction::BlitCache
        } else {
            FrameAction::Render { cull_and_sort: !reuses_sort(*cache) }
        },
        cache.data_updated_this_frame && width != 0 && height != 0 ==> r == (FrameAction::Render {
            cull_and_sort: true,
        }),
{
    if width == 0 || height == 0 {
        return FrameAction::Nothing;
    }
    if should_skip_render(cache, config, all_training_mode, render_cache.can_use()) {
        FrameAction::BlitCache
    } else {
        FrameAction::Render { cull_and_sort: !(!cache.data_updated_this_frame && cache.sorting_skipped) }
    }
}

} // verus!
