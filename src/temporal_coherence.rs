//! Per-frame decisions of the temporal-coherence controller (skip the sort,
//! skip the whole render) and the bookkeeping of the render cache.
//!
//! Camera poses and thresholds are compared by the caller, which hands in
//! whether the camera moved; the controller decides the rest.
use vstd::prelude::*;

verus! {

/// Controller state carried from frame to frame.
#[derive(Clone, Copy, Debug, PartialEq, Eq, Structural)]
pub struct TemporalCoherenceCache {
    /// Whether the sort was skipped in the current frame.
    pub sorting_skipped: bool,
    /// Consecutive frames whose sort was skipped.
    pub skip_count: u32,
    /// Frames seen so far.
    pub frame_count: u64,
    /// Whether splat data or a splat transform changed in the current frame.
    pub data_updated_this_frame: bool,
    /// Consecutive frames whose render was skipped.
    pub render_skip_count: u32,
}

impl Default for TemporalCoherenceCache {
    /// The state before the first frame.
    fn default() -> (r: Self)
        ensures
            r == (TemporalCoherenceCache {
                sorting_skipped: false,
                skip_count: 0,
                frame_count: 0,
                data_updated_this_frame: false,
                render_skip_count: 0,
            }),
    {
        TemporalCoherenceCache {
            sorting_skipped: false,
            skip_count: 0,
            frame_count: 0,
            data_updated_this_frame: false,
            render_skip_count: 0,
        }
    }
}

/// The integer part of the controller's configuration (the movement thresholds
/// are applied by whoever compares camera poses).
#[derive(Clone, Copy, Debug, PartialEq, Eq, Structural)]
pub struct TemporalCoherenceConfig {
    /// Whether sorts may be skipped at all.
    pub enabled: bool,
    /// Longest run of frames whose sort may be skipped.
    pub max_skip_frames: u32,
    /// Re-sort on every frame whose number is a multiple of this (0: never).
    pub force_resort_interval: u32,
}

impl Default for TemporalCoherenceConfig {
    /// The default profile: skip for up to 300 frames.
    fn default() -> (r: Self)
        ensures
            r == (TemporalCoherenceConfig { enabled: true, max_skip_frames: 300, force_resort_interval: 0 }),
    {
        TemporalCoherenceConfig { enabled: true, max_skip_frames: 300, force_resort_interval: 0 }
    }
}

impl TemporalCoherenceConfig {
    /// Re-sorts more often: at least once a second at 60 frames per second.
    pub fn conservative() -> (r: Self)
        ensures
            r == (TemporalCoherenceConfig { enabled: true, max_skip_frames: 60, force_resort_interval: 0 }),
    {
        TemporalCoherenceConfig { enabled: true, max_skip_frames: 60, force_resort_interval: 0 }
    }

    /// Skips as much as possible.
    pub fn aggressive() -> (r: Self)
        ensures
            r == (TemporalCoherenceConfig { enabled: true, max_skip_frames: 1000, force_resort_interval: 0 }),
    {
        TemporalCoherenceConfig { enabled: true, max_skip_frames: 1000, force_resort_interval: 0 }
    }

    /// For previews of a training run, where the GPU time belongs to training.
    pub fn training_mode() -> (r: Self)
        ensures
            r == (TemporalCoherenceConfig { enabled: true, max_skip_frames: 600, force_resort_interval: 0 }),
    {
        TemporalCoherenceConfig { enabled: true, max_skip_frames: 600, force_resort_interval: 0 }
    }

    /// Never skips.
    pub fn disabled() -> (r: Self)
        ensures
            r == (TemporalCoherenceConfig { enabled: false, max_skip_frames: 300, force_resort_interval: 0 }),
    {
        TemporalCoherenceConfig { enabled: false, max_skip_frames: 300, force_resort_interval: 0 }
    }
}

/// What the controller decided for one frame.
#[derive(Clone, Copy, Debug, PartialEq, Eq, Structural)]
pub struct SortDecision {
    /// Reuse the previous sort order.
    pub skip_sort: bool,
    /// The current camera pose becomes the reference for the next frames.
    pub record_pose: bool,
}

/// The controller after a frame with a re-sort.
pub open spec fn resorted(c: TemporalCoherenceCache, frame_count: u64) -> TemporalCoherenceCache {
    TemporalCoherenceCache { sorting_skipped: false, skip_count: 0, frame_count, ..c }
}

/// The controller state and decision for one frame; `camera_moved` tells whether
/// the camera moved past the thresholds since the reference pose.
pub open spec fn sort_step(
    c: TemporalCoherenceCache,
    config: TemporalCoherenceConfig,
    camera_moved: bool,
) -> (TemporalCoherenceCache, SortDecision) {
    if c.frame_count == 0 {
        (resorted(c, 1), SortDecision { skip_sort: false, record_pose: true })
    } else {
        let f = (c.frame_count + 1) as u64;
        if !config.enabled {
            (resorted(c, f), SortDecision { skip_sort: false, record_pose: false })
        } else if c.data_updated_this_frame || (config.force_resort_interval > 0 && f
            % config.force_resort_interval as u64 == 0) || c.skip_count >= config.max_skip_frames
            || camera_moved {
            (resorted(c, f), SortDecision { skip_sort: false, record_pose: true })
        } else {
            (
                TemporalCoherenceCache {
                    sorting_skipped: true,
                    skip_count: (c.skip_count + 1) as u32,
                    frame_count: f,
                    ..c
                },
                SortDecision { skip_sort: true, record_pose: false },
            )
        }
    }
}

/// Decides whether this frame may reuse the previous sort order.
pub fn should_skip_sorting(
    cache: &mut TemporalCoherenceCache,
    config: &TemporalCoherenceConfig,
    camera_moved: bool,
) -> (r: SortDecision)
    requires
        old(cache).frame_count < u64::MAX,
    ensures
        (*final(cache), r) == sort_step(*old(cache), *config, camera_moved),
        old(cache).data_updated_this_frame ==> !r.skip_sort,
        !config.enabled ==> !r.skip_sort,
        final(cache).skip_count <= config.max_skip_frames,
        old(cache).frame_count > 0 && old(cache).skip_count >= config.max_skip_frames ==> !r.skip_sort
            && final(cache).skip_count == 0,
        final(cache).sorting_skipped == r.skip_sort,
{
    if cache.frame_count == 0 {
        cache.frame_count = 1;
        cache.skip_count = 0;
        cache.sorting_skipped = false;
        return SortDecision { skip_sort: false, record_pose: true };
    }
    cache.frame_count = cache.frame_count + 1;
    if !config.enabled {
        cache.sorting_skipped = false;
        cache.skip_count = 0;
        return SortDecision { skip_sort: false, record_pose: false };
    }
    let forced = config.force_resort_interval > 0 && cache.frame_count
        % (config.force_resort_interval as u64) == 0;
    if cache.data_updated_this_frame || forced || cache.skip_count >= config.max_skip_frames
        || camera_moved {
        cache.sorting_skipped = false;
        cache.skip_count = 0;
        SortDecision { skip_sort: false, record_pose: true }
    } else {
        cache.sorting_skipped = true;
        cache.skip_count = cache.skip_count + 1;
        SortDecision { skip_sort: true, record_pose: false }
    }
}

/// Whether this frame may show the cached image instead of rendering: the sort
/// is skipped, every entity renders a training preview, and the cache holds an
/// image, for at most twice the sort's skip limit in a row.
pub fn should_skip_render(
    cache: &TemporalCoherenceCache,
    config: &TemporalCoherenceConfig,
    all_training_mode: bool,
    cache_usable: bool,
) -> (r: bool)
    ensures
        r == (cache.frame_count != 0 && config.enabled && !cache.data_updated_this_frame
            && cache.sorting_skipped && cache.render_skip_count < 2 * config.max_skip_frames
            && all_training_mode && cache_usable),
        cache.data_updated_this_frame ==> !r,
        r ==> cache.sorting_skipped,
{
    cache.frame_count != 0 && config.enabled && !cache.data_updated_this_frame
        && cache.sorting_skipped && (cache.render_skip_count as u64) < 2 * (
    config.max_skip_frames as u64) && all_training_mode && cache_usable
}

/// Counters of how often the sort was skipped.
#[derive(Clone, Copy, Debug, PartialEq, Eq, Structural)]
pub struct TemporalCoherenceStats {
    /// Frames counted.
    pub total_frames: u64,
    /// Frames whose sort was skipped.
    pub skipped_frames: u64,
    /// Length of the current run of skipped sorts.
    pub current_skip_streak: u32,
    /// Longest run of skipped sorts.
    pub max_skip_streak: u32,
}

impl Default for TemporalCoherenceStats {
    fn default() -> (r: Self)
        ensures
            r == (TemporalCoherenceStats {
                total_frames: 0,
                skipped_frames: 0,
                current_skip_streak: 0,
                max_skip_streak: 0,
            }),
    {
        TemporalCoherenceStats { total_frames: 0, skipped_frames: 0, current_skip_streak: 0, max_skip_streak: 0 }
    }
}

impl TemporalCoherenceStats {
    pub open spec fn wf(&self) -> bool {
        self.skipped_frames <= self.total_frames
    }

    /// Counts one frame; `skip_count` is the controller's run of skipped sorts.
    pub fn update(&mut self, sorting_skipped: bool, skip_count: u32)
        requires
            old(self).wf(),
            old(self).total_frames < u64::MAX,
        ensures
            final(self).wf(),
            final(self).total_frames == old(self).total_frames + 1,
            final(self).skipped_frames == old(self).skipped_frames + if sorting_skipped {
                1int
            } else {
                0int
            },
            final(self).current_skip_streak == if sorting_skipped {
                skip_count
            } else {
                0
            },
            final(self).max_skip_streak == if sorting_skipped && skip_count > old(self).max_skip_streak {
                skip_count
            } else {
                old(self).max_skip_streak
            },
    {
        self.total_frames = self.total_frames + 1;
        if sorting_skipped {
            self.skipped_frames = self.skipped_frames + 1;
            self.current_skip_streak = skip_count;
            if skip_count > self.max_skip_streak {
                self.max_skip_streak = skip_count;
            }
        } else {
            self.current_skip_streak = 0;
        }
    }
}

/// One frame of the controller: records whether splat data or a splat
/// transform changed (which also ends a run of skipped renders), and, when a
/// camera is present (`camera_moved` is `Some`), decides on the sort and counts
/// the frame.
pub fn update_temporal_coherence_cache(
    cache: &mut TemporalCoherenceCache,
    stats: &mut TemporalCoherenceStats,
    config: &TemporalCoherenceConfig,
    data_updated: bool,
    transform_changed: bool,
    camera_moved: Option<bool>,
) -> (r: Option<SortDecision>)
    requires
        old(cache).frame_count < u64::MAX,
        old(stats).wf(),
        old(stats).total_frames < u64::MAX,
    ensures
        final(stats).wf(),
        ({
            let c = TemporalCoherenceCache {
                data_updated_this_frame: data_updated || transform_changed,
                render_skip_count: if data_updated || transform_changed {
                    0
                } else {
                    old(cache).render_skip_count
                },
                ..*old(cache)
            };
            match camera_moved {
                None => r.is_none() && *final(cache) == c && *final(stats) == *old(stats),
                Some(moved) => r == Some(sort_step(c, *config, moved).1) && *final(cache) == sort_step(
                    c,
                    *config,
                    moved,
                ).0 && final(stats).total_frames == old(stats).total_frames + 1,
            }
        }),
{
    cache.data_updated_this_frame = data_updated || transform_changed;
    if cache.data_updated_this_frame {
        cache.render_skip_count = 0;
    }
    match camera_moved {
        None => None,
        Some(moved) => {
            let d = should_skip_sorting(cache, config, moved);
            stats.update(d.skip_sort, cache.skip_count);
            Some(d)
        },
    }
}

/// Bookkeeping of the render cache: the size of its texture, whether a texture
/// exists, and whether it holds a rendered image.
#[derive(Clone, Copy, Debug, PartialEq, Eq, Structural)]
pub struct GaussianSplatRenderCache {
    pub width: u32,
    pub height: u32,
    /// Whether the cache holds the image of a finished render.
    pub valid: bool,
    /// Whether a texture of `width` by `height` exists.
    pub has_texture: bool,
}

/// What to do with the render cache before a frame.
#[derive(Clone, Copy, Debug, PartialEq, Eq, Structural)]
pub enum CachePreparation {
    /// The viewport is empty: nothing is rendered this frame.
    Skip,
    /// Render into the cache; `recreate` asks for a new texture of the cache's size.
    Render { recreate: bool },
}

/// The part of a `width` by `height` viewport at `(x, y)` that lies inside a
/// target of `target_width` by `target_height`.
pub open spec fn clamped_extent(x: u32, y: u32, width: u32, height: u32, target_width: u32, target_height: u32) -> (u32, u32) {
    (
        if target_width >= x { if width < (target_width - x) as u32 { width } else { (target_width - x) as u32 } } else { 0 },
        if target_height >= y { if height < (target_height - y) as u32 { height } else { (target_height - y) as u32 } } else { 0 },
    )
}

/// Width and height of the part of a viewport that lies inside the target.
pub fn clamp_viewport(x: u32, y: u32, width: u32, height: u32, target_width: u32, target_height: u32) -> (r: (u32, u32))
    ensures
        r == clamped_extent(x, y, width, height, target_width, target_height),
{
    let w = if width < target_width.saturating_sub(x) { width } else { target_width.saturating_sub(x) };
    let h = if height < target_height.saturating_sub(y) { height } else { target_height.saturating_sub(y) };
    (w, h)
}

impl Default for GaussianSplatRenderCache {
    /// No texture yet.
    fn default() -> (r: Self)
        ensures
            r == (GaussianSplatRenderCache { width: 0, height: 0, valid: false, has_texture: false }),
    {
        GaussianSplatRenderCache { width: 0, height: 0, valid: false, has_texture: false }
    }
}

impl GaussianSplatRenderCache {
    /// Makes the cache `width` by `height`; returns whether a new texture is
    /// needed, which then holds no image yet.
    pub fn ensure_texture(&mut self, width: u32, height: u32) -> (recreate: bool)
        ensures
            recreate == !(old(self).has_texture && old(self).width == width && old(self).height == height),
            recreate ==> *final(self) == (GaussianSplatRenderCache { width, height, valid: false, has_texture: true }),
            !recreate ==> *final(self) == *old(self),
    {
        if self.has_texture && self.width == width && self.height == height {
            return false;
        }
        self.width = width;
        self.height = height;
        self.valid = false;
        self.has_texture = true;
        true
    }

    /// The cache now holds a rendered image.
    pub fn mark_valid(&mut self)
        ensures
            *final(self) == (GaussianSplatRenderCache { valid: true, ..*old(self) }),
    {
        self.valid = true;
    }

    /// The cache no longer holds a usable image.
    pub fn invalidate(&mut self)
        ensures
            *final(self) == (GaussianSplatRenderCache { valid: false, ..*old(self) }),
    {
        self.valid = false;
    }

    /// Whether the cached image can be shown.
    pub fn can_use(&self) -> (r: bool)
        ensures
            r == (self.valid && self.has_texture),
    {
        self.valid && self.has_texture
    }

    /// Prepares the cache for a frame whose viewport has the given extent: a
    /// zero extent skips the frame; a new size or updated data invalidates the
    /// cache; otherwise, after the first frame, the image rendered into the
    /// cache by the previous frame makes it valid.
    pub fn prepare(&mut self, width: u32, height: u32, data_updated: bool, frame_count: u64) -> (r: CachePreparation)
        ensures
            width == 0 || height == 0 ==> r == CachePreparation::Skip && *final(self) == *old(self),
            width != 0 && height != 0 ==> {
                let size_changed = old(self).width != width || old(self).height != height;
                &&& r == (CachePreparation::Render {
                    recreate: !(old(self).has_texture && !size_changed),
                })
                &&& final(self).width == width
                &&& final(self).height == height
                &&& final(self).has_texture
                &&& final(self).valid == if data_updated || size_changed {
                    false
                } else if !old(self).has_texture {
                    frame_count > 0
                } else {
                    old(self).valid || frame_count > 0
                }
            },
    {
        if width == 0 || height == 0 {
            return CachePreparation::Skip;
        }
        let size_changed = self.width != width || self.height != height;
        let recreate = self.ensure_texture(width, height);
        if data_updated || size_changed {
            self.invalidate();
        } else if !self.valid && frame_count > 0 {
            self.mark_valid();
        }
        CachePreparation::Render { recreate }
    }
}

} // verus!
