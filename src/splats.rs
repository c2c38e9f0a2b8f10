//! The index and size logic of the splat store: spherical-harmonic degrees,
//! length checks, subsets, duplication of the selection, GPU buffer sizes and
//! the upload decision. The float arrays themselves are held by the caller.
use vstd::prelude::*;
use crate::selection::has_flag;
use crate::splat_state::SELECTED;

verus! {

/// Number of spherical-harmonic coefficients of a band of degree `degree`.
pub fn sh_coeffs_for_degree(degree: u32) -> (r: u32)
    requires
        degree < 0xffff,
    ensures
        r == (degree + 1) * (degree + 1),
{
    assert((degree + 1) * (degree + 1) <= 0xffff * 0xffff) by (nonlinear_arith)
        requires
            degree < 0xffff,
    ;
    (degree + 1) * (degree + 1)
}

/// The degree inferred from a coefficient count: the integer square root
/// minus one (0 for no coefficients).
pub open spec fn sh_degree_of(num_coeffs: u32, d: u32) -> bool {
    if num_coeffs == 0 {
        d == 0
    } else {
        (d + 1) * (d + 1) <= num_coeffs < (d + 2) * (d + 2)
    }
}

/// Degree of the spherical harmonics that `num_coeffs` coefficients per
/// channel hold: `(d + 1)^2 = num_coeffs` for a full band.
pub fn sh_degree_from_coeffs(num_coeffs: u32) -> (d: u32)
    ensures
        sh_degree_of(num_coeffs, d),
{
    if num_coeffs == 0 {
        return 0;
    }
    let k = num_coeffs as u64;
    let mut r: u64 = 1;
    assert((1 + 1) * (1 + 1) <= 0x1_0001 * 0x1_0001);
    while (r + 1) * (r + 1) <= k
        invariant
            1 <= r <= 0x1_0000,
            (r + 1) * (r + 1) <= 0x1_0001 * 0x1_0001,
            r * r <= k,
            k <= 0xffff_ffff,
        decreases k - r,
    {
        assert((r + 1) * (r + 1) > r) by (nonlinear_arith)
            requires
                r >= 1,
        ;
        assert(r + 1 <= 0x1_0000) by (nonlinear_arith)
            requires
                (r + 1) * (r + 1) <= k,
                k <= 0xffff_ffff,
        ;
        assert((r + 2) * (r + 2) <= 0x1_0001 * 0x1_0001) by (nonlinear_arith)
            requires
                r + 1 <= 0x1_0000,
        ;
        r = r + 1;
    }
    assert(r * r >= 1) by (nonlinear_arith)
        requires
            r >= 1,
    ;
    ((r - 1) as u32)
}

/// An array of the splat store whose length differs from that of the means.
#[derive(Clone, Copy, Debug, PartialEq, Eq, Structural)]
pub enum SplatArray {
    Rotations,
    LogScales,
    ShCoeffs,
    RawOpacities,
}

/// A configuration error of the splat store.
#[derive(Clone, Copy, Debug, PartialEq, Eq, Structural)]
pub enum SplatStoreError {
    /// `array` has `actual` entries where the means have `expected`.
    LengthMismatch { array: SplatArray, expected: usize, actual: usize },
}

/// Checks that every per-splat array has as many entries as the means, and
/// returns that number; the first array (in the order rotations, log-scales,
/// coefficients, opacities) that differs is reported.
pub fn check_splat_lengths(
    means: usize,
    rotations: usize,
    log_scales: usize,
    sh_coeffs: usize,
    raw_opacities: usize,
) -> (r: Result<usize, SplatStoreError>)
    ensures
        rotations == means && log_scales == means && sh_coeffs == means && raw_opacities == means
            <==> r == Ok::<usize, SplatStoreError>(means),
        rotations != means ==> r == Err::<usize, SplatStoreError>(
            SplatStoreError::LengthMismatch { array: SplatArray::Rotations, expected: means, actual: rotations },
        ),
        rotations == means && log_scales != means ==> r == Err::<usize, SplatStoreError>(
            SplatStoreError::LengthMismatch { array: SplatArray::LogScales, expected: means, actual: log_scales },
        ),
        rotations == means && log_scales == means && sh_coeffs != means ==> r == Err::<usize, SplatStoreError>(
            SplatStoreError::LengthMismatch { array: SplatArray::ShCoeffs, expected: means, actual: sh_coeffs },
        ),
        rotations == means && log_scales == means && sh_coeffs == means && raw_opacities != means ==> r
            == Err::<usize, SplatStoreError>(
            SplatStoreError::LengthMismatch {
                array: SplatArray::RawOpacities,
                expected: means,
                actual: raw_opacities,
            },
        ),
{
    if rotations != means {
        Err(SplatStoreError::LengthMismatch { array: SplatArray::Rotations, expected: means, actual: rotations })
    } else if log_scales != means {
        Err(SplatStoreError::LengthMismatch { array: SplatArray::LogScales, expected: means, actual: log_scales })
    } else if sh_coeffs != means {
        Err(SplatStoreError::LengthMismatch { array: SplatArray::ShCoeffs, expected: means, actual: sh_coeffs })
    } else if raw_opacities != means {
        Err(
            SplatStoreError::LengthMismatch {
                array: SplatArray::RawOpacities,
                expected: means,
                actual: raw_opacities,
            },
        )
    } else {
        Ok(means)
    }
}

/// The entries of `indices` below `len`, in their order.
pub open spec fn indices_below(indices: Seq<usize>, len: usize) -> Seq<usize>
    decreases indices.len(),
{
    if indices.len() == 0 {
        Seq::empty()
    } else if indices.last() < len {
        indices_below(indices.drop_last(), len).push(indices.last())
    } else {
        indices_below(indices.drop_last(), len)
    }
}

/// The indices of a subset that exist in a store of `len` splats, in the
/// order given (repeats kept).
pub fn subset_indices(indices: &[usize], len: usize) -> (r: Vec<usize>)
    ensures
        r@ == indices_below(indices@, len),
{
    let mut r: Vec<usize> = Vec::new();
    let mut k: usize = 0;
    while k < indices.len()
        invariant
            k <= indices@.len(),
            r@ == indices_below(indices@.take(k as int), len),
        decreases indices@.len() - k,
    {
        proof {
            assert(indices@.take(k + 1).drop_last() =~= indices@.take(k as int));
        }
        if indices[k] < len {
            r.push(indices[k]);
        }
        k = k + 1;
    }
    proof {
        assert(indices@.take(indices@.len() as int) =~= indices@);
    }
    r
}

/// Indices below `len` of the selected splats, in increasing order: the
/// splats that duplicating the selection appends copies of.
pub fn selected_splat_indices(states: &[u8], len: usize) -> (r: Vec<usize>)
    ensures
        forall|a: int, b: int| 0 <= a < b < r@.len() ==> r@[a] < r@[b],
        forall|a: int|
            0 <= a < r@.len() ==> #[trigger] r@[a] < len && r@[a] < states@.len() && has_flag(
                states@[r@[a] as int],
                SELECTED,
            ),
        forall|i: int|
            0 <= i < len && i < states@.len() && has_flag(#[trigger] states@[i], SELECTED) ==> r@.contains(
                i as usize,
            ),
{
    let m = if states.len() < len {
        states.len()
    } else {
        len
    };
    let mut r: Vec<usize> = Vec::new();
    let mut i: usize = 0;
    while i < m
        invariant
            i <= m,
            m <= len,
            m <= states@.len(),
            m == len || m == states@.len(),
            forall|a: int, b: int| 0 <= a < b < r@.len() ==> r@[a] < r@[b],
            forall|a: int|
                0 <= a < r@.len() ==> #[trigger] r@[a] < i && has_flag(states@[r@[a] as int], SELECTED),
            forall|j: int|
                0 <= j < i && has_flag(#[trigger] states@[j], SELECTED) ==> r@.contains(j as usize),
        decreases m - i,
    {
        if states[i] & SELECTED != 0 {
            let ghost before = r@;
            r.push(i);
            proof {
                assert forall|j: int|
                    0 <= j < i + 1 && has_flag(#[trigger] states@[j], SELECTED) implies r@.contains(
                    j as usize,
                ) by {
                    if j < i {
                        let w = choose|w: int| 0 <= w < before.len() && #[trigger] before[w] == j as usize;
                        assert(r@[w] == j as usize);
                    } else {
                        assert(r@[r@.len() - 1] == j as usize);
                    }
                }
            }
        }
        i = i + 1;
    }
    r
}

/// What an update of a store's data does to its GPU buffers.
#[derive(Clone, Copy, Debug, PartialEq, Eq, Structural)]
pub enum UploadAction {
    /// The data outgrew the buffers: drop them; they are made again next frame.
    Reallocate,
    /// Write the data into the existing buffers.
    WriteInPlace,
}

/// Decides how `point_count` splats reach buffers made for `capacity` splats.
pub fn plan_upload(point_count: u32, capacity: u32) -> (r: UploadAction)
    ensures
        r == if point_count > capacity {
            UploadAction::Reallocate
        } else {
            UploadAction::WriteInPlace
        },
{
    if point_count > capacity {
        UploadAction::Reallocate
    } else {
        UploadAction::WriteInPlace
    }
}

/// How far an entity's GPU resources have come.
#[derive(Clone, Copy, Debug, PartialEq, Eq, Structural)]
pub enum EntityRenderState {
    Uninitialised,
    BuffersReady,
    BindGroupsReady,
    Drawable,
}

/// What happened to an entity's GPU resources.
#[derive(Clone, Copy, Debug, PartialEq, Eq, Structural)]
pub enum EntityRenderEvent {
    BuffersCreated,
    BindGroupsCreated,
    /// The pipeline compiled.
    PipelineReady,
    /// The viewport was resized or the data outgrew the buffers.
    Invalidated,
}

/// The state after `event`; resizes and outgrown buffers start over, and an
/// event out of order changes nothing.
pub open spec fn render_step(state: EntityRenderState, event: EntityRenderEvent) -> EntityRenderState {
    match (state, event) {
        (_, EntityRenderEvent::Invalidated) => EntityRenderState::Uninitialised,
        (EntityRenderState::Uninitialised, EntityRenderEvent::BuffersCreated) => EntityRenderState::BuffersReady,
        (EntityRenderState::BuffersReady, EntityRenderEvent::BindGroupsCreated) => EntityRenderState::BindGroupsReady,
        (EntityRenderState::BindGroupsReady, EntityRenderEvent::PipelineReady) => EntityRenderState::Drawable,
        _ => state,
    }
}

pub fn render_transition(state: EntityRenderState, event: EntityRenderEvent) -> (r: EntityRenderState)
    ensures
        r == render_step(state, event),
{
    match (state, event) {
        (_, EntityRenderEvent::Invalidated) => EntityRenderState::Uninitialised,
        (EntityRenderState::Uninitialised, EntityRenderEvent::BuffersCreated) => EntityRenderState::BuffersReady,
        (EntityRenderState::BuffersReady, EntityRenderEvent::BindGroupsCreated) => EntityRenderState::BindGroupsReady,
        (EntityRenderState::BindGroupsReady, EntityRenderEvent::PipelineReady) => EntityRenderState::Drawable,
        _ => state,
    }
}

/// Bytes per splat of each GPU array.
pub const POSITION_BYTES: u64 = 12;
pub const COLOR_BYTES: u64 = 12;
pub const SCALE_BYTES: u64 = 12;
pub const OPACITY_BYTES: u64 = 4;
pub const ROTATION_BYTES: u64 = 16;
/// Fifteen higher-order coefficients of three channels, as f32.
pub const SH_BYTES: u64 = 180;
/// Rotation, scale and opacity as four words of half-float pairs.
pub const PACKED_ROTATION_SCALE_BYTES: u64 = 16;
/// The colour as two words of half-float pairs.
pub const PACKED_COLOR_BYTES: u64 = 8;
/// A packed coefficient record: sixteen words.
pub const PACKED_SH_BYTES: u64 = 64;
/// State, depth key, sorted index and visible index: one word each.
pub const WORD_BYTES: u64 = 4;
/// The indirect draw record.
pub const INDIRECT_BYTES: u64 = 16;

/// Byte sizes of the GPU buffers of one store. In packed mode the standard
/// per-splat arrays shrink to one placeholder entry and the packed arrays hold
/// the data; otherwise the packed arrays are absent (size 0).
#[derive(Clone, Copy, Debug, PartialEq, Eq, Structural)]
pub struct SplatBufferSizes {
    pub positions: u64,
    pub colors: u64,
    pub scales: u64,
    pub opacities: u64,
    pub rotations: u64,
    pub sh: u64,
    pub rotation_scales_packed: u64,
    pub colors_packed: u64,
    pub sh_packed: u64,
    pub state: u64,
    pub depth_keys: u64,
    pub sorted_indices: u64,
    pub visible_indices: u64,
    pub indirect: u64,
}

impl SplatBufferSizes {
    /// Sizes for buffers that hold `capacity` splats.
    pub fn for_capacity(capacity: u32, packed: bool) -> (r: Self)
        ensures
            r.positions == POSITION_BYTES * capacity,
            r.colors == COLOR_BYTES * if packed { 1 } else { capacity },
            r.scales == SCALE_BYTES * if packed { 1 } else { capacity },
            r.opacities == OPACITY_BYTES * if packed { 1 } else { capacity },
            r.rotations == ROTATION_BYTES * if packed { 1 } else { capacity },
            r.sh == if packed { WORD_BYTES as int } else { SH_BYTES * capacity },
            r.rotation_scales_packed == if packed { PACKED_ROTATION_SCALE_BYTES * capacity } else { 0int },
            r.colors_packed == if packed { PACKED_COLOR_BYTES * capacity } else { 0int },
            r.sh_packed == if packed { PACKED_SH_BYTES * capacity } else { 0int },
            r.state == WORD_BYTES * capacity,
            r.depth_keys == WORD_BYTES * capacity,
            r.sorted_indices == WORD_BYTES * capacity,
            r.visible_indices == WORD_BYTES * capacity,
            r.indirect == INDIRECT_BYTES,
    {
        let c = capacity as u64;
        let per = if packed { 1u64 } else { c };
        SplatBufferSizes {
            positions: POSITION_BYTES * c,
            colors: COLOR_BYTES * per,
            scales: SCALE_BYTES * per,
            opacities: OPACITY_BYTES * per,
            rotations: ROTATION_BYTES * per,
            sh: if packed { WORD_BYTES } else { SH_BYTES * c },
            rotation_scales_packed: if packed { PACKED_ROTATION_SCALE_BYTES * c } else { 0 },
            colors_packed: if packed { PACKED_COLOR_BYTES * c } else { 0 },
            sh_packed: if packed { PACKED_SH_BYTES * c } else { 0 },
            state: WORD_BYTES * c,
            depth_keys: WORD_BYTES * c,
            sorted_indices: WORD_BYTES * c,
            visible_indices: WORD_BYTES * c,
            indirect: INDIRECT_BYTES,
        }
    }
}

/// Whether an entity's splat data uses the packed GPU layout.
#[derive(Clone, Copy, Debug, PartialEq, Eq, Structural)]
pub struct PackModeConfig {
    pub enabled: bool,
}

impl PackModeConfig {
    pub fn enabled() -> (r: Self)
        ensures
            r.enabled,
    {
        PackModeConfig { enabled: true }
    }

    pub fn disabled() -> (r: Self)
        ensures
            !r.enabled,
    {
        PackModeConfig { enabled: false }
    }
}

impl Default for PackModeConfig {
    /// Packed mode is on unless asked otherwise.
    fn default() -> (r: Self)
        ensures
            r.enabled,
    {
        PackModeConfig { enabled: true }
    }
}

} // verus!
