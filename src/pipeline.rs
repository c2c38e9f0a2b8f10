//! Choice of the splat rasterizer's variant: from a pipeline key to the shader
//! definitions, colour target, depth test and sample count.
use vstd::prelude::*;

verus! {

/// What the splat fragment stage draws.
#[derive(Clone, Copy, Debug, PartialEq, Eq, Hash, Structural)]
pub enum SplatVisMode {
    /// Gaussian footprints with their colours.
    Splat,
    /// One pixel per splat.
    Point,
    /// Concentric rings on each footprint.
    Rings,
    /// A solid disk at each centre, coloured by selection state.
    Centers,
    /// The 1-based splat index as RGBA8, without blending.
    Pick,
    /// Only selected splats, for the outline pass.
    Outline,
}

/// Highest spherical-harmonic degree the shader evaluates.
pub const MAX_SH_DEGREE: u32 = 3;

/// A shader definition of the splat shader.
#[derive(Clone, Copy, Debug, PartialEq, Eq, Hash, Structural)]
pub enum ShaderDef {
    Pack,
    GsplatAa,
    VisPoint,
    VisRings,
    VisCenters,
    PickPass,
    OutlinePass,
    /// Evaluate the band of this degree (defined cumulatively, 1 to the degree used).
    ShDegree(u32),
    RenderToCache,
    RenderToHdr,
}

/// The texture a variant draws into.
#[derive(Clone, Copy, Debug, PartialEq, Eq, Structural)]
pub enum ColorTarget {
    /// The render cache (RGBA8, no sRGB conversion on write).
    Cache,
    /// An HDR view target.
    Hdr,
    /// An sRGB view target.
    Srgb,
}

/// The depth test of a variant.
#[derive(Clone, Copy, Debug, PartialEq, Eq, Structural)]
pub enum DepthTest {
    /// No depth attachment (the splats arrive sorted).
    Disabled,
    /// A depth attachment whose test always passes.
    Always,
    /// Reverse-Z test against the scene.
    GreaterEqual,
}

/// Key of a specialised splat pipeline.
#[derive(Clone, Copy, Debug, PartialEq, Eq, Hash, Structural)]
pub struct GaussianSplatPipelineKey {
    pub hdr: bool,
    pub msaa_samples: u32,
    pub enable_aa: bool,
    pub sh_degree: u32,
    pub pack_mode: bool,
    pub vis_mode: SplatVisMode,
    pub use_tonemapping: bool,
}

/// What a key asks of the pipeline.
pub struct SplatPipelineVariant {
    pub shader_defs: Vec<ShaderDef>,
    pub target: ColorTarget,
    pub depth: DepthTest,
    pub sample_count: u32,
}

pub open spec fn renders_to_cache(mode: SplatVisMode) -> bool {
    mode == SplatVisMode::Splat || mode == SplatVisMode::Point
}

pub open spec fn vis_defs(mode: SplatVisMode) -> Seq<ShaderDef> {
    match mode {
        SplatVisMode::Splat => seq![],
        SplatVisMode::Point => seq![ShaderDef::VisPoint],
        SplatVisMode::Rings => seq![ShaderDef::VisRings],
        SplatVisMode::Centers => seq![ShaderDef::VisCenters],
        SplatVisMode::Pick => seq![ShaderDef::PickPass],
        SplatVisMode::Outline => seq![ShaderDef::OutlinePass],
    }
}

/// `ShDegree(1)` up to `ShDegree(d)`.
pub open spec fn sh_defs(d: u32) -> Seq<ShaderDef> {
    Seq::new(d as nat, |i: int| ShaderDef::ShDegree((i + 1) as u32))
}

pub open spec fn key_shader_defs(key: GaussianSplatPipelineKey) -> Seq<ShaderDef> {
    let d = if key.sh_degree < MAX_SH_DEGREE { key.sh_degree } else { MAX_SH_DEGREE };
    (if key.pack_mode { seq![ShaderDef::Pack] } else { seq![] })
    + (if key.enable_aa { seq![ShaderDef::GsplatAa] } else { seq![] })
    + vis_defs(key.vis_mode)
    + sh_defs(d)
    + (if renders_to_cache(key.vis_mode) {
        seq![ShaderDef::RenderToCache]
    } else if key.hdr {
        seq![ShaderDef::RenderToHdr]
    } else {
        seq![]
    })
}

/// The variant for a key: the main passes (splat, point) draw into the cache
/// without depth or multisampling; the others draw to the view target with its
/// multisampling, the outline pass without a depth test.
pub fn specialize(key: &GaussianSplatPipelineKey) -> (r: SplatPipelineVariant)
    ensures
        r.shader_defs@ == key_shader_defs(*key),
        r.target == if renders_to_cache(key.vis_mode) {
            ColorTarget::Cache
        } else if key.hdr {
            ColorTarget::Hdr
        } else {
            ColorTarget::Srgb
        },
        r.depth == if renders_to_cache(key.vis_mode) {
            DepthTest::Disabled
        } else if key.vis_mode == SplatVisMode::Outline {
            DepthTest::Always
        } else {
            DepthTest::GreaterEqual
        },
        r.sample_count == if renders_to_cache(key.vis_mode) { 1 } else { key.msaa_samples },
{
    let mut defs: Vec<ShaderDef> = Vec::new();
    if key.pack_mode {
        defs.push(ShaderDef::Pack);
    }
    if key.enable_aa {
        defs.push(ShaderDef::GsplatAa);
    }
    let ghost before_vis = defs@;
    match key.vis_mode {
        SplatVisMode::Splat => {},
        SplatVisMode::Point => defs.push(ShaderDef::VisPoint),
        SplatVisMode::Rings => defs.push(ShaderDef::VisRings),
        SplatVisMode::Centers => defs.push(ShaderDef::VisCenters),
        SplatVisMode::Pick => defs.push(ShaderDef::PickPass),
        SplatVisMode::Outline => defs.push(ShaderDef::OutlinePass),
    }
    assert(defs@ =~= before_vis + vis_defs(key.vis_mode));
    let d = if key.sh_degree < MAX_SH_DEGREE { key.sh_degree } else { MAX_SH_DEGREE };
    let ghost before_sh = defs@;
    let mut i: u32 = 1;
    while i <= d
        invariant
            1 <= i <= d + 1,
            d <= MAX_SH_DEGREE,
            defs@ == before_sh + sh_defs((i - 1) as u32),
        decreases d + 1 - i,
    {
        defs.push(ShaderDef::ShDegree(i));
        assert(defs@ =~= before_sh + sh_defs(i));
        i = i + 1;
    }
    let to_cache = match key.vis_mode {
        SplatVisMode::Splat | SplatVisMode::Point => true,
        _ => false,
    };
    if to_cache {
        defs.push(ShaderDef::RenderToCache);
    } else if key.hdr {
        defs.push(ShaderDef::RenderToHdr);
    }
    let target = if to_cache {
        ColorTarget::Cache
    } else if key.hdr {
        ColorTarget::Hdr
    } else {
        ColorTarget::Srgb
    };
    let depth = if to_cache {
        DepthTest::Disabled
    } else if key.vis_mode == SplatVisMode::Outline {
        DepthTest::Always
    } else {
        DepthTest::GreaterEqual
    };
    let sample_count = if to_cache { 1 } else { key.msaa_samples };
    let r = SplatPipelineVariant { shader_defs: defs, target, depth, sample_count };
    assert(r.shader_defs@ =~= key_shader_defs(*key));
    r
}

/// Edge-detection kernel sizes of the outline pass run from 1 to 3.
pub fn clamp_outline_kernel_size(kernel_size: i32) -> (r: i32)
    ensures
        r == if kernel_size < 1 { 1 } else if kernel_size > 3 { 3 } else { kernel_size },
{
    if kernel_size < 1 {
        1
    } else if kernel_size > 3 {
        3
    } else {
        kernel_size
    }
}

} // verus!
