//! Host-side logic of a 3D Gaussian splatting renderer: the splat store's
//! selection state, the cull compaction and the radix sort of the per-frame
//! GPU graph, the temporal-coherence controller, pipeline variants, the packed
//! data layout and the pick pass.
pub mod cull;
pub mod frame;
pub mod packing;
pub mod picking;
pub mod pipeline;
pub mod preview;
pub mod radix_sort;
pub mod readback;
pub mod selection;
pub mod splats;
pub mod splat_state;
pub mod temporal_coherence;

use vstd::prelude::*;

verus! {

/// Marker for the plugin that registers the embedded shaders.
#[derive(Clone, Copy, Debug, PartialEq, Eq, Structural)]
pub struct EmbeddedShadersPlugin;

} // verus!
