//! Compaction half of the cull and project pass: the splats that passed the
//! view test are appended, in index order, to the visible-index list together
//! with their depth keys, and the indirect draw record counts them.
use vstd::prelude::*;

verus! {

/// Vertices of the quad drawn for each splat.
pub const QUAD_VERTICES: u32 = 4;

/// The GPU-visible indirect draw record.
#[derive(Clone, Copy, Debug, PartialEq, Eq, Structural)]
pub struct DrawIndirectArgs {
    pub vertex_count: u32,
    /// Set by the cull pass: the number of visible splats.
    pub instance_count: u32,
    pub first_vertex: u32,
    pub first_instance: u32,
}

impl DrawIndirectArgs {
    /// The header written when an entity has `point_count` splats.
    pub fn for_points(point_count: u32) -> (r: Self)
        ensures
            r == (DrawIndirectArgs {
                vertex_count: QUAD_VERTICES,
                instance_count: point_count,
                first_vertex: 0,
                first_instance: 0,
            }),
    {
        DrawIndirectArgs {
            vertex_count: QUAD_VERTICES,
            instance_count: point_count,
            first_vertex: 0,
            first_instance: 0,
        }
    }
}

/// Indices `i` below `vis.len()` with `vis[i]`, in increasing order.
pub open spec fn visible_list(vis: Seq<bool>) -> Seq<u32>
    decreases vis.len(),
{
    if vis.len() == 0 {
        Seq::empty()
    } else if vis.last() {
        visible_list(vis.drop_last()).push((vis.len() - 1) as u32)
    } else {
        visible_list(vis.drop_last())
    }
}

proof fn lemma_visible_list_bounds(vis: Seq<bool>)
    requires
        vis.len() <= u32::MAX,
    ensures
        visible_list(vis).len() <= vis.len(),
        forall|j: int|
            0 <= j < visible_list(vis).len() ==> #[trigger] visible_list(vis)[j] < vis.len()
                && vis[visible_list(vis)[j] as int],
        forall|a: int, b: int|
            0 <= a < b < visible_list(vis).len() ==> visible_list(vis)[a] < visible_list(vis)[b],
    decreases vis.len(),
{
    if vis.len() > 0 {
        let p = vis.drop_last();
        lemma_visible_list_bounds(p);
        assert forall|j: int| 0 <= j < visible_list(p).len() implies #[trigger] vis[visible_list(p)[j] as int] by {
            assert(vis[visible_list(p)[j] as int] == p[visible_list(p)[j] as int]);
        }
    }
}

/// Clears the scratch buffers and the instance count, then appends each
/// splat `i` with `visible[i]` to `visible_indices`, with `keys[i]` at the same
/// slot of `depth_keys`; `indirect.instance_count` ends as the number appended.
pub fn compact_visible(
    visible: &[bool],
    keys: &[u32],
    depth_keys: &mut Vec<u32>,
    visible_indices: &mut Vec<u32>,
    indirect: &mut DrawIndirectArgs,
)
    requires
        keys@.len() == visible@.len(),
        visible@.len() <= old(depth_keys).len(),
        visible@.len() <= old(visible_indices).len(),
        visible@.len() <= u32::MAX,
    ensures
        final(depth_keys).len() == old(depth_keys).len(),
        final(visible_indices).len() == old(visible_indices).len(),
        final(indirect).instance_count == visible_list(visible@).len(),
        final(indirect).instance_count <= visible@.len(),
        final(visible_indices)@.take(final(indirect).instance_count as int) == visible_list(visible@),
        forall|j: int|
            0 <= j < final(indirect).instance_count ==> #[trigger] final(visible_indices)@[j]
                < visible@.len(),
        forall|j: int|
            0 <= j < final(indirect).instance_count ==> #[trigger] final(depth_keys)@[j]
                == keys@[final(visible_indices)@[j] as int],
        forall|j: int|
            final(indirect).instance_count <= j < final(visible_indices).len()
                ==> #[trigger] final(visible_indices)@[j] == 0,
        forall|j: int|
            final(indirect).instance_count <= j < final(depth_keys).len()
                ==> #[trigger] final(depth_keys)@[j] == 0,
        final(indirect).vertex_count == old(indirect).vertex_count,
        final(indirect).first_vertex == old(indirect).first_vertex,
        final(indirect).first_instance == old(indirect).first_instance,
{
    let mut z: usize = 0;
    while z < depth_keys.len()
        invariant
            depth_keys.len() == old(depth_keys).len(),
            forall|j: int| 0 <= j < z ==> #[trigger] depth_keys@[j] == 0,
        decreases depth_keys.len() - z,
    {
        depth_keys.set(z, 0);
        z = z + 1;
    }
    z = 0;
    while z < visible_indices.len()
        invariant
            visible_indices.len() == old(visible_indices).len(),
            forall|j: int| 0 <= j < z ==> #[trigger] visible_indices@[j] == 0,
        decreases visible_indices.len() - z,
    {
        visible_indices.set(z, 0);
        z = z + 1;
    }
    indirect.instance_count = 0;
    let n = visible.len();
    let mut i: usize = 0;
    while i < n
        invariant
            i <= n,
            n == visible@.len(),
            n == keys@.len(),
            n <= u32::MAX,
            n <= depth_keys.len(),
            n <= visible_indices.len(),
            depth_keys.len() == old(depth_keys).len(),
            visible_indices.len() == old(visible_indices).len(),
            indirect.instance_count == visible_list(visible@.take(i as int)).len(),
            visible_indices@.take(indirect.instance_count as int) == visible_list(visible@.take(i as int)),
            forall|j: int|
                0 <= j < indirect.instance_count ==> #[trigger] depth_keys@[j] == keys@[visible_indices@[j] as int],
            forall|j: int| indirect.instance_count <= j < visible_indices.len() ==> #[trigger] visible_indices@[j] == 0,
            forall|j: int| indirect.instance_count <= j < depth_keys.len() ==> #[trigger] depth_keys@[j] == 0,
            indirect.vertex_count == old(indirect).vertex_count,
            indirect.first_vertex == old(indirect).first_vertex,
            indirect.first_instance == old(indirect).first_instance,
        decreases n - i,
    {
        proof {
            lemma_visible_list_bounds(visible@.take(i as int));
            assert(visible@.take(i + 1).drop_last() =~= visible@.take(i as int));
        }
        if visible[i] {
            let slot = indirect.instance_count;
            visible_indices.set(slot as usize, i as u32);
            depth_keys.set(slot as usize, keys[i]);
            indirect.instance_count = slot + 1;
            proof {
                assert(visible_indices@.take(indirect.instance_count as int) =~= visible_list(
                    visible@.take(i + 1),
                ));
            }
        }
        i = i + 1;
    }
    proof {
        assert(visible@.take(n as int) =~= visible@);
        lemma_visible_list_bounds(visible@);
        assert forall|j: int| 0 <= j < indirect.instance_count implies #[trigger] visible_indices@[j]
            < visible@.len() by {
            assert(visible_indices@.take(indirect.instance_count as int)[j] == visible_list(visible@)[j]);
        }
    }
}

} // verus!
