use rfs_gsplat_render::cull::{compact_visible, DrawIndirectArgs};
use rfs_gsplat_render::frame::{cull_and_sort, cull_workgroups, plan_frame, FrameAction};
use rfs_gsplat_render::temporal_coherence::{should_skip_sorting, GaussianSplatRenderCache, TemporalCoherenceCache, TemporalCoherenceConfig};
use rfs_gsplat_render::radix_sort::create_radix_sort_buffers;
use rfs_gsplat_render::packing::{pack_half2, pack_normal_11_10_11, unpack_half2, unpack_normal_11_10_11};
use rfs_gsplat_render::picking::{apply_pick_results, clamp_pick_rect, decode_pick_pixel, decode_pick_pixels, extract_pick_rect, PickOp, PickRect};
use rfs_gsplat_render::pipeline::{clamp_outline_kernel_size, specialize, ColorTarget, DepthTest, GaussianSplatPipelineKey, ShaderDef, SplatVisMode};
use rfs_gsplat_render::preview::{PreviewUploadError, TrainingPreviewRenderTarget};
use rfs_gsplat_render::selection::{extract_selection_state, SplatSelectionState};
use rfs_gsplat_render::splats::{check_splat_lengths, plan_upload, selected_splat_indices, sh_coeffs_for_degree, sh_degree_from_coeffs, subset_indices, PackModeConfig, SplatArray, SplatBufferSizes, SplatStoreError, UploadAction};

#[test]
fn cull_reduces_instance_count() {
    let n = 1000;
    let visible: Vec<bool> = (0..n).map(|i| i >= 50).collect();
    let keys: Vec<u32> = (0..n as u32).map(|i| 5000 - i).collect();
    let mut depth_keys = vec![7u32; 1200];
    let mut visible_indices = vec![7u32; 1200];
    let mut indirect = DrawIndirectArgs::for_points(n as u32);
    compact_visible(&visible, &keys, &mut depth_keys, &mut visible_indices, &mut indirect);
    assert_eq!(indirect.instance_count, 950);
    assert_eq!(indirect.vertex_count, 4);
    for j in 0..950 {
        assert_eq!(visible_indices[j], 50 + j as u32);
        assert_eq!(depth_keys[j], keys[50 + j]);
    }
    assert!(visible_indices[950..].iter().all(|&x| x == 0));
    assert!(depth_keys[950..].iter().all(|&x| x == 0));
}

#[test]
fn indirect_header() {
    assert_eq!(
        DrawIndirectArgs::for_points(12),
        DrawIndirectArgs { vertex_count: 4, instance_count: 12, first_vertex: 0, first_instance: 0 }
    );
}

#[test]
fn direction_packing_round_trip() {
    assert_eq!(pack_normal_11_10_11(2047, 1023, 2047), u32::MAX);
    assert_eq!(pack_normal_11_10_11(1, 0, 0), 1);
    assert_eq!(pack_normal_11_10_11(0, 1, 0), 1 << 11);
    assert_eq!(pack_normal_11_10_11(0, 0, 1), 1 << 21);
    let p = pack_normal_11_10_11(1024, 512, 3);
    assert_eq!(unpack_normal_11_10_11(p), (1024, 512, 3));
}

#[test]
fn half_pair_round_trip() {
    assert_eq!(pack_half2(0x3c00, 0xc000), 0xc000_3c00);
    assert_eq!(unpack_half2(0xc000_3c00), (0x3c00, 0xc000));
}

#[test]
fn pick_pixels_decode_to_sorted_distinct_indices() {
    assert_eq!(decode_pick_pixel(0, 0, 0, 0), None);
    assert_eq!(decode_pick_pixel(255, 255, 255, 255), None);
    assert_eq!(decode_pick_pixel(1, 0, 0, 0), Some(0));
    assert_eq!(decode_pick_pixel(0, 1, 0, 0), Some(255));
    let pixels = vec![
        3, 0, 0, 0, // splat 2
        0, 0, 0, 0, // background
        1, 1, 0, 0, // splat 256
        3, 0, 0, 0, // splat 2 again
        1, 0, 0, 0, // splat 0
        9, 9, // a partial pixel is ignored
    ];
    assert_eq!(decode_pick_pixels(&pixels), vec![0, 2, 256]);
}

#[test]
fn pick_rect_rows_are_extracted() {
    let pixels: Vec<u8> = (0..48).collect();
    // A texture 4 pixels wide, 3 rows; the rectangle is 2 pixels wide, 2 rows.
    let rows = extract_pick_rect(&pixels, 4, 2, 2);
    let mut expected: Vec<u8> = (0..8).collect();
    expected.extend(16..24);
    assert_eq!(rows, expected);
    // A row past the data is left out.
    assert_eq!(extract_pick_rect(&pixels, 4, 2, 5).len(), 24);
    assert_eq!(clamp_pick_rect(PickRect { x: 3, y: 1, width: 4, height: 1 }, 4, 3), (1, 1));
    assert_eq!(clamp_pick_rect(PickRect { x: 9, y: 1, width: 4, height: 1 }, 4, 3), (0, 1));
}

#[test]
fn pick_results_apply() {
    let mut s = SplatSelectionState::new(4);
    apply_pick_results(&mut s, &[1, 3, 9], PickOp::Add);
    assert_eq!(s.get_selected_indices(), vec![1, 3]);
    apply_pick_results(&mut s, &[0], PickOp::Replace);
    assert_eq!(s.get_selected_indices(), vec![0]);
    apply_pick_results(&mut s, &[0], PickOp::Remove);
    assert_eq!(s.num_selected, 0);
}

#[test]
fn pipeline_variants() {
    let key = GaussianSplatPipelineKey {
        hdr: true,
        msaa_samples: 4,
        enable_aa: true,
        sh_degree: 5,
        pack_mode: true,
        vis_mode: SplatVisMode::Splat,
        use_tonemapping: false,
    };
    let v = specialize(&key);
    assert_eq!(
        v.shader_defs,
        vec![
            ShaderDef::Pack,
            ShaderDef::GsplatAa,
            ShaderDef::ShDegree(1),
            ShaderDef::ShDegree(2),
            ShaderDef::ShDegree(3),
            ShaderDef::RenderToCache
        ]
    );
    assert_eq!(v.target, ColorTarget::Cache);
    assert_eq!(v.depth, DepthTest::Disabled);
    assert_eq!(v.sample_count, 1);
    let o = specialize(&GaussianSplatPipelineKey { vis_mode: SplatVisMode::Outline, sh_degree: 0, pack_mode: false, enable_aa: false, ..key });
    assert_eq!(o.shader_defs, vec![ShaderDef::OutlinePass, ShaderDef::RenderToHdr]);
    assert_eq!(o.depth, DepthTest::Always);
    assert_eq!(o.sample_count, 4);
    let c = specialize(&GaussianSplatPipelineKey { vis_mode: SplatVisMode::Centers, hdr: false, sh_degree: 1, ..key });
    assert_eq!(c.target, ColorTarget::Srgb);
    assert_eq!(c.depth, DepthTest::GreaterEqual);
    assert_eq!(c.shader_defs, vec![ShaderDef::Pack, ShaderDef::GsplatAa, ShaderDef::VisCenters, ShaderDef::ShDegree(1)]);
    assert_eq!(clamp_outline_kernel_size(0), 1);
    assert_eq!(clamp_outline_kernel_size(2), 2);
    assert_eq!(clamp_outline_kernel_size(9), 3);
}

#[test]
fn sh_degrees() {
    assert_eq!(sh_degree_from_coeffs(0), 0);
    assert_eq!(sh_degree_from_coeffs(1), 0);
    assert_eq!(sh_degree_from_coeffs(4), 1);
    assert_eq!(sh_degree_from_coeffs(9), 2);
    assert_eq!(sh_degree_from_coeffs(16), 3);
    assert_eq!(sh_degree_from_coeffs(15), 2);
    assert_eq!(sh_degree_from_coeffs(u32::MAX), 65534);
    assert_eq!(sh_coeffs_for_degree(3), 16);
}

#[test]
fn splat_length_errors() {
    assert_eq!(check_splat_lengths(3, 3, 3, 3, 3), Ok(3));
    assert_eq!(
        check_splat_lengths(3, 2, 3, 3, 3),
        Err(SplatStoreError::LengthMismatch { array: SplatArray::Rotations, expected: 3, actual: 2 })
    );
    assert_eq!(
        check_splat_lengths(3, 3, 4, 3, 3),
        Err(SplatStoreError::LengthMismatch { array: SplatArray::LogScales, expected: 3, actual: 4 })
    );
    assert_eq!(
        check_splat_lengths(3, 3, 3, 0, 3),
        Err(SplatStoreError::LengthMismatch { array: SplatArray::ShCoeffs, expected: 3, actual: 0 })
    );
    assert_eq!(
        check_splat_lengths(3, 3, 3, 3, 1),
        Err(SplatStoreError::LengthMismatch { array: SplatArray::RawOpacities, expected: 3, actual: 1 })
    );
}

#[test]
fn subsets_and_duplicates() {
    assert_eq!(subset_indices(&[4, 0, 9, 4, 2], 5), vec![4, 0, 4, 2]);
    let mut s = SplatSelectionState::new(5);
    s.select(&[1, 4]);
    assert_eq!(selected_splat_indices(&s.states, 5), vec![1, 4]);
    assert_eq!(selected_splat_indices(&s.states, 3), vec![1]);
}

#[test]
fn buffer_plan() {
    assert_eq!(plan_upload(10, 8), UploadAction::Reallocate);
    assert_eq!(plan_upload(8, 8), UploadAction::WriteInPlace);
    let std = SplatBufferSizes::for_capacity(10, false);
    assert_eq!(std.sh, 1800);
    assert_eq!(std.rotations, 160);
    assert_eq!(std.sh_packed, 0);
    let packed = SplatBufferSizes::for_capacity(10, true);
    assert_eq!(packed.sh_packed, 640);
    assert_eq!(packed.rotation_scales_packed, 160);
    assert_eq!(packed.colors_packed, 80);
    assert_eq!(packed.colors, 12);
    assert_eq!(packed.positions, 120);
    assert!(PackModeConfig::default().enabled);
    assert!(!PackModeConfig::disabled().enabled);
}

#[test]
fn selection_upload_widens_states() {
    let mut s = SplatSelectionState::new(3);
    s.select(&[2]);
    let e = extract_selection_state(&s, false).unwrap();
    assert_eq!(e.states, vec![0u32, 0, 1]);
    s.dirty = false;
    assert!(extract_selection_state(&s, false).is_none());
    assert!(extract_selection_state(&s, true).is_some());
}

#[test]
fn preview_upload_checks() {
    let mut t = TrainingPreviewRenderTarget::default();
    assert_eq!(t.accept_upload(16, 2, 2, 1), Err(PreviewUploadError::NoTexture));
    assert!(!t.ensure_texture(0, 2));
    assert!(t.ensure_texture(2, 2));
    assert!(!t.ensure_texture(2, 2));
    assert_eq!(t.accept_upload(16, 2, 2, 0), Err(PreviewUploadError::SameGeneration));
    assert_eq!(t.accept_upload(16, 3, 2, 1), Err(PreviewUploadError::SizeMismatch));
    assert_eq!(t.accept_upload(15, 2, 2, 1), Err(PreviewUploadError::ByteCountMismatch));
    assert_eq!(t.accept_upload(16, 2, 2, 1), Ok(()));
    assert_eq!(t.last_generation, 1);
    assert!(t.is_ready());
}

#[test]
fn frame_culls_then_sorts_back_to_front_order() {
    let visible = vec![true, false, true, true, false, true];
    let keys = vec![30, 99, 10, 20, 99, 10];
    let mut depth_keys = vec![0u32; 8];
    let mut visible_indices = vec![0u32; 8];
    let mut indirect = DrawIndirectArgs::for_points(6);
    let mut buffers = create_radix_sort_buffers(8);
    cull_and_sort(&visible, &keys, &mut depth_keys, &mut visible_indices, &mut indirect, &mut buffers);
    assert_eq!(indirect.instance_count, 4);
    assert_eq!(&depth_keys[..4], &[10, 10, 20, 30]);
    assert_eq!(&visible_indices[..4], &[2, 5, 3, 0]);
}

#[test]
fn workgroups_cover_points() {
    assert_eq!(cull_workgroups(0), 0);
    assert_eq!(cull_workgroups(256), 1);
    assert_eq!(cull_workgroups(257), 2);
    assert_eq!(cull_workgroups(u32::MAX), 16777216);
}

#[test]
fn frame_plans() {
    let config = TemporalCoherenceConfig::training_mode();
    let mut cache = TemporalCoherenceCache::default();
    let mut rc = GaussianSplatRenderCache::default();
    assert_eq!(plan_frame(&cache, &config, true, &rc, 0, 600), FrameAction::Nothing);
    should_skip_sorting(&mut cache, &config, false);
    assert_eq!(plan_frame(&cache, &config, true, &rc, 800, 600), FrameAction::Render { cull_and_sort: true });
    rc.prepare(800, 600, false, 0);
    rc.prepare(800, 600, false, 1);
    should_skip_sorting(&mut cache, &config, false);
    assert_eq!(plan_frame(&cache, &config, true, &rc, 800, 600), FrameAction::BlitCache);
    assert_eq!(plan_frame(&cache, &config, false, &rc, 800, 600), FrameAction::Render { cull_and_sort: false });
    cache.data_updated_this_frame = true;
    assert_eq!(plan_frame(&cache, &config, true, &rc, 800, 600), FrameAction::Render { cull_and_sort: true });
}
