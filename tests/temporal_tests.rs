use rfs_gsplat_render::temporal_coherence::{
    clamp_viewport, should_skip_render, should_skip_sorting, update_temporal_coherence_cache,
    CachePreparation, GaussianSplatRenderCache, SortDecision, TemporalCoherenceCache,
    TemporalCoherenceConfig, TemporalCoherenceStats,
};

#[test]
fn skip_sort_threshold_scenario() {
    let config = TemporalCoherenceConfig::default();
    let mut cache = TemporalCoherenceCache::default();
    // Frame 0: first frame always sorts.
    let d0 = should_skip_sorting(&mut cache, &config, false);
    assert_eq!(d0, SortDecision { skip_sort: false, record_pose: true });
    // Frame 1: camera moved 0.005 < 0.01, below the threshold.
    let d1 = should_skip_sorting(&mut cache, &config, false);
    assert!(d1.skip_sort);
    assert_eq!(cache.skip_count, 1);
    // Frame 2: camera moved 0.02 past the threshold.
    let d2 = should_skip_sorting(&mut cache, &config, true);
    assert!(!d2.skip_sort);
    assert!(d2.record_pose);
    assert_eq!(cache.skip_count, 0);
}

#[test]
fn data_update_forces_sort_and_render() {
    let config = TemporalCoherenceConfig::training_mode();
    let mut cache = TemporalCoherenceCache::default();
    should_skip_sorting(&mut cache, &config, false);
    should_skip_sorting(&mut cache, &config, false);
    assert!(cache.sorting_skipped);
    assert!(should_skip_render(&cache, &config, true, true));
    cache.data_updated_this_frame = true;
    assert!(!should_skip_render(&cache, &config, true, true));
    let d = should_skip_sorting(&mut cache, &config, false);
    assert!(!d.skip_sort);
    assert!(!should_skip_render(&cache, &config, true, true));
}

#[test]
fn disabled_never_skips() {
    let config = TemporalCoherenceConfig::disabled();
    let mut cache = TemporalCoherenceCache::default();
    for _ in 0..10 {
        let d = should_skip_sorting(&mut cache, &config, false);
        assert!(!d.skip_sort);
    }
    assert_eq!(cache.frame_count, 10);
}

#[test]
fn skip_count_is_capped() {
    let config = TemporalCoherenceConfig { enabled: true, max_skip_frames: 3, force_resort_interval: 0 };
    let mut cache = TemporalCoherenceCache::default();
    should_skip_sorting(&mut cache, &config, false);
    let mut skipped = Vec::new();
    for _ in 0..8 {
        skipped.push(should_skip_sorting(&mut cache, &config, false).skip_sort);
        assert!(cache.skip_count <= 3);
    }
    assert_eq!(skipped, vec![true, true, true, false, true, true, true, false]);
}

#[test]
fn forced_resort_interval() {
    let config = TemporalCoherenceConfig { enabled: true, max_skip_frames: 100, force_resort_interval: 4 };
    let mut cache = TemporalCoherenceCache::default();
    let mut skipped = Vec::new();
    for _ in 0..6 {
        skipped.push(should_skip_sorting(&mut cache, &config, false).skip_sort);
    }
    assert_eq!(skipped, vec![false, true, true, false, true, true]);
}

#[test]
fn frame_update_counts_stats() {
    let config = TemporalCoherenceConfig::aggressive();
    let mut cache = TemporalCoherenceCache::default();
    let mut stats = TemporalCoherenceStats::default();
    assert_eq!(update_temporal_coherence_cache(&mut cache, &mut stats, &config, false, false, None), None);
    assert_eq!(stats.total_frames, 0);
    update_temporal_coherence_cache(&mut cache, &mut stats, &config, false, false, Some(false));
    update_temporal_coherence_cache(&mut cache, &mut stats, &config, false, false, Some(false));
    update_temporal_coherence_cache(&mut cache, &mut stats, &config, false, false, Some(false));
    assert_eq!(stats.total_frames, 3);
    assert_eq!(stats.skipped_frames, 2);
    assert_eq!(stats.max_skip_streak, 2);
    let d = update_temporal_coherence_cache(&mut cache, &mut stats, &config, false, true, Some(false));
    assert_eq!(d, Some(SortDecision { skip_sort: false, record_pose: true }));
    assert!(cache.data_updated_this_frame);
    assert_eq!(stats.current_skip_streak, 0);
}

#[test]
fn presets() {
    assert_eq!(TemporalCoherenceConfig::conservative().max_skip_frames, 60);
    assert_eq!(TemporalCoherenceConfig::default().max_skip_frames, 300);
    assert_eq!(TemporalCoherenceConfig::training_mode().max_skip_frames, 600);
    assert_eq!(TemporalCoherenceConfig::aggressive().max_skip_frames, 1000);
    assert!(!TemporalCoherenceConfig::disabled().enabled);
}

#[test]
fn cache_validity_on_resize() {
    let mut rc = GaussianSplatRenderCache::default();
    assert_eq!(rc.prepare(800, 600, false, 0), CachePreparation::Render { recreate: true });
    assert!(!rc.can_use());
    assert_eq!(rc.prepare(800, 600, false, 1), CachePreparation::Render { recreate: false });
    assert!(rc.can_use());
    assert_eq!(rc.prepare(801, 600, false, 2), CachePreparation::Render { recreate: true });
    assert!(!rc.can_use());
    rc.prepare(801, 600, false, 3);
    assert!(rc.can_use());
    rc.prepare(801, 600, true, 4);
    assert!(!rc.can_use());
    assert_eq!(rc.prepare(0, 600, false, 5), CachePreparation::Skip);
}

#[test]
fn viewport_is_clamped_to_target() {
    assert_eq!(clamp_viewport(100, 50, 800, 600, 850, 700), (750, 600));
    assert_eq!(clamp_viewport(900, 0, 800, 600, 850, 700), (0, 600));
}
