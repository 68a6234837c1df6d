//! Exact values of the selection of audible clips and of the loading
//! partition, and their laws on concrete inputs.

use ue_audio::items::{
    asset_index, collect_specs, load_items, sequence_index, AssetModel, ClipModel, ClipSpec,
    MediaSource, ProjectModel, SequenceModel, TrackModel,
};

fn clip(asset_id: u128, src_in: i64, src_out: i64, start: i64) -> ClipModel {
    ClipModel {
        start,
        duration: src_out - src_in,
        audio_muted: false,
        fade_in_us: 10,
        fade_out_us: 20,
        media: Some(MediaSource { asset_id, src_in, src_out }),
    }
}

fn title(start: i64) -> ClipModel {
    ClipModel { start, duration: 1000, audio_muted: false, fade_in_us: 0, fade_out_us: 0, media: None }
}

fn project(tracks: Vec<TrackModel>, assets: Vec<AssetModel>) -> ProjectModel {
    ProjectModel { sequences: vec![SequenceModel { id: 9, tracks }], assets }
}

fn tr(muted: bool, solo: bool, clips: Vec<ClipModel>) -> TrackModel {
    TrackModel { muted, solo, clips }
}

#[test]
fn collect_copies_the_clip_timing() {
    let p = project(
        vec![tr(false, false, vec![clip(1, 300, 900, 5000)])],
        vec![AssetModel { id: 1, audio_channels: 1 }],
    );
    assert_eq!(
        collect_specs(&p, 9),
        vec![ClipSpec {
            track: 0,
            clip: 0,
            asset_id: 1,
            timeline_start_us: 5000,
            src_in_us: 300,
            src_out_us: 900,
            duration_us: 600,
            fade_in_us: 10,
            fade_out_us: 20,
        }]
    );
}

#[test]
fn collect_skips_muted_clips_titles_and_unknown_assets() {
    let mut muted = clip(1, 0, 10, 0);
    muted.audio_muted = true;
    let p = project(
        vec![tr(
            false,
            false,
            vec![muted, title(10), clip(77, 0, 10, 20), clip(2, 0, 10, 30), clip(1, 0, 10, 40)],
        )],
        vec![AssetModel { id: 1, audio_channels: 2 }, AssetModel { id: 2, audio_channels: 0 }],
    );
    let specs = collect_specs(&p, 9);
    assert_eq!(specs.len(), 1);
    assert_eq!((specs[0].track, specs[0].clip, specs[0].timeline_start_us), (0, 4, 40));
}

#[test]
fn collect_orders_by_track_then_clip() {
    let assets = vec![AssetModel { id: 1, audio_channels: 2 }];
    let p = project(
        vec![
            tr(false, false, vec![clip(1, 0, 10, 100), clip(1, 0, 10, 0)]),
            tr(true, false, vec![clip(1, 0, 10, 0)]),
            tr(false, false, vec![clip(1, 0, 10, 50)]),
        ],
        assets,
    );
    let specs = collect_specs(&p, 9);
    let at: Vec<(usize, usize)> = specs.iter().map(|s| (s.track, s.clip)).collect();
    assert_eq!(at, vec![(0, 0), (0, 1), (2, 0)]);
}

#[test]
fn collect_with_several_solos_keeps_every_soloed_unmuted_track() {
    let assets = vec![AssetModel { id: 1, audio_channels: 2 }];
    let p = project(
        vec![
            tr(false, true, vec![clip(1, 0, 10, 0)]),
            tr(false, false, vec![clip(1, 0, 10, 0)]),
            tr(true, true, vec![clip(1, 0, 10, 0)]),
            tr(false, true, vec![clip(1, 0, 10, 0)]),
        ],
        assets,
    );
    let at: Vec<usize> = collect_specs(&p, 9).iter().map(|s| s.track).collect();
    assert_eq!(at, vec![0, 3]);
}

#[test]
fn collect_from_unknown_sequence_is_empty() {
    let p = project(
        vec![tr(false, false, vec![clip(1, 0, 10, 0)])],
        vec![AssetModel { id: 1, audio_channels: 2 }],
    );
    assert!(collect_specs(&p, 8).is_empty());
    assert_eq!(sequence_index(&p, 8), None);
    assert_eq!(sequence_index(&p, 9), Some(0));
}

#[test]
fn lookups_find_the_first_entry_with_an_id() {
    let p = ProjectModel {
        sequences: vec![
            SequenceModel { id: 3, tracks: vec![] },
            SequenceModel { id: 4, tracks: vec![tr(false, false, vec![clip(1, 0, 10, 0)])] },
            SequenceModel { id: 4, tracks: vec![] },
        ],
        assets: vec![
            AssetModel { id: 5, audio_channels: 0 },
            AssetModel { id: 1, audio_channels: 0 },
            AssetModel { id: 1, audio_channels: 2 },
        ],
    };
    assert_eq!(sequence_index(&p, 4), Some(1));
    assert_eq!(asset_index(&p, 1), Some(1));
    assert_eq!(asset_index(&p, 6), None);
    // the first asset with id 1 has no audio, so the clip is not heard
    assert!(collect_specs(&p, 4).is_empty());
}

#[test]
fn load_items_partitions_in_order() {
    let p = project(
        vec![],
        vec![AssetModel { id: 1, audio_channels: 2 }, AssetModel { id: 2, audio_channels: 2 }],
    );
    let ids: Vec<u128> = vec![1, 3, 2, 1];
    // the clip of unknown asset 3 is skipped even though something loaded
    let loaded = vec![Some("a"), Some("b"), None, Some("d")];
    let (items, skipped) = load_items(&p, &ids, loaded);
    assert_eq!(items, vec!["a", "d"]);
    assert_eq!(skipped, vec![3, 2]);
    assert_eq!(items.len() + skipped.len(), ids.len());

    let (items, skipped) = load_items::<u8>(&p, &[], vec![]);
    assert!(items.is_empty() && skipped.is_empty());
}
