//! Mixer decisions on exact synthetic signals, and the selection of audible
//! clips from a project.

use ue_audio::items::{
    collect_specs, load_items, AssetModel, ClipModel, MediaSource, ProjectModel, SequenceModel,
    TrackModel,
};
use ue_audio::mixer::{fill, mix_plan, MixTiming};

const SEC: i64 = 1_000_000;

/// A 16-bit sample read back as a float, as the WAV reader does.
fn sample(v: i16) -> f32 {
    v as f32 / 32768.0
}

/// Ramp signal: frame `i` holds `i * 16`.
fn ramp(i: i64) -> f32 {
    sample((i * 16) as i16)
}

/// Mixes one frame the way the player does: each contribution's source
/// sample scaled by the gain and its fade ratios, summed and clamped.
fn mix_left(items: &[MixTiming], gains: &[f32], signal: &dyn Fn(usize, i64) -> f32, pos: i64) -> f32 {
    let mut acc = 0.0f32;
    for c in mix_plan(items, pos) {
        let item = &items[c.index];
        let src = item.source_frame(c.rel);
        let mut g = gains[c.index];
        if let Some(r) = c.envelope.fade_in {
            g *= r.num as f32 / r.den as f32;
        }
        if let Some(r) = c.envelope.fade_out {
            g *= r.num as f32 / r.den as f32;
        }
        acc += signal(c.index, src) * g;
    }
    acc.clamp(-1.0, 1.0)
}

fn dc_item(timeline_start: i64, len: i64) -> MixTiming {
    MixTiming { timeline_start, src_in: 0, len, fade_in: 0, fade_out: 0 }
}

// ---------------------------------------------------------------------------
// Mixer
// ---------------------------------------------------------------------------

#[test]
fn overlapping_items_sum_and_clamp() {
    let items = [dc_item(0, 100), dc_item(0, 100)];
    let gains = [1.0f32, 1.0];
    let dc04 = |_: usize, _: i64| sample(13107);
    let l = mix_left(&items, &gains, &dc04, 10);
    assert!((l - 0.8).abs() < 1e-3, "suma 0.4+0.4");

    let dc09 = |_: usize, _: i64| sample(29491);
    let l = mix_left(&items, &gains, &dc09, 10);
    assert_eq!(l, 1.0, "clamp a 1.0");
}

#[test]
fn timeline_offset_and_src_in_mapping() {
    let item = MixTiming { timeline_start: 500, src_in: 100, len: 300, fade_in: 0, fade_out: 0 };
    let items = [item];
    let gains = [1.0f32];
    let signal = |_: usize, i: i64| ramp(i);
    // before the clip: silence
    assert_eq!(mix_left(&items, &gains, &signal, 499), 0.0);
    let expect = |src: i64| (src * 16) as f32 / 32768.0;
    assert!((mix_left(&items, &gains, &signal, 500) - expect(100)).abs() < 1e-6);
    // last frame of the clip: timeline 799 -> source 399; 800 is silence
    assert!((mix_left(&items, &gains, &signal, 799) - expect(399)).abs() < 1e-6);
    assert_eq!(mix_left(&items, &gains, &signal, 800), 0.0);
}

#[test]
fn fades_ramp_linearly() {
    let item = MixTiming { timeline_start: 0, src_in: 0, len: 1000, fade_in: 200, fade_out: 200 };
    let items = [item];
    let gains = [1.0f32];
    let full = |_: usize, _: i64| sample(32767);
    assert_eq!(mix_left(&items, &gains, &full, 0), 0.0, "inicio del fade-in");
    let mid_in = mix_left(&items, &gains, &full, 100);
    assert!((mid_in - 0.5).abs() < 0.01, "mitad del fade-in ≈ 0.5, fue {mid_in}");
    let plateau = mix_left(&items, &gains, &full, 500);
    assert!(plateau > 0.99, "meseta a ganancia completa");
    let mid_out = mix_left(&items, &gains, &full, 900);
    assert!((mid_out - 0.5).abs() < 0.01, "mitad del fade-out ≈ 0.5, fue {mid_out}");
}

#[test]
fn fill_is_contiguous() {
    let items = [dc_item(0, 1000)];
    let gains = [1.0f32];
    let signal = |_: usize, i: i64| ramp(i);
    let mut buf = vec![0f32; 20]; // 10 stereo frames
    fill(&mut buf, 100, |p: i64| {
        let l = mix_left(&items, &gains, &signal, p);
        (l, l)
    });
    for k in 0..10i64 {
        let expect = ((100 + k) * 16) as f32 / 32768.0;
        assert!((buf[(k * 2) as usize] - expect).abs() < 1e-6);
    }
}

// ---------------------------------------------------------------------------
// Collection from the project
// ---------------------------------------------------------------------------

fn media_clip(asset_id: u128, src_in: i64, src_out: i64, start: i64) -> ClipModel {
    ClipModel {
        start,
        duration: src_out - src_in,
        audio_muted: false,
        fade_in_us: 0,
        fade_out_us: 0,
        media: Some(MediaSource { asset_id, src_in, src_out }),
    }
}

fn track(clips: Vec<ClipModel>) -> TrackModel {
    TrackModel { muted: false, solo: false, clips }
}

#[test]
fn collect_respects_mute_solo_and_video_audio() {
    let seq_id: u128 = 7;
    let (m, va, vs): (u128, u128, u128) = (101, 102, 103);
    let assets = vec![
        AssetModel { id: m, audio_channels: 2 },
        AssetModel { id: va, audio_channels: 2 },
        AssetModel { id: vs, audio_channels: 0 },
    ];
    let video = track(vec![media_clip(va, 0, 5 * SEC, 0), media_clip(vs, 0, 5 * SEC, 6 * SEC)]);
    let audio = track(vec![media_clip(m, 0, 5 * SEC, 0)]);
    let mut p = ProjectModel {
        sequences: vec![SequenceModel { id: seq_id, tracks: vec![video, audio] }],
        assets,
    };
    let atrack = 1;

    // both clips with audio are collected; the silent video is not
    let specs = collect_specs(&p, seq_id);
    assert_eq!(specs.len(), 2);

    // muting the audio track leaves only the video's clip
    p.sequences[0].tracks[atrack].muted = true;
    let specs = collect_specs(&p, seq_id);
    assert_eq!(specs.len(), 1);
    assert_eq!(specs[0].asset_id, va);

    // solo on the (unmuted) audio track: only the music
    p.sequences[0].tracks[atrack].muted = false;
    p.sequences[0].tracks[atrack].solo = true;
    let specs = collect_specs(&p, seq_id);
    assert_eq!(specs.len(), 1);
    assert_eq!(specs[0].asset_id, m);
}

#[test]
fn load_items_skips_missing_conform() {
    let seq_id: u128 = 1;
    let mid: u128 = 55;
    let p = ProjectModel {
        sequences: vec![SequenceModel {
            id: seq_id,
            tracks: vec![track(vec![media_clip(mid, 0, 5 * SEC, 0)])],
        }],
        assets: vec![AssetModel { id: mid, audio_channels: 2 }],
    };
    let specs = collect_specs(&p, seq_id);
    // no conformed media is available for any spec
    let loaded: Vec<Option<u8>> = specs.iter().map(|_| None).collect();
    let ids: Vec<u128> = specs.iter().map(|s| s.asset_id).collect();
    let (items, skipped) = load_items(&p, &ids, loaded);
    assert!(items.is_empty());
    assert_eq!(skipped, vec![mid]);
}
