//! Which clips of a sequence sound, and which of them could be loaded for
//! the mixer.
use vstd::prelude::*;

verus! {

/// The media a clip plays: an asset and the span `[src_in, src_out)` of it,
/// in microseconds.
#[derive(Clone, Copy, Debug, PartialEq, Eq)]
pub struct MediaSource {
    pub asset_id: u128,
    pub src_in: i64,
    pub src_out: i64,
}

/// What the selection of audible clips reads of a clip (times in
/// microseconds).
#[derive(Clone, Copy, Debug, PartialEq, Eq)]
pub struct ClipModel {
    /// Position on the timeline.
    pub start: i64,
    /// Duration on the timeline.
    pub duration: i64,
    /// Whether the clip's audio is muted.
    pub audio_muted: bool,
    pub fade_in_us: i64,
    pub fade_out_us: i64,
    /// The media the clip plays, when it plays one (titles, colours and the
    /// like play none).
    pub media: Option<MediaSource>,
}

/// A track of a sequence: its mute and solo switches and its clips in order.
#[derive(Clone, Debug, PartialEq, Eq)]
pub struct TrackModel {
    pub muted: bool,
    pub solo: bool,
    pub clips: Vec<ClipModel>,
}

/// A sequence: its id and its tracks in order.
#[derive(Clone, Debug, PartialEq, Eq)]
pub struct SequenceModel {
    pub id: u128,
    pub tracks: Vec<TrackModel>,
}

/// What the selection reads of a media asset: its id and how many audio
/// channels its probe found.
#[derive(Clone, Copy, Debug, PartialEq, Eq)]
pub struct AssetModel {
    pub id: u128,
    pub audio_channels: u32,
}

/// A project: its sequences and its assets. A lookup by id finds the first
/// entry with that id.
#[derive(Clone, Debug, PartialEq, Eq)]
pub struct ProjectModel {
    pub sequences: Vec<SequenceModel>,
    pub assets: Vec<AssetModel>,
}

/// `i` is the first position of `assets` whose id is `id`.
pub open spec fn is_first_asset(assets: Seq<AssetModel>, id: u128, i: int) -> bool {
    &&& 0 <= i < assets.len()
    &&& assets[i].id == id
    &&& forall|j: int| 0 <= j < i ==> assets[j].id != id
}

/// The position of the first asset with id `id`, if any.
pub open spec fn spec_asset_index(assets: Seq<AssetModel>, id: u128) -> Option<int> {
    if exists|i: int| is_first_asset(assets, id, i) {
        Some(choose|i: int| is_first_asset(assets, id, i))
    } else {
        None
    }
}

/// `i` is the first position of `sequences` whose id is `id`.
pub open spec fn is_first_sequence(sequences: Seq<SequenceModel>, id: u128, i: int) -> bool {
    &&& 0 <= i < sequences.len()
    &&& sequences[i].id == id
    &&& forall|j: int| 0 <= j < i ==> sequences[j].id != id
}

/// The position of the first sequence with id `id`, if any.
pub open spec fn spec_sequence_index(sequences: Seq<SequenceModel>, id: u128) -> Option<int> {
    if exists|i: int| is_first_sequence(sequences, id, i) {
        Some(choose|i: int| is_first_sequence(sequences, id, i))
    } else {
        None
    }
}

proof fn lemma_first_asset_unique(assets: Seq<AssetModel>, id: u128, i: int)
    requires
        is_first_asset(assets, id, i),
    ensures
        spec_asset_index(assets, id) == Some(i),
{
    let k: int = choose|k: int| is_first_asset(assets, id, k);
    if k < i {
        assert(assets[k].id != id);
    } else if i < k {
        assert(assets[i].id != id);
    }
}

proof fn lemma_first_sequence_unique(sequences: Seq<SequenceModel>, id: u128, i: int)
    requires
        is_first_sequence(sequences, id, i),
    ensures
        spec_sequence_index(sequences, id) == Some(i),
{
    let k: int = choose|k: int| is_first_sequence(sequences, id, k);
    if k < i {
        assert(sequences[k].id != id);
    } else if i < k {
        assert(sequences[i].id != id);
    }
}

/// The position in `project.assets` of the first asset with id `id`, or
/// `None` when no asset has it.
pub fn asset_index(project: &ProjectModel, id: u128) -> (r: Option<usize>)
    ensures
        match r {
            Some(i) => spec_asset_index(project.assets@, id) == Some(i as int),
            None => spec_asset_index(project.assets@, id) is None,
        },
{
    let n: usize = project.assets.len();
    for i in 0..n
        invariant
            n == project.assets@.len(),
            forall|j: int| 0 <= j < i ==> project.assets@[j].id != id,
    {
        if project.assets[i].id == id {
            proof {
                lemma_first_asset_unique(project.assets@, id, i as int);
            }
            return Some(i);
        }
    }
    None
}

/// The position in `project.sequences` of the first sequence with id `id`,
/// or `None` when no sequence has it.
pub fn sequence_index(project: &ProjectModel, id: u128) -> (r: Option<usize>)
    ensures
        match r {
            Some(i) => spec_sequence_index(project.sequences@, id) == Some(i as int),
            None => spec_sequence_index(project.sequences@, id) is None,
        },
{
    let n: usize = project.sequences.len();
    for i in 0..n
        invariant
            n == project.sequences@.len(),
            forall|j: int| 0 <= j < i ==> project.sequences@[j].id != id,
    {
        if project.sequences[i].id == id {
            proof {
                lemma_first_sequence_unique(project.sequences@, id, i as int);
            }
            return Some(i);
        }
    }
    None
}


/// A clip that sounds, with what the mixer needs of it: the positions of its
/// track in the sequence and of the clip in the track, and its timing in
/// microseconds.
#[derive(Clone, Copy, Debug, PartialEq, Eq)]
pub struct ClipSpec {
    pub track: usize,
    pub clip: usize,
    pub asset_id: u128,
    pub timeline_start_us: i64,
    pub src_in_us: i64,
    pub src_out_us: i64,
    pub duration_us: i64,
    pub fade_in_us: i64,
    pub fade_out_us: i64,
}

/// Some track of `tracks` is soloed.
pub open spec fn any_solo(tracks: Seq<TrackModel>) -> bool {
    exists|t: int| 0 <= t < tracks.len() && (#[trigger] tracks[t]).solo
}

/// Track `t` is heard: it is not muted, and it is soloed when any track is.
pub open spec fn track_audible(tracks: Seq<TrackModel>, t: int) -> bool {
    !tracks[t].muted && (!any_solo(tracks) || tracks[t].solo)
}

/// The clip is heard: its audio is not muted, it plays media, the media's
/// asset exists and has at least one audio channel.
pub open spec fn clip_audible(assets: Seq<AssetModel>, clip: ClipModel) -> bool {
    &&& !clip.audio_muted
    &&& clip.media matches Some(m)
    &&& spec_asset_index(assets, m.asset_id) matches Some(a)
    &&& assets[a].audio_channels != 0
}

/// The spec of clip `c` of track `t`.
pub open spec fn spec_clip_spec(t: int, c: int, clip: ClipModel) -> ClipSpec {
    let m = clip.media.unwrap();
    ClipSpec {
        track: t as usize,
        clip: c as usize,
        asset_id: m.asset_id,
        timeline_start_us: clip.start,
        src_in_us: m.src_in,
        src_out_us: m.src_out,
        duration_us: clip.duration,
        fade_in_us: clip.fade_in_us,
        fade_out_us: clip.fade_out_us,
    }
}

/// The specs of the audible clips among the first `n` clips of track `t`,
/// in clip order.
pub open spec fn clip_specs(assets: Seq<AssetModel>, t: int, clips: Seq<ClipModel>, n: int) -> Seq<
    ClipSpec,
>
    decreases n,
{
    if n <= 0 {
        seq![]
    } else {
        let prev = clip_specs(assets, t, clips, n - 1);
        if clip_audible(assets, clips[n - 1]) {
            prev.push(spec_clip_spec(t, n - 1, clips[n - 1]))
        } else {
            prev
        }
    }
}

/// The specs of the audible clips on the first `n` tracks, track by track.
pub open spec fn track_specs(assets: Seq<AssetModel>, tracks: Seq<TrackModel>, n: int) -> Seq<
    ClipSpec,
>
    decreases n,
{
    if n <= 0 {
        seq![]
    } else {
        let prev = track_specs(assets, tracks, n - 1);
        if track_audible(tracks, n - 1) {
            prev + clip_specs(assets, n - 1, tracks[n - 1].clips@, tracks[n - 1].clips@.len() as int)
        } else {
            prev
        }
    }
}

/// The specs of the audible clips of sequence `sequence_id`: empty when the
/// project has no such sequence.
pub open spec fn spec_collect_specs(project: ProjectModel, sequence_id: u128) -> Seq<ClipSpec> {
    match spec_sequence_index(project.sequences@, sequence_id) {
        Some(s) => {
            let tracks = project.sequences@[s].tracks@;
            track_specs(project.assets@, tracks, tracks.len() as int)
        },
        None => seq![],
    }
}

/// Whether some track of `tracks` is soloed.
fn has_solo(tracks: &Vec<TrackModel>) -> (r: bool)
    ensures
        r == any_solo(tracks@),
{
    let n: usize = tracks.len();
    for i in 0..n
        invariant
            n == tracks@.len(),
            forall|j: int| 0 <= j < i ==> !(#[trigger] tracks@[j]).solo,
    {
        if tracks[i].solo {
            return true;
        }
    }
    false
}

/// Whether the clip is heard (see `clip_audible`).
fn is_clip_audible(project: &ProjectModel, clip: &ClipModel) -> (r: bool)
    ensures
        r == clip_audible(project.assets@, *clip),
{
    if clip.audio_muted {
        return false;
    }
    match clip.media {
        None => false,
        Some(m) => match asset_index(project, m.asset_id) {
            None => false,
            Some(a) => project.assets[a].audio_channels != 0,
        },
    }
}

/// Collects the audible clips of sequence `sequence_id`, track by track and
/// clip by clip in order: a clip is collected when its track is not muted
/// and, if any track of the sequence is soloed, is soloed itself, and when
/// its audio is not muted and it plays media whose asset has audio channels.
/// An unknown sequence gives no clips.
pub fn collect_specs(project: &ProjectModel, sequence_id: u128) -> (specs: Vec<ClipSpec>)
    ensures
        specs@ == spec_collect_specs(*project, sequence_id),
{
    let s: usize = match sequence_index(project, sequence_id) {
        Some(s) => s,
        None => return Vec::new(),
    };
    let tracks = &project.sequences[s].tracks;
    let solo = has_solo(tracks);
    let mut specs: Vec<ClipSpec> = Vec::new();
    let nt: usize = tracks.len();
    for t in 0..nt
        invariant
            nt == tracks@.len(),
            solo == any_solo(tracks@),
            specs@ == track_specs(project.assets@, tracks@, t as int),
    {
        let track = &tracks[t];
        if !(track.muted || (solo && !track.solo)) {
            let nc: usize = track.clips.len();
            let ghost before = specs@;
            for c in 0..nc
                invariant
                    nc == track.clips@.len(),
                    specs@ == before + clip_specs(project.assets@, t as int, track.clips@, c as int),
            {
                let clip = &track.clips[c];
                if is_clip_audible(project, clip) {
                    let m = clip.media.unwrap();
                    let spec = ClipSpec {
                        track: t,
                        clip: c,
                        asset_id: m.asset_id,
                        timeline_start_us: clip.start,
                        src_in_us: m.src_in,
                        src_out_us: m.src_out,
                        duration_us: clip.duration,
                        fade_in_us: clip.fade_in_us,
                        fade_out_us: clip.fade_out_us,
                    };
                    specs.push(spec);
                    assert(specs@ =~= before + clip_specs(
                        project.assets@,
                        t as int,
                        track.clips@,
                        c + 1,
                    ));
                }
            }
        }
    }
    specs
}


/// Spec `i` can be loaded: its asset exists and its loading gave a value.
pub open spec fn spec_is_loaded<T>(
    assets: Seq<AssetModel>,
    asset_ids: Seq<u128>,
    loaded: Seq<Option<T>>,
    i: int,
) -> bool {
    spec_asset_index(assets, asset_ids[i]) is Some && loaded[i] is Some
}

/// The loaded items among the first `n` specs, in order.
pub open spec fn spec_loaded_items<T>(
    assets: Seq<AssetModel>,
    asset_ids: Seq<u128>,
    loaded: Seq<Option<T>>,
    n: int,
) -> Seq<T>
    decreases n,
{
    if n <= 0 {
        seq![]
    } else {
        let prev = spec_loaded_items(assets, asset_ids, loaded, n - 1);
        if spec_is_loaded(assets, asset_ids, loaded, n - 1) {
            prev.push(loaded[n - 1].unwrap())
        } else {
            prev
        }
    }
}

/// The asset ids of the specs among the first `n` that could not be loaded,
/// in order.
pub open spec fn spec_skipped<T>(
    assets: Seq<AssetModel>,
    asset_ids: Seq<u128>,
    loaded: Seq<Option<T>>,
    n: int,
) -> Seq<u128>
    decreases n,
{
    if n <= 0 {
        seq![]
    } else {
        let prev = spec_skipped(assets, asset_ids, loaded, n - 1);
        if spec_is_loaded(assets, asset_ids, loaded, n - 1) {
            prev
        } else {
            prev.push(asset_ids[n - 1])
        }
    }
}

/// Sorts the collected clips into the items that could be loaded and the
/// asset ids of those that could not. `asset_ids[i]` is the asset of the
/// `i`-th clip and `loaded[i]` what opening its conformed media gave; a clip
/// whose asset is not in the project is skipped whatever `loaded[i]` holds.
/// Both results keep the order of the clips.
pub fn load_items<T>(project: &ProjectModel, asset_ids: &[u128], loaded: Vec<Option<T>>) -> (r: (
    Vec<T>,
    Vec<u128>,
))
    requires
        asset_ids@.len() == loaded@.len(),
    ensures
        r.0@ == spec_loaded_items(project.assets@, asset_ids@, loaded@, asset_ids@.len() as int),
        r.1@ == spec_skipped(project.assets@, asset_ids@, loaded@, asset_ids@.len() as int),
{
    let mut items: Vec<T> = Vec::new();
    let mut skipped: Vec<u128> = Vec::new();
    let ghost all = loaded@;
    let n: usize = asset_ids.len();
    let mut i: usize = 0;
    for o in it: loaded
        invariant
            n == asset_ids@.len(),
            n == all.len(),
            it.seq() == all,
            i == it.index(),
            items@ == spec_loaded_items(project.assets@, asset_ids@, all, i as int),
            skipped@ == spec_skipped(project.assets@, asset_ids@, all, i as int),
    {
        let id: u128 = asset_ids[i];
        match asset_index(project, id) {
            Some(_) => match o {
                Some(x) => items.push(x),
                None => skipped.push(id),
            },
            None => skipped.push(id),
        }
        i = i + 1;
    }
    (items, skipped)
}


/// `a` comes strictly before `b` in track-then-clip order.
pub open spec fn precedes(a: ClipSpec, b: ClipSpec) -> bool {
    a.track < b.track || (a.track == b.track && a.clip < b.clip)
}

/// The specs gathered from one track are those of its audible clips, in
/// strictly increasing clip order, and every audible clip among the first
/// `n` is among them.
proof fn lemma_clip_specs(assets: Seq<AssetModel>, t: int, clips: Seq<ClipModel>, n: int)
    requires
        0 <= t <= usize::MAX,
        0 <= n <= clips.len() <= usize::MAX,
    ensures
        forall|k: int|
            #![trigger clip_specs(assets, t, clips, n)[k]]
            0 <= k < clip_specs(assets, t, clips, n).len() ==> {
                let r = clip_specs(assets, t, clips, n)[k];
                &&& r.track == t
                &&& r.clip < n
                &&& clip_audible(assets, clips[r.clip as int])
                &&& r == spec_clip_spec(t, r.clip as int, clips[r.clip as int])
            },
        forall|k1: int, k2: int|
            0 <= k1 < k2 < clip_specs(assets, t, clips, n).len() ==> clip_specs(
                assets,
                t,
                clips,
                n,
            )[k1].clip < clip_specs(assets, t, clips, n)[k2].clip,
        forall|c: int|
            0 <= c < n && clip_audible(assets, #[trigger] clips[c]) ==> exists|k: int|
                0 <= k < clip_specs(assets, t, clips, n).len() && (#[trigger] clip_specs(
                    assets,
                    t,
                    clips,
                    n,
                )[k]).clip == c,
    decreases n,
{
    if n > 0 {
        lemma_clip_specs(assets, t, clips, n - 1);
        let prev = clip_specs(assets, t, clips, n - 1);
        let cur = clip_specs(assets, t, clips, n);
        if clip_audible(assets, clips[n - 1]) {
            assert forall|k: int| 0 <= k < prev.len() implies cur[k] == prev[k] by {}
            assert(cur[prev.len() as int].clip == n - 1);
            assert forall|c: int|
                0 <= c < n && clip_audible(assets, #[trigger] clips[c]) implies exists|k: int|
                0 <= k < cur.len() && (#[trigger] cur[k]).clip == c by {
                if c == n - 1 {
                    assert(cur[prev.len() as int].clip == c);
                } else {
                    let k: int = choose|k: int| 0 <= k < prev.len() && (#[trigger] prev[k]).clip == c;
                    assert(cur[k].clip == c);
                }
            }
        }
    }
}

/// The specs gathered from the first `n` tracks are those of audible clips
/// on audible tracks, in strictly increasing track-then-clip order, and
/// every audible clip of an audible track among them is gathered.
proof fn lemma_track_specs(assets: Seq<AssetModel>, tracks: Seq<TrackModel>, n: int)
    requires
        0 <= n <= tracks.len() <= usize::MAX,
        forall|t: int| 0 <= t < tracks.len() ==> (#[trigger] tracks[t]).clips@.len() <= usize::MAX,
    ensures
        forall|k: int|
            #![trigger track_specs(assets, tracks, n)[k]]
            0 <= k < track_specs(assets, tracks, n).len() ==> {
                let r = track_specs(assets, tracks, n)[k];
                &&& r.track < n
                &&& track_audible(tracks, r.track as int)
                &&& r.clip < tracks[r.track as int].clips@.len()
                &&& clip_audible(assets, tracks[r.track as int].clips@[r.clip as int])
                &&& r == spec_clip_spec(
                    r.track as int,
                    r.clip as int,
                    tracks[r.track as int].clips@[r.clip as int],
                )
            },
        forall|k1: int, k2: int|
            0 <= k1 < k2 < track_specs(assets, tracks, n).len() ==> precedes(
                track_specs(assets, tracks, n)[k1],
                track_specs(assets, tracks, n)[k2],
            ),
        forall|t: int, c: int|
            0 <= t < n && track_audible(tracks, t) && 0 <= c < tracks[t].clips@.len()
                && clip_audible(assets, #[trigger] tracks[t].clips@[c]) ==> exists|k: int|
                0 <= k < track_specs(assets, tracks, n).len() && (#[trigger] track_specs(
                    assets,
                    tracks,
                    n,
                )[k]).track == t && track_specs(assets, tracks, n)[k].clip == c,
    decreases n,
{
    if n > 0 {
        lemma_track_specs(assets, tracks, n - 1);
        let prev = track_specs(assets, tracks, n - 1);
        let cur = track_specs(assets, tracks, n);
        if track_audible(tracks, n - 1) {
            let clips = tracks[n - 1].clips@;
            lemma_clip_specs(assets, n - 1, clips, clips.len() as int);
            let mine = clip_specs(assets, n - 1, clips, clips.len() as int);
            assert(cur == prev + mine);
            assert forall|k: int| 0 <= k < prev.len() implies cur[k] == prev[k] by {}
            assert forall|k: int| prev.len() <= k < cur.len() implies cur[k] == mine[k
                - prev.len()] by {}
            assert forall|t: int, c: int|
                0 <= t < n && track_audible(tracks, t) && 0 <= c < tracks[t].clips@.len()
                    && clip_audible(assets, #[trigger] tracks[t].clips@[c]) implies exists|k: int|
                0 <= k < cur.len() && (#[trigger] cur[k]).track == t && cur[k].clip == c by {
                if t == n - 1 {
                    assert(clip_audible(assets, clips[c]));
                    let j: int = choose|j: int| 0 <= j < mine.len() && (#[trigger] mine[j]).clip == c;
                    assert(cur[prev.len() + j] == mine[j]);
                } else {
                    let k: int = choose|k: int|
                        0 <= k < prev.len() && (#[trigger] prev[k]).track == t && prev[k].clip == c;
                    assert(cur[k] == prev[k]);
                }
            }
        }
    }
}

/// The collected specs are exactly the audible clips of the sequence: each
/// one names an existing clip on an audible track (not muted, and soloed
/// whenever any track is soloed) that is itself audible (audio not muted,
/// plays media whose asset has audio channels) and copies that clip's
/// timing; they come in strictly increasing track-then-clip order, so none
/// twice; and every audible clip of an audible track is collected. An
/// unknown sequence gives nothing.
pub proof fn law_collect_exact(project: ProjectModel, sequence_id: u128)
    ensures
        spec_sequence_index(project.sequences@, sequence_id) is None ==> spec_collect_specs(
            project,
            sequence_id,
        ).len() == 0,
        spec_sequence_index(project.sequences@, sequence_id) matches Some(s) ==> {
            let tracks = project.sequences@[s].tracks@;
            let specs = spec_collect_specs(project, sequence_id);
            &&& forall|k: int|
                #![trigger specs[k]]
                0 <= k < specs.len() ==> {
                    &&& specs[k].track < tracks.len()
                    &&& track_audible(tracks, specs[k].track as int)
                    &&& specs[k].clip < tracks[specs[k].track as int].clips@.len()
                    &&& clip_audible(
                        project.assets@,
                        tracks[specs[k].track as int].clips@[specs[k].clip as int],
                    )
                    &&& specs[k] == spec_clip_spec(
                        specs[k].track as int,
                        specs[k].clip as int,
                        tracks[specs[k].track as int].clips@[specs[k].clip as int],
                    )
                }
            &&& forall|k1: int, k2: int|
                0 <= k1 < k2 < specs.len() ==> precedes(specs[k1], specs[k2])
            &&& forall|t: int, c: int|
                0 <= t < tracks.len() && track_audible(tracks, t) && 0 <= c
                    < tracks[t].clips@.len() && clip_audible(
                    project.assets@,
                    #[trigger] tracks[t].clips@[c],
                ) ==> exists|k: int|
                    0 <= k < specs.len() && (#[trigger] specs[k]).track == t && specs[k].clip == c
        },
{
    match spec_sequence_index(project.sequences@, sequence_id) {
        Some(s) => {
            let tracks = project.sequences@[s].tracks@;
            assert forall|t: int| 0 <= t < tracks.len() implies (#[trigger] tracks[t]).clips@.len()
                <= usize::MAX by {
                assert(tracks[t].clips.len() == tracks[t].clips@.len());
            }
            assert(project.sequences@[s].tracks.len() == tracks.len());
            lemma_track_specs(project.assets@, tracks, tracks.len() as int);
            assert(spec_collect_specs(project, sequence_id) == track_specs(
                project.assets@,
                tracks,
                tracks.len() as int,
            ));
        },
        None => {},
    }
}

/// Every spec is either loaded or skipped: the number of items plus the
/// number of skipped ids is the number of specs.
pub proof fn law_load_partition<T>(
    assets: Seq<AssetModel>,
    asset_ids: Seq<u128>,
    loaded: Seq<Option<T>>,
    n: int,
)
    requires
        0 <= n,
    ensures
        spec_loaded_items(assets, asset_ids, loaded, n).len() + spec_skipped(assets, asset_ids, loaded, n).len()
            == n,
    decreases n,
{
    if n > 0 {
        law_load_partition(assets, asset_ids, loaded, n - 1);
    }
}


/// Some asset with id `id` at or before position `a` means a first one
/// exists.
proof fn lemma_first_asset_exists(assets: Seq<AssetModel>, id: u128, a: int)
    requires
        0 <= a < assets.len(),
        assets[a].id == id,
    ensures
        spec_asset_index(assets, id) is Some,
    decreases a,
{
    if forall|j: int| 0 <= j < a ==> assets[j].id != id {
        lemma_first_asset_unique(assets, id, a);
    } else {
        let j: int = choose|j: int| 0 <= j < a && assets[j].id == id;
        lemma_first_asset_exists(assets, id, j);
    }
}

/// The lookup of an asset finds one exactly when some asset has the id, and
/// what it finds is the first position holding that id.
pub proof fn law_asset_lookup(assets: Seq<AssetModel>, id: u128)
    ensures
        spec_asset_index(assets, id) is Some <==> exists|a: int|
            0 <= a < assets.len() && (#[trigger] assets[a]).id == id,
        spec_asset_index(assets, id) matches Some(a) ==> 0 <= a < assets.len() && assets[a].id == id
            && forall|j: int| 0 <= j < a ==> assets[j].id != id,
{
    if exists|a: int| 0 <= a < assets.len() && (#[trigger] assets[a]).id == id {
        let a: int = choose|a: int| 0 <= a < assets.len() && (#[trigger] assets[a]).id == id;
        lemma_first_asset_exists(assets, id, a);
    }
}

/// A track is heard exactly when it is not muted and it is soloed or no
/// track of the sequence is; a clip is heard exactly when its audio is not
/// muted, it plays media, and the first asset with the media's id has at
/// least one audio channel (any number of channels from one up).
pub proof fn law_audible_exact(assets: Seq<AssetModel>, tracks: Seq<TrackModel>, t: int, clip: ClipModel)
    requires
        0 <= t < tracks.len(),
    ensures
        track_audible(tracks, t) <==> (!tracks[t].muted && (tracks[t].solo || forall|j: int|
            0 <= j < tracks.len() ==> !(#[trigger] tracks[j]).solo)),
        clip_audible(assets, clip) <==> {
            &&& !clip.audio_muted
            &&& clip.media is Some
            &&& exists|a: int|
                0 <= a < assets.len() && (#[trigger] assets[a]).id == clip.media.unwrap().asset_id
                    && (forall|j: int| 0 <= j < a ==> assets[j].id != clip.media.unwrap().asset_id)
                    && assets[a].audio_channels >= 1
        },
{
    if clip.media is Some {
        let id = clip.media.unwrap().asset_id;
        law_asset_lookup(assets, id);
        if exists|a: int|
            0 <= a < assets.len() && (#[trigger] assets[a]).id == id && (forall|j: int|
                0 <= j < a ==> assets[j].id != id) && assets[a].audio_channels >= 1 {
            let a: int = choose|a: int|
                0 <= a < assets.len() && (#[trigger] assets[a]).id == id && (forall|j: int|
                    0 <= j < a ==> assets[j].id != id) && assets[a].audio_channels >= 1;
            lemma_first_asset_unique(assets, id, a);
        }
    }
}

/// The collected specs, stated on the project itself: for the first
/// sequence with the id, each spec names clip `clip` of track `track`, that
/// track is not muted and is soloed or no track is, that clip's audio is
/// not muted and it plays media whose first asset has audio channels, and
/// the spec copies the clip's own asset, timeline start, source span,
/// timeline duration and fades; every such clip is collected; and a
/// project without the sequence gives nothing.
pub proof fn law_collect_selection(project: ProjectModel, sequence_id: u128)
    ensures
        (forall|s: int|
            0 <= s < project.sequences@.len() ==> (#[trigger] project.sequences@[s]).id
                != sequence_id) ==> spec_collect_specs(project, sequence_id).len() == 0,
        forall|s: int|
            #![trigger is_first_sequence(project.sequences@, sequence_id, s)]
            is_first_sequence(project.sequences@, sequence_id, s) ==> {
                let tracks = project.sequences@[s].tracks@;
                let assets = project.assets@;
                let specs = spec_collect_specs(project, sequence_id);
                &&& forall|k: int|
                    #![trigger specs[k]]
                    0 <= k < specs.len() ==> {
                        let tr = tracks[specs[k].track as int];
                        let clip = tr.clips@[specs[k].clip as int];
                        let m = clip.media.unwrap();
                        &&& specs[k].track < tracks.len()
                        &&& specs[k].clip < tr.clips@.len()
                        &&& !tr.muted
                        &&& (tr.solo || forall|j: int|
                            0 <= j < tracks.len() ==> !(#[trigger] tracks[j]).solo)
                        &&& !clip.audio_muted
                        &&& clip.media is Some
                        &&& exists|a: int|
                            0 <= a < assets.len() && (#[trigger] assets[a]).id == m.asset_id
                                && (forall|j: int| 0 <= j < a ==> assets[j].id != m.asset_id)
                                && assets[a].audio_channels >= 1
                        &&& specs[k].asset_id == m.asset_id
                        &&& specs[k].timeline_start_us == clip.start
                        &&& specs[k].src_in_us == m.src_in
                        &&& specs[k].src_out_us == m.src_out
                        &&& specs[k].duration_us == clip.duration
                        &&& specs[k].fade_in_us == clip.fade_in_us
                        &&& specs[k].fade_out_us == clip.fade_out_us
                    }
                &&& forall|t: int, c: int|
                    0 <= t < tracks.len() && 0 <= c < tracks[t].clips@.len() && !tracks[t].muted && (
                    tracks[t].solo || forall|j: int| 0 <= j < tracks.len() ==> !(#[trigger] tracks[j]).solo)
                        && !(#[trigger] tracks[t].clips@[c]).audio_muted
                        && tracks[t].clips@[c].media is Some && (exists|a: int|
                        0 <= a < assets.len() && (#[trigger] assets[a]).id
                            == tracks[t].clips@[c].media.unwrap().asset_id && (forall|j: int|
                            0 <= j < a ==> assets[j].id != tracks[t].clips@[c].media.unwrap().asset_id)
                            && assets[a].audio_channels >= 1) ==> exists|k: int|
                        0 <= k < specs.len() && (#[trigger] specs[k]).track == t && specs[k].clip == c
            },
{
    law_collect_exact(project, sequence_id);
    if exists|s: int| is_first_sequence(project.sequences@, sequence_id, s) {
        let s: int = choose|s: int| is_first_sequence(project.sequences@, sequence_id, s);
        lemma_first_sequence_unique(project.sequences@, sequence_id, s);
        let tracks = project.sequences@[s].tracks@;
        let assets = project.assets@;
        let specs = spec_collect_specs(project, sequence_id);
        assert forall|k: int| 0 <= k < specs.len() implies {
            let tr = tracks[(#[trigger] specs[k]).track as int];
            let clip = tr.clips@[specs[k].clip as int];
            let m = clip.media.unwrap();
            &&& (tr.solo || forall|j: int| 0 <= j < tracks.len() ==> !(#[trigger] tracks[j]).solo)
            &&& exists|a: int|
                0 <= a < assets.len() && (#[trigger] assets[a]).id == m.asset_id && (forall|j: int|
                    0 <= j < a ==> assets[j].id != m.asset_id) && assets[a].audio_channels >= 1
        } by {
            let tr = tracks[specs[k].track as int];
            let clip = tr.clips@[specs[k].clip as int];
            law_audible_exact(assets, tracks, specs[k].track as int, clip);
        }
        assert forall|t: int, c: int|
            0 <= t < tracks.len() && 0 <= c < tracks[t].clips@.len() && !tracks[t].muted && (
            tracks[t].solo || forall|j: int| 0 <= j < tracks.len() ==> !(#[trigger] tracks[j]).solo)
                && !(#[trigger] tracks[t].clips@[c]).audio_muted && tracks[t].clips@[c].media is Some
                && (exists|a: int|
                0 <= a < assets.len() && (#[trigger] assets[a]).id
                    == tracks[t].clips@[c].media.unwrap().asset_id && (forall|j: int|
                    0 <= j < a ==> assets[j].id != tracks[t].clips@[c].media.unwrap().asset_id)
                    && assets[a].audio_channels >= 1) implies exists|k: int|
            0 <= k < specs.len() && (#[trigger] specs[k]).track == t && specs[k].clip == c by {
            law_audible_exact(assets, tracks, t, tracks[t].clips@[c]);
        }
    } else {
        if spec_sequence_index(project.sequences@, sequence_id) is Some {
            let s: int = choose|s: int| is_first_sequence(project.sequences@, sequence_id, s);
            assert(is_first_sequence(project.sequences@, sequence_id, s));
        }
    }
}


/// Index sequences for the first `n` clips: the positions of the loaded
/// clips and of the skipped ones, each in increasing order.
proof fn lemma_load_positions<T>(
    assets: Seq<AssetModel>,
    asset_ids: Seq<u128>,
    loaded: Seq<Option<T>>,
    n: int,
) -> (r: (Seq<int>, Seq<int>))
    requires
        0 <= n <= asset_ids.len(),
        asset_ids.len() == loaded.len(),
    ensures
        r.0.len() == spec_loaded_items(assets, asset_ids, loaded, n).len(),
        r.1.len() == spec_skipped(assets, asset_ids, loaded, n).len(),
        forall|k: int|
            #![trigger r.0[k]]
            0 <= k < r.0.len() ==> 0 <= r.0[k] < n && spec_is_loaded(assets, asset_ids, loaded, r.0[k])
                && spec_loaded_items(assets, asset_ids, loaded, n)[k] == loaded[r.0[k]].unwrap(),
        forall|k: int|
            #![trigger r.1[k]]
            0 <= k < r.1.len() ==> 0 <= r.1[k] < n && !spec_is_loaded(assets, asset_ids, loaded, r.1[k])
                && spec_skipped(assets, asset_ids, loaded, n)[k] == asset_ids[r.1[k]],
        forall|k1: int, k2: int| 0 <= k1 < k2 < r.0.len() ==> r.0[k1] < r.0[k2],
        forall|k1: int, k2: int| 0 <= k1 < k2 < r.1.len() ==> r.1[k1] < r.1[k2],
        forall|i: int|
            0 <= i < n ==> r.0.contains(i) || r.1.contains(i),
    decreases n,
{
    if n == 0 {
        (seq![], seq![])
    } else {
        let (a, b) = lemma_load_positions(assets, asset_ids, loaded, n - 1);
        if spec_is_loaded(assets, asset_ids, loaded, n - 1) {
            let a2 = a.push(n - 1);
            assert forall|i: int| 0 <= i < n implies a2.contains(i)
                || b.contains(i) by {
                if i == n - 1 {
                    assert(a2[a.len() as int] == i);
                } else if a.contains(i) {
                    let k: int = choose|k: int| 0 <= k < a.len() && a[k] == i;
                    assert(a2[k] == i);
                }
            }
            (a2, b)
        } else {
            let b2 = b.push(n - 1);
            assert forall|i: int| 0 <= i < n implies a.contains(i)
                || b2.contains(i) by {
                if i == n - 1 {
                    assert(b2[b.len() as int] == i);
                } else if b.contains(i) {
                    let k: int = choose|k: int| 0 <= k < b.len() && b[k] == i;
                    assert(b2[k] == i);
                }
            }
            (a, b2)
        }
    }
}

/// What loading gives, stated on its inputs: the returned positions `r.0`
/// list, in increasing order, exactly the clips `i` for which some asset of
/// the project has id `asset_ids[i]` and `loaded[i]` holds a value, and the
/// items are those values in that order; `r.1` lists, in increasing order,
/// exactly the other clips, and the skipped ids are their `asset_ids[i]`.
/// Each clip is decided on its own, whatever the other clips are.
pub proof fn law_load_items_exact<T>(
    assets: Seq<AssetModel>,
    asset_ids: Seq<u128>,
    loaded: Seq<Option<T>>,
) -> (r: (Seq<int>, Seq<int>))
    requires
        asset_ids.len() == loaded.len(),
    ensures
        r.0.len() == spec_loaded_items(assets, asset_ids, loaded, asset_ids.len() as int).len(),
        r.1.len() == spec_skipped(assets, asset_ids, loaded, asset_ids.len() as int).len(),
        forall|k: int|
            #![trigger r.0[k]]
            0 <= k < r.0.len() ==> {
                &&& 0 <= r.0[k] < asset_ids.len()
                &&& exists|a: int|
                    0 <= a < assets.len() && (#[trigger] assets[a]).id == asset_ids[r.0[k]]
                &&& loaded[r.0[k]] is Some
                &&& spec_loaded_items(assets, asset_ids, loaded, asset_ids.len() as int)[k]
                    == loaded[r.0[k]].unwrap()
            },
        forall|k: int|
            #![trigger r.1[k]]
            0 <= k < r.1.len() ==> {
                &&& 0 <= r.1[k] < asset_ids.len()
                &&& !((exists|a: int|
                    0 <= a < assets.len() && (#[trigger] assets[a]).id == asset_ids[r.1[k]])
                    && loaded[r.1[k]] is Some)
                &&& spec_skipped(assets, asset_ids, loaded, asset_ids.len() as int)[k]
                    == asset_ids[r.1[k]]
            },
        forall|k1: int, k2: int| 0 <= k1 < k2 < r.0.len() ==> r.0[k1] < r.0[k2],
        forall|k1: int, k2: int| 0 <= k1 < k2 < r.1.len() ==> r.1[k1] < r.1[k2],
        forall|i: int|
            0 <= i < asset_ids.len() && (exists|a: int|
                0 <= a < assets.len() && (#[trigger] assets[a]).id == asset_ids[i])
                && loaded[i] is Some ==> r.0.contains(i),
        forall|i: int|
            0 <= i < asset_ids.len() && !((exists|a: int|
                0 <= a < assets.len() && (#[trigger] assets[a]).id == asset_ids[i])
                && loaded[i] is Some) ==> r.1.contains(i),
{
    let n: int = asset_ids.len() as int;
    let r = lemma_load_positions(assets, asset_ids, loaded, n);
    assert forall|i: int| 0 <= i < n implies (spec_is_loaded(assets, asset_ids, loaded, i) <==> ((
    exists|a: int| 0 <= a < assets.len() && (#[trigger] assets[a]).id == asset_ids[i])
        && loaded[i] is Some)) by {
        law_asset_lookup(assets, asset_ids[i]);
    }
    assert forall|i: int|
        0 <= i < n && (exists|a: int| 0 <= a < assets.len() && (#[trigger] assets[a]).id == asset_ids[i])
            && loaded[i] is Some implies r.0.contains(i) by {
        if r.1.contains(i) {
            let k: int = choose|k: int| 0 <= k < r.1.len() && r.1[k] == i;
            assert(!spec_is_loaded(assets, asset_ids, loaded, r.1[k]));
        }
    }
    assert forall|i: int|
        0 <= i < n && !((exists|a: int|
            0 <= a < assets.len() && (#[trigger] assets[a]).id == asset_ids[i]) && loaded[i] is Some)
            implies r.1.contains(i) by {
        if r.0.contains(i) {
            let k: int = choose|k: int| 0 <= k < r.0.len() && r.0[k] == i;
            assert(spec_is_loaded(assets, asset_ids, loaded, r.0[k]));
        }
    }
    r
}


/// Some sequence with id `id` at or before position `s` means a first one
/// exists.
proof fn lemma_first_sequence_exists(sequences: Seq<SequenceModel>, id: u128, s: int)
    requires
        0 <= s < sequences.len(),
        sequences[s].id == id,
    ensures
        spec_sequence_index(sequences, id) is Some,
    decreases s,
{
    if forall|j: int| 0 <= j < s ==> sequences[j].id != id {
        lemma_first_sequence_unique(sequences, id, s);
    } else {
        let j: int = choose|j: int| 0 <= j < s && sequences[j].id == id;
        lemma_first_sequence_exists(sequences, id, j);
    }
}

/// The lookup of a sequence finds one exactly when some sequence has the
/// id, and what it finds is the first position holding that id.
pub proof fn law_sequence_lookup(sequences: Seq<SequenceModel>, id: u128)
    ensures
        spec_sequence_index(sequences, id) is Some <==> exists|s: int|
            0 <= s < sequences.len() && (#[trigger] sequences[s]).id == id,
        spec_sequence_index(sequences, id) matches Some(s) ==> 0 <= s < sequences.len()
            && sequences[s].id == id && forall|j: int| 0 <= j < s ==> sequences[j].id != id,
{
    if exists|s: int| 0 <= s < sequences.len() && (#[trigger] sequences[s]).id == id {
        let s: int = choose|s: int| 0 <= s < sequences.len() && (#[trigger] sequences[s]).id == id;
        lemma_first_sequence_exists(sequences, id, s);
    }
}

} // verus!
