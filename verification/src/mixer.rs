//! Mixing decisions: when an item sounds, at which relative frame, and which
//! fade ratios scale its gain there.
use vstd::prelude::*;

verus! {

/// Timing of one item on the mixer's timeline, all in frames.
#[derive(Clone, Copy, Debug, PartialEq, Eq)]
pub struct MixTiming {
    /// Position of the clip on the timeline.
    pub timeline_start: i64,
    /// Offset inside the source where the clip begins.
    pub src_in: i64,
    /// Duration of the clip on the timeline.
    pub len: i64,
    /// Length of the fade-in ramp (no fade when not positive).
    pub fade_in: i64,
    /// Length of the fade-out ramp (no fade when not positive).
    pub fade_out: i64,
}

/// The ratio `num / den` by which a fade scales the gain.
#[derive(Clone, Copy, Debug, PartialEq, Eq)]
pub struct FadeRatio {
    pub num: i64,
    pub den: i64,
}

/// The fade ratios that apply to an item at one relative frame: the gain is
/// multiplied first by the fade-in ratio, then by the fade-out ratio, each
/// only where present.
#[derive(Clone, Copy, Debug, PartialEq, Eq)]
pub struct FadeEnvelope {
    pub fade_in: Option<FadeRatio>,
    pub fade_out: Option<FadeRatio>,
}

impl MixTiming {
    /// The frame relative to the clip's start at timeline position `pos`,
    /// when the clip sounds there.
    pub open spec fn spec_relative_frame(self, pos: i64) -> Option<i64> {
        let rel: int = pos - self.timeline_start;
        if 0 <= rel < self.len {
            Some(rel as i64)
        } else {
            None
        }
    }

    /// The fade ratios at relative frame `rel`.
    pub open spec fn spec_factor_at(self, rel: i64) -> FadeEnvelope {
        let from_end: int = self.len - rel;
        FadeEnvelope {
            fade_in: if self.fade_in > 0 && rel < self.fade_in {
                Some(FadeRatio { num: rel, den: self.fade_in })
            } else {
                None
            },
            fade_out: if self.fade_out > 0 && from_end < self.fade_out {
                Some(
                    FadeRatio {
                        num: if from_end > 0 {
                            from_end as i64
                        } else {
                            0
                        },
                        den: self.fade_out,
                    },
                )
            } else {
                None
            },
        }
    }

    /// Where timeline frame `pos` falls inside the clip: `Some(pos -
    /// timeline_start)` when `timeline_start <= pos < timeline_start + len`,
    /// else `None` (the clip is silent there).
    pub fn relative_frame(&self, pos: i64) -> (r: Option<i64>)
        ensures
            r == self.spec_relative_frame(pos),
    {
        let rel: i128 = pos as i128 - self.timeline_start as i128;
        if 0 <= rel && rel < self.len as i128 {
            Some(rel as i64)
        } else {
            None
        }
    }

    /// The fade ratios at relative frame `rel`: a fade-in ratio `rel /
    /// fade_in` while `rel < fade_in`, and a fade-out ratio
    /// `max(len - rel, 0) / fade_out` while `len - rel < fade_out`.
    pub fn factor_at(&self, rel: i64) -> (e: FadeEnvelope)
        ensures
            e == self.spec_factor_at(rel),
    {
        let fade_in = if self.fade_in > 0 && rel < self.fade_in {
            Some(FadeRatio { num: rel, den: self.fade_in })
        } else {
            None
        };
        let from_end: i128 = self.len as i128 - rel as i128;
        let fade_out = if self.fade_out > 0 && from_end < self.fade_out as i128 {
            let num: i64 = if from_end > 0 {
                from_end as i64
            } else {
                0
            };
            Some(FadeRatio { num, den: self.fade_out })
        } else {
            None
        };
        FadeEnvelope { fade_in, fade_out }
    }
}


/// One item that sounds at a given timeline frame.
#[derive(Clone, Copy, Debug, PartialEq, Eq)]
pub struct Contribution {
    /// Index of the item in the mixed slice.
    pub index: usize,
    /// Frame relative to the item's start.
    pub rel: i64,
    /// Fade ratios that scale the item's gain there.
    pub envelope: FadeEnvelope,
}

/// The contributions at timeline frame `pos`: one for each item that sounds
/// there, in the order of `items`.
pub open spec fn spec_mix_plan(items: Seq<MixTiming>, pos: i64) -> Seq<Contribution>
    decreases items.len(),
{
    if items.len() == 0 {
        seq![]
    } else {
        let prev = spec_mix_plan(items.drop_last(), pos);
        let last: int = items.len() - 1;
        match items[last].spec_relative_frame(pos) {
            Some(rel) => prev.push(
                Contribution {
                    index: last as usize,
                    rel,
                    envelope: items[last].spec_factor_at(rel),
                },
            ),
            None => prev,
        }
    }
}

/// Decides the mix of timeline frame `pos`: for each item of `items`, in
/// order, that sounds at `pos`, its index, its relative frame and its fade
/// ratios. Items outside their span contribute nothing.
pub fn mix_plan(items: &[MixTiming], pos: i64) -> (plan: Vec<Contribution>)
    ensures
        plan@ == spec_mix_plan(items@, pos),
{
    let mut plan: Vec<Contribution> = Vec::new();
    let n: usize = items.len();
    for i in 0..n
        invariant
            n == items@.len(),
            plan@ == spec_mix_plan(items@.take(i as int), pos),
    {
        assert(items@.take(i + 1).drop_last() =~= items@.take(i as int));
        let item = &items[i];
        match item.relative_frame(pos) {
            Some(rel) => {
                let envelope = item.factor_at(rel);
                plan.push(Contribution { index: i, rel, envelope });
            },
            None => {},
        }
    }
    assert(items@.take(n as int) =~= items@);
    plan
}

impl MixTiming {
    /// The source frame that plays at source offset `src_rel` from the
    /// clip's in-point: `src_in + src_rel`.
    pub fn source_frame(&self, src_rel: i64) -> (f: i64)
        requires
            i64::MIN <= self.src_in + src_rel <= i64::MAX,
        ensures
            f == self.src_in + src_rel,
    {
        self.src_in + src_rel
    }
}

/// The timeline frame of the `i`-th pair of a buffer that starts at `pos`.
pub open spec fn frame_pos(pos: i64, i: int) -> i64 {
    (pos + i) as i64
}

/// `after` is `before` filled from timeline frame `pos`: same length, each
/// pair `i` a result of `mix(pos + i)`, and a trailing odd element kept.
pub open spec fn filled<T, F: Fn(i64) -> (T, T)>(mix: F, pos: i64, before: Seq<T>, after: Seq<T>) -> bool {
    &&& after.len() == before.len()
    &&& forall|i: int|
        0 <= i < before.len() / 2 ==> call_ensures(
            mix,
            (frame_pos(pos, i),),
            (#[trigger] after[2 * i], after[2 * i + 1]),
        )
    &&& before.len() % 2 == 1 ==> after[before.len() - 1] == before[before.len() - 1]
}

/// `mix` gives one result per frame.
pub open spec fn deterministic<T, F: Fn(i64) -> (T, T)>(mix: F) -> bool {
    forall|p: i64, r1: (T, T), r2: (T, T)|
        #![trigger call_ensures(mix, (p,), r1), call_ensures(mix, (p,), r2)]
        call_ensures(mix, (p,), r1) && call_ensures(mix, (p,), r2) ==> r1 == r2
}

/// Fills an interleaved stereo buffer from timeline frame `pos` on: the
/// `i`-th pair of `out` receives `mix(pos + i)`; a trailing odd element is
/// left as it was.
pub fn fill<T: Copy, F: Fn(i64) -> (T, T)>(out: &mut [T], pos: i64, mix: F)
    requires
        old(out)@.len() / 2 == 0 || pos + old(out)@.len() / 2 - 1 <= i64::MAX,
        forall|i: int| 0 <= i < old(out)@.len() / 2 ==> call_requires(mix, (#[trigger] frame_pos(pos, i),)),
    ensures
        filled(mix, pos, old(out)@, final(out)@),
{
    let n: usize = out.len();
    let frames: usize = n / 2;
    let ghost original = out@;
    for i in 0..frames
        invariant
            n == original.len(),
            frames == n / 2,
            out@.len() == n,
            frames == 0 || pos + frames - 1 <= i64::MAX,
            forall|j: int| 0 <= j < frames ==> call_requires(mix, (#[trigger] frame_pos(pos, j),)),
            forall|j: int|
                0 <= j < i ==> call_ensures(mix, (frame_pos(pos, j),), (#[trigger] out@[2 * j], out@[2 * j + 1])),
            forall|j: int| 2 * i <= j < n ==> out@[j] == original[j],
    {
        let p: i64 = pos + i as i64;
        assert(p == frame_pos(pos, i as int));
        let (l, r) = mix(p);
        out[2 * i] = l;
        out[2 * i + 1] = r;
    }
}

/// For a mixer with one result per frame, filling a buffer of `2 * n`
/// elements from `pos` at once gives the same samples as filling its first
/// `2 * m` elements from `pos` and the rest from `pos + m`.
pub proof fn law_fill_in_pieces<T, F: Fn(i64) -> (T, T)>(
    mix: F,
    pos: i64,
    n: int,
    m: int,
    before: Seq<T>,
    whole: Seq<T>,
    first: Seq<T>,
    rest: Seq<T>,
)
    requires
        deterministic(mix),
        0 <= m <= n,
        before.len() == 2 * n,
        n == 0 || pos + n - 1 <= i64::MAX,
        filled(mix, pos, before, whole),
        filled(mix, pos, before.take(2 * m), first),
        filled(mix, (pos + m) as i64, before.skip(2 * m), rest),
    ensures
        whole == first + rest,
{
    let joined = first + rest;
    assert forall|k: int| 0 <= k < whole.len() implies whole[k] == joined[k] by {
        let i = k / 2;
        assert(0 <= i < n);
        if i < m {
            assert(call_ensures(mix, (frame_pos(pos, i),), (whole[2 * i], whole[2 * i + 1])));
            assert(call_ensures(mix, (frame_pos(pos, i),), (first[2 * i], first[2 * i + 1])));
        } else {
            let j = i - m;
            assert(frame_pos((pos + m) as i64, j) == frame_pos(pos, i));
            assert(call_ensures(mix, (frame_pos(pos, i),), (whole[2 * i], whole[2 * i + 1])));
            assert(call_ensures(
                mix,
                (frame_pos((pos + m) as i64, j),),
                (rest[2 * j], rest[2 * j + 1]),
            ));
            assert(joined[2 * i] == rest[2 * j]);
            assert(joined[2 * i + 1] == rest[2 * j + 1]);
        }
    }
    assert(whole =~= joined);
}

/// For a mixer with one result per frame, filling overwrites: the pairs
/// written do not depend on what the buffer held before, and filling an
/// already filled buffer again leaves it unchanged.
pub proof fn law_fill_overwrites<T, F: Fn(i64) -> (T, T)>(
    mix: F,
    pos: i64,
    before1: Seq<T>,
    after1: Seq<T>,
    before2: Seq<T>,
    after2: Seq<T>,
    again: Seq<T>,
)
    requires
        deterministic(mix),
        before1.len() == before2.len(),
        filled(mix, pos, before1, after1),
        filled(mix, pos, before2, after2),
        filled(mix, pos, after1, again),
    ensures
        after1.take(2 * (before1.len() / 2) as int) == after2.take(2 * (before1.len() / 2) as int),
        again == after1,
{
    let len: int = before1.len() as int;
    assert forall|k: int| 0 <= k < 2 * (len / 2) implies after1[k] == after2[k] && again[k]
        == after1[k] by {
        let i = k / 2;
        assert(call_ensures(mix, (frame_pos(pos, i),), (after1[2 * i], after1[2 * i + 1])));
        assert(call_ensures(mix, (frame_pos(pos, i),), (after2[2 * i], after2[2 * i + 1])));
        assert(call_ensures(mix, (frame_pos(pos, i),), (again[2 * i], again[2 * i + 1])));
    }
    assert(after1.take(2 * (len / 2)) =~= after2.take(2 * (len / 2)));
    assert(again =~= after1);
}

/// Every contribution of the plan belongs to an item that sounds at `pos`:
/// its index is in range, its relative frame is the one of that item at
/// `pos`, its ratios are that item's at that frame, and the indices come in
/// strictly increasing order (no item contributes twice).
pub proof fn law_plan_sound(items: Seq<MixTiming>, pos: i64)
    requires
        items.len() <= usize::MAX,
    ensures
        forall|k: int|
            #![trigger spec_mix_plan(items, pos)[k]]
            0 <= k < spec_mix_plan(items, pos).len() ==> {
                let c = spec_mix_plan(items, pos)[k];
                &&& c.index < items.len()
                &&& items[c.index as int].spec_relative_frame(pos) == Some(c.rel)
                &&& c.envelope == items[c.index as int].spec_factor_at(c.rel)
            },
        forall|k1: int, k2: int|
            0 <= k1 < k2 < spec_mix_plan(items, pos).len() ==> spec_mix_plan(items, pos)[k1].index
                < spec_mix_plan(items, pos)[k2].index,
    decreases items.len(),
{
    if items.len() > 0 {
        let front = items.drop_last();
        law_plan_sound(front, pos);
        let prev = spec_mix_plan(front, pos);
        let plan = spec_mix_plan(items, pos);
        let last: int = items.len() - 1;
        assert forall|k: int| 0 <= k < prev.len() implies {
            &&& prev[k].index < last
            &&& items[prev[k].index as int] == front[prev[k].index as int]
        } by {}
        if items[last].spec_relative_frame(pos) is Some {
            assert(plan.len() == prev.len() + 1);
            assert(plan[plan.len() - 1].index == last);
            assert forall|k: int| 0 <= k < prev.len() implies plan[k] == prev[k] by {}
        } else {
            assert(plan == prev);
        }
    }
}

/// Every item that sounds at `pos` contributes to the plan: overlapping
/// items are all mixed.
pub proof fn law_plan_complete(items: Seq<MixTiming>, pos: i64, i: int)
    requires
        items.len() <= usize::MAX,
        0 <= i < items.len(),
        items[i].spec_relative_frame(pos) is Some,
    ensures
        exists|k: int|
            0 <= k < spec_mix_plan(items, pos).len() && (#[trigger] spec_mix_plan(items, pos)[k]).index
                == i,
    decreases items.len(),
{
    let front = items.drop_last();
    let prev = spec_mix_plan(front, pos);
    let plan = spec_mix_plan(items, pos);
    if i == items.len() - 1 {
        assert(plan[plan.len() - 1].index == i);
    } else {
        assert(front[i] == items[i]);
        law_plan_complete(front, pos, i);
        let k: int = choose|k: int| 0 <= k < prev.len() && (#[trigger] prev[k]).index == i;
        assert(plan[k] == prev[k]);
    }
}

/// Inside the clip the fades never amplify: each ratio that applies at a
/// relative frame `0 <= rel < len` lies in `[0, 1)`, and where neither ramp
/// applies the item plays at its full gain.
pub proof fn law_envelope_bounded(t: MixTiming, rel: i64)
    requires
        0 <= rel < t.len,
    ensures
        t.spec_factor_at(rel).fade_in matches Some(f) ==> 0 <= f.num < f.den,
        t.spec_factor_at(rel).fade_out matches Some(f) ==> 0 <= f.num < f.den,
        (t.fade_in <= rel && t.fade_out <= t.len - rel) ==> t.spec_factor_at(rel) == (FadeEnvelope {
            fade_in: None,
            fade_out: None,
        }),
{
}


/// A clip sounds at timeline frame `pos` exactly when `timeline_start <= pos
/// < timeline_start + len`, and then at relative frame `pos -
/// timeline_start`; moving the clip and the frame by the same amount changes
/// nothing.
pub proof fn law_relative_frame_span(t: MixTiming, pos: i64, shift: i64)
    ensures
        t.timeline_start <= pos < t.timeline_start + t.len ==> t.spec_relative_frame(pos) == Some(
            (pos - t.timeline_start) as i64,
        ),
        !(t.timeline_start <= pos < t.timeline_start + t.len) ==> t.spec_relative_frame(pos) is None,
        i64::MIN <= t.timeline_start + shift <= i64::MAX && i64::MIN <= pos + shift <= i64::MAX ==> (
        MixTiming { timeline_start: (t.timeline_start + shift) as i64, ..t }).spec_relative_frame(
            (pos + shift) as i64,
        ) == t.spec_relative_frame(pos),
{
}

/// The fade ratios at relative frame `rel`: a fade-in ratio `rel / fade_in`
/// is present exactly when `fade_in > 0` and `rel < fade_in`, and a
/// fade-out ratio `max(len - rel, 0) / fade_out` exactly when `fade_out > 0`
/// and `len - rel < fade_out`.
pub proof fn law_fade_ratios(t: MixTiming, rel: i64)
    ensures
        (t.fade_in > 0 && rel < t.fade_in) ==> t.spec_factor_at(rel).fade_in == Some(
            FadeRatio { num: rel, den: t.fade_in },
        ),
        !(t.fade_in > 0 && rel < t.fade_in) ==> t.spec_factor_at(rel).fade_in is None,
        (t.fade_out > 0 && t.len - rel < t.fade_out) ==> ({
            let f = t.spec_factor_at(rel).fade_out;
            &&& f is Some
            &&& f.unwrap().den == t.fade_out
            &&& f.unwrap().num == (if t.len - rel > 0 {
                t.len - rel
            } else {
                0
            })
        }),
        !(t.fade_out > 0 && t.len - rel < t.fade_out) ==> t.spec_factor_at(rel).fade_out is None,
{
}

/// The plan of frame `pos` names exactly the items whose span holds `pos`:
/// each contribution's item has `timeline_start <= pos < timeline_start +
/// len` and relative frame `pos - timeline_start`, and every such item has a
/// contribution.
pub proof fn law_plan_by_span(items: Seq<MixTiming>, pos: i64)
    requires
        items.len() <= usize::MAX,
    ensures
        forall|k: int|
            #![trigger spec_mix_plan(items, pos)[k]]
            0 <= k < spec_mix_plan(items, pos).len() ==> {
                let c = spec_mix_plan(items, pos)[k];
                let t = items[c.index as int];
                &&& c.index < items.len()
                &&& t.timeline_start <= pos < t.timeline_start + t.len
                &&& c.rel == pos - t.timeline_start
            },
        forall|i: int|
            0 <= i < items.len() && (#[trigger] items[i]).timeline_start <= pos < items[i].timeline_start
                + items[i].len ==> exists|k: int|
                0 <= k < spec_mix_plan(items, pos).len() && (#[trigger] spec_mix_plan(items, pos)[k]).index
                    == i,
{
    law_plan_sound(items, pos);
    assert forall|k: int| 0 <= k < spec_mix_plan(items, pos).len() implies {
        let c = #[trigger] spec_mix_plan(items, pos)[k];
        let t = items[c.index as int];
        &&& c.index < items.len()
        &&& t.timeline_start <= pos < t.timeline_start + t.len
        &&& c.rel == pos - t.timeline_start
    } by {
        let c = spec_mix_plan(items, pos)[k];
        law_relative_frame_span(items[c.index as int], pos, 0);
    }
    assert forall|i: int|
        0 <= i < items.len() && (#[trigger] items[i]).timeline_start <= pos < items[i].timeline_start
            + items[i].len implies exists|k: int|
        0 <= k < spec_mix_plan(items, pos).len() && (#[trigger] spec_mix_plan(items, pos)[k]).index
            == i by {
        law_relative_frame_span(items[i], pos, 0);
        law_plan_complete(items, pos, i);
    }
}

} // verus!
