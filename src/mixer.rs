use vstd::prelude::*;
use crate::arith::{floor_div, ONE};
use crate::engine::{AudioEngineState, LevelsResponse, VisualData};
use crate::voice::{FrameOutput, Voice};

verus! {

/// Representative samples kept per key and rendered buffer.
pub const MAX_VISUAL_SAMPLES: usize = 128;

/// What the level snapshot holds for one key.
pub struct LevelView {
    pub key: Seq<char>,
    pub peak: u64,
    pub samples: Seq<i64>,
}

pub open spec fn level_view(d: VisualData) -> LevelView {
    LevelView { key: d.key@, peak: d.peak, samples: d.samples@ }
}

pub open spec fn levels_view(ls: Seq<VisualData>) -> Seq<LevelView> {
    ls.map_values(|d: VisualData| level_view(d))
}

/// Index of the entry for `k`, or the length if there is none.
pub open spec fn level_index(ls: Seq<LevelView>, k: Seq<char>) -> int
    decreases ls.len(),
{
    if ls.len() == 0 {
        0
    } else if ls[0].key == k {
        0
    } else {
        1 + level_index(ls.drop_first(), k)
    }
}

proof fn lemma_level_index(ls: Seq<LevelView>, k: Seq<char>, i: int)
    requires
        0 <= i <= ls.len(),
        forall|j: int| 0 <= j < i ==> ls[j].key != k,
        i < ls.len() ==> ls[i].key == k,
    ensures
        level_index(ls, k) == i,
    decreases i,
{
    if i > 0 {
        lemma_level_index(ls.drop_first(), k, i - 1);
    }
}

/// Records one voice's frame under its key: the peak is the largest seen, and
/// the sample is kept while fewer than `MAX_VISUAL_SAMPLES` are.
pub open spec fn record_level(ls: Seq<LevelView>, k: Seq<char>, peak: u64, sample: i64) -> Seq<LevelView> {
    let i = level_index(ls, k);
    if i < ls.len() {
        let e = ls[i];
        ls.update(
            i,
            LevelView {
                key: e.key,
                peak: if peak > e.peak { peak } else { e.peak },
                samples: if e.samples.len() < MAX_VISUAL_SAMPLES { e.samples.push(sample) } else { e.samples },
            },
        )
    } else {
        ls.push(LevelView { key: k, peak: peak, samples: seq![sample] })
    }
}

/// The voices that stay active after one frame, each advanced, in order.
pub open spec fn frame_voices(vs: Seq<Voice>) -> Seq<Voice>
    decreases vs.len(),
{
    if vs.len() == 0 {
        vs
    } else {
        let rest = frame_voices(vs.drop_last());
        if vs.last().survives() { rest.push(vs.last().stepped()) } else { rest }
    }
}

/// Sum of the voices' left contributions to one frame.
pub open spec fn frame_left(vs: Seq<Voice>) -> int
    decreases vs.len(),
{
    if vs.len() == 0 {
        0
    } else {
        frame_left(vs.drop_last()) + if vs.last().sounds() { vs.last().output().left as int } else { 0 }
    }
}

/// Sum of the voices' right contributions to one frame.
pub open spec fn frame_right(vs: Seq<Voice>) -> int
    decreases vs.len(),
{
    if vs.len() == 0 {
        0
    } else {
        frame_right(vs.drop_last()) + if vs.last().sounds() { vs.last().output().right as int } else { 0 }
    }
}

/// The level snapshot after recording one frame of every sounding voice.
pub open spec fn frame_levels(ls: Seq<LevelView>, vs: Seq<Voice>) -> Seq<LevelView>
    decreases vs.len(),
{
    if vs.len() == 0 {
        ls
    } else {
        let before = frame_levels(ls, vs.drop_last());
        let v = vs.last();
        if v.sounds() {
            record_level(before, v.key@, v.output().peak, v.output().visual)
        } else {
            before
        }
    }
}

/// The active voices after `n` frames.
pub open spec fn voices_after(vs: Seq<Voice>, n: nat) -> Seq<Voice>
    decreases n,
{
    if n == 0 { vs } else { frame_voices(voices_after(vs, (n - 1) as nat)) }
}

/// The level snapshot after `n` frames, starting empty.
pub open spec fn levels_after(vs: Seq<Voice>, n: nat) -> Seq<LevelView>
    decreases n,
{
    if n == 0 {
        Seq::empty()
    } else {
        frame_levels(levels_after(vs, (n - 1) as nat), voices_after(vs, (n - 1) as nat))
    }
}

/// After a frame, every voice still active has its cursor inside its buffer.
pub proof fn lemma_frame_cursors_inside(vs: Seq<Voice>)
    requires
        forall|j: int| 0 <= j < vs.len() ==> (#[trigger] vs[j]).wf(),
    ensures
        forall|j: int| 0 <= j < frame_voices(vs).len() ==> (#[trigger] frame_voices(vs)[j]).position
            < frame_voices(vs)[j].len() * (ONE as int),
    decreases vs.len(),
{
    if vs.len() > 0 {
        let rest = vs.drop_last();
        assert forall|j: int| 0 <= j < rest.len() implies (#[trigger] rest[j]).wf() by {
            assert(rest[j] == vs[j]);
        }
        lemma_frame_cursors_inside(rest);
        crate::voice::lemma_cursor_inside(vs.last());
    }
}

pub open spec fn clamp_i64(x: int) -> int {
    if x < i64::MIN { i64::MIN as int } else if x > i64::MAX { i64::MAX as int } else { x }
}

/// A bus scaled by the master gain; both saturate at the `i64` range.
pub open spec fn master_scaled(bus: int, master: u32) -> int {
    clamp_i64(clamp_i64(bus) * (master as int) / (ONE as int))
}

/// Output sample `c` of a frame whose busses are `left` and `right`: a mono
/// device gets their mean, other devices get left and right on their first
/// two channels.
pub open spec fn device_sample(left: int, right: int, master: u32, channels: int, c: int) -> int {
    if channels == 1 {
        master_scaled((left + right) / 2, master)
    } else if c == 0 {
        master_scaled(left, master)
    } else {
        master_scaled(right, master)
    }
}

fn clamp_to_i64(x: i128) -> (r: i64)
    ensures
        r == clamp_i64(x as int),
{
    if x < i64::MIN as i128 {
        i64::MIN
    } else if x > i64::MAX as i128 {
        i64::MAX
    } else {
        x as i64
    }
}

fn scale_by_master(bus: i128, master: u32) -> (r: i64)
    ensures
        r == master_scaled(bus as int, master),
{
    let b = clamp_to_i64(bus);
    proof {
        assert((b as int) * (master as int) <= 0x8000_0000_0000_0000 * 0xFFFF_FFFF) by (nonlinear_arith)
            requires -0x8000_0000_0000_0000 <= b < 0x8000_0000_0000_0000, 0 <= master <= 0xFFFF_FFFF;
        assert((b as int) * (master as int) >= -0x8000_0000_0000_0000 * 0xFFFF_FFFF) by (nonlinear_arith)
            requires -0x8000_0000_0000_0000 <= b < 0x8000_0000_0000_0000, 0 <= master <= 0xFFFF_FFFF;
    }
    clamp_to_i64(floor_div((b as i128) * (master as i128), ONE))
}

fn record_level_in(levels: &mut Vec<VisualData>, key: &String, peak: u64, sample: i64)
    ensures
        levels_view(final(levels)@) == record_level(levels_view(old(levels)@), key@, peak, sample),
{
    let ghost lv = levels_view(levels@);
    let mut i: usize = 0;
    while i < levels.len()
        invariant
            i <= levels@.len(),
            levels@ == old(levels)@,
            lv == levels_view(levels@),
            forall|j: int| 0 <= j < i ==> lv[j].key != key@,
        ensures
            i <= levels@.len(),
            levels@ == old(levels)@,
            forall|j: int| 0 <= j < i ==> lv[j].key != key@,
            i < levels@.len() ==> lv[i as int].key == key@,
        decreases levels@.len() - i,
    {
        if levels[i].key == *key {
            break;
        }
        i = i + 1;
    }
    proof {
        lemma_level_index(lv, key@, i as int);
    }
    if i < levels.len() {
        if peak > levels[i].peak {
            levels[i].peak = peak;
        }
        if levels[i].samples.len() < MAX_VISUAL_SAMPLES {
            levels[i].samples.push(sample);
        }
    } else {
        let mut samples: Vec<i64> = Vec::with_capacity(MAX_VISUAL_SAMPLES);
        samples.push(sample);
        levels.push(VisualData { key: key.clone(), peak, samples });
    }
    proof {
        assert(levels_view(levels@) =~= record_level(lv, key@, peak, sample));
    }
}

/// Output sample at interleaved index `idx` after rendering: sample `c` of
/// frame `f` (`idx == f * channels + c`) for the first two channels; other
/// channels keep what they held.
pub open spec fn rendered_sample(
    previous: Seq<i64>,
    vs: Seq<Voice>,
    master: u32,
    channels: int,
    idx: int,
) -> int {
    let f = idx / channels;
    let c = idx % channels;
    if c < 2 {
        let now = voices_after(vs, f as nat);
        device_sample(frame_left(now), frame_right(now), master, channels, c)
    } else {
        previous[idx] as int
    }
}

proof fn lemma_take_last(vs: Seq<Voice>, k: int)
    requires
        0 <= k < vs.len(),
    ensures
        vs.take(k + 1).drop_last() == vs.take(k),
        vs.take(k + 1).last() == vs[k],
{
    assert(vs.take(k + 1).drop_last() =~= vs.take(k));
}

impl AudioEngineState {
    /// Renders one frame: every voice, in order, is stepped; retired voices
    /// leave the list; sounding voices are recorded in the level snapshot.
    /// Returns the left and right busses.
    fn mix_frame(&mut self) -> (r: (i128, i128))
        requires
            old(self).wf(),
        ensures
            final(self).wf(),
            final(self).voices@ == frame_voices(old(self).voices@),
            levels_view(final(self).levels@) == frame_levels(levels_view(old(self).levels@), old(self).voices@),
            r.0 == frame_left(old(self).voices@),
            r.1 == frame_right(old(self).voices@),
            -0x1_0000_0000_0000_0000_0000_0000_0000 <= r.0 <= 0x1_0000_0000_0000_0000_0000_0000_0000,
            -0x1_0000_0000_0000_0000_0000_0000_0000 <= r.1 <= 0x1_0000_0000_0000_0000_0000_0000_0000,
            final(self).sound_bank@ == old(self).sound_bank@,
            final(self).master_volume == old(self).master_volume,
            final(self).master_bpm == old(self).master_bpm,
            final(self).sample_rate == old(self).sample_rate,
    {
        let ghost vs0 = self.voices@;
        let count = self.voices.len();
        assert(vs0.len() == count);
        let ghost ls0 = levels_view(self.levels@);
        let ghost mut k: int = 0;
        let mut i: usize = 0;
        let mut left: i128 = 0;
        let mut right: i128 = 0;
        proof {
            assert(vs0.take(0) =~= Seq::<Voice>::empty());
            assert(self.voices@ =~= frame_voices(vs0.take(0)) + vs0.skip(0));
        }
        while i < self.voices.len()
            invariant
                0 <= k <= vs0.len(),
                vs0.len() <= usize::MAX,
                self.voices@ == frame_voices(vs0.take(k)) + vs0.skip(k),
                i == frame_voices(vs0.take(k)).len(),
                levels_view(self.levels@) == frame_levels(ls0, vs0.take(k)),
                left == frame_left(vs0.take(k)),
                right == frame_right(vs0.take(k)),
                -k * 0x1_0000_0000_0000 <= left <= k * 0x1_0000_0000_0000,
                -k * 0x1_0000_0000_0000 <= right <= k * 0x1_0000_0000_0000,
                forall|j: int| 0 <= j < vs0.len() ==> (#[trigger] vs0[j]).wf(),
                forall|j: int| 0 <= j < self.voices@.len() ==> (#[trigger] self.voices@[j]).wf(),
                self.sample_rate > 0,
                forall|a: int| 0 <= a < self.sound_bank@.len() ==> (#[trigger] self.sound_bank@[a]).buffer.wf(),
                forall|a: int, b: int| 0 <= a < b < self.sound_bank@.len()
                    ==> (#[trigger] self.sound_bank@[a]).key@ != (#[trigger] self.sound_bank@[b]).key@,
                self.sound_bank@ == old(self).sound_bank@,
                self.master_volume == old(self).master_volume,
                self.master_bpm == old(self).master_bpm,
                self.sample_rate == old(self).sample_rate,
            decreases self.voices@.len() - i,
        {
            proof {
                assert(self.voices@[i as int] == vs0[k]);
                lemma_take_last(vs0, k);
            }
            let ghost v = vs0[k];
            let out = self.voices[i].step();
            match out {
                Some(o) => {
                    record_level_in(&mut self.levels, &self.voices[i].key, o.peak, o.visual);
                    proof {
                        assert(-(k + 1) * 0x1_0000_0000_0000 <= left + o.left <= (k + 1) * 0x1_0000_0000_0000);
                        assert((k + 1) * 0x1_0000_0000_0000 <= 0x1_0000_0000_0000_0000 * 0x1_0000_0000_0000)
                            by (nonlinear_arith)
                            requires k + 1 <= 0x1_0000_0000_0000_0000;
                    }
                    left = left + o.left as i128;
                    right = right + o.right as i128;
                    if self.voices[i].in_buffer() {
                        i = i + 1;
                    } else {
                        self.voices.remove(i);
                    }
                },
                None => {
                    self.voices.remove(i);
                },
            }
            proof {
                k = k + 1;
                assert(self.voices@ =~= frame_voices(vs0.take(k)) + vs0.skip(k));
            }
        }
        proof {
            assert(vs0.skip(k).len() == 0);
            assert(vs0.take(k) =~= vs0);
            assert(k * 0x1_0000_0000_0000 <= 0x1_0000_0000_0000_0000 * 0x1_0000_0000_0000) by (nonlinear_arith)
                requires k <= 0x1_0000_0000_0000_0000;
        }
        (left, right)
    }
}

/// Renders one hardware buffer of interleaved output samples: the level
/// snapshot starts empty, then every frame mixes all active voices (see
/// `frame_voices`) and writes the master-scaled busses to the frame's first
/// one or two channels. Output samples carry sixteen fractional bits per
/// 16-bit sample step.
pub fn write_audio(state: &mut AudioEngineState, data: &mut Vec<i64>, channels: usize)
    requires
        old(state).wf(),
        channels >= 1,
        (old(data)@.len() as int) % (channels as int) == 0,
    ensures
        final(state).wf(),
        ({
            let frames = ((old(data)@.len() as int) / (channels as int)) as nat;
            &&& final(state).voices@ == voices_after(old(state).voices@, frames)
            &&& levels_view(final(state).levels@) == levels_after(old(state).voices@, frames)
        }),
        final(data)@.len() == old(data)@.len(),
        forall|idx: int| 0 <= idx < old(data)@.len() ==> #[trigger] final(data)@[idx] as int
            == rendered_sample(old(data)@, old(state).voices@, old(state).master_volume, channels as int, idx),
        final(state).sound_bank@ == old(state).sound_bank@,
        final(state).master_volume == old(state).master_volume,
        final(state).master_bpm == old(state).master_bpm,
        final(state).sample_rate == old(state).sample_rate,
{
    let ghost vs0 = state.voices@;
    let ghost d0 = data@;
    let master = state.master_volume;
    state.levels.clear();
    let total = data.len();
    let frames = total / channels;
    let ghost chi = channels as int;
    proof {
        vstd::arithmetic::div_mod::lemma_fundamental_div_mod(d0.len() as int, chi);
        assert(levels_view(state.levels@) =~= levels_after(vs0, 0));
    }
    let mut f: usize = 0;
    while f < frames
        invariant
            f <= frames,
            frames == (d0.len() as int) / chi,
            d0.len() <= usize::MAX,
            d0.len() == chi * frames,
            chi == channels,
            chi >= 1,
            master == old(state).master_volume,
            state.wf(),
            state.voices@ == voices_after(vs0, f as nat),
            levels_view(state.levels@) == levels_after(vs0, f as nat),
            data@.len() == d0.len(),
            forall|idx: int| 0 <= idx < f * chi ==> #[trigger] data@[idx] as int
                == rendered_sample(d0, vs0, master, chi, idx),
            forall|idx: int| f * chi <= idx < data@.len() ==> #[trigger] data@[idx] == d0[idx],
            state.sound_bank@ == old(state).sound_bank@,
            state.master_volume == old(state).master_volume,
            state.master_bpm == old(state).master_bpm,
            state.sample_rate == old(state).sample_rate,
        decreases frames - f,
    {
        let ghost now = state.voices@;
        let (l, r) = state.mix_frame();
        proof {
            assert(f * chi + chi <= frames * chi) by (nonlinear_arith)
                requires f < frames, chi >= 1;
            assert(frames * chi == chi * frames) by (nonlinear_arith);
            assert(f * chi <= d0.len());
            assert(f * chi + chi <= d0.len());
        }
        let base = f * channels;
        if channels == 1 {
            data.set(base, scale_by_master(floor_div(l + r, 2), master));
        } else {
            data.set(base, scale_by_master(l, master));
            data.set(base + 1, scale_by_master(r, master));
        }
        proof {
            assert forall|idx: int| 0 <= idx < (f + 1) * chi implies #[trigger] data@[idx] as int
                == rendered_sample(d0, vs0, master, chi, idx) by {
                if idx >= f * chi {
                    let c = idx - f * chi;
                    assert((f + 1) * chi == f * chi + chi) by (nonlinear_arith);
                    assert(0 <= c < chi);
                    assert(idx == (f as int) * chi + c);
                    vstd::arithmetic::div_mod::lemma_fundamental_div_mod_converse(idx, chi, f as int, c);
                    assert((f + 1) * chi == f * chi + chi) by (nonlinear_arith);
                    if c >= 2 {
                        assert(data@[idx] == d0[idx]);
                    }
                }
            }
            assert forall|idx: int| (f + 1) * chi <= idx < data@.len() implies #[trigger] data@[idx] == d0[idx] by {
                assert((f + 1) * chi == f * chi + chi) by (nonlinear_arith);
            }
        }
        f = f + 1;
    }
    proof {
        assert(f * chi == d0.len()) by (nonlinear_arith)
            requires f == frames, d0.len() == chi * frames;
        assert forall|idx: int| 0 <= idx < d0.len() implies #[trigger] data@[idx] as int
            == rendered_sample(d0, vs0, master, chi, idx) by {
            assert(idx < f * chi);
        }
    }
}

fn copy_levels(levels: &Vec<VisualData>) -> (r: Vec<VisualData>)
    ensures
        levels_view(r@) == levels_view(levels@),
{
    let mut r: Vec<VisualData> = Vec::new();
    let mut i: usize = 0;
    while i < levels.len()
        invariant
            i <= levels@.len(),
            r@.len() == i,
            forall|j: int| 0 <= j < i ==> level_view(#[trigger] r@[j]) == level_view(levels@[j]),
        decreases levels@.len() - i,
    {
        let d = &levels[i];
        let samples = d.samples.clone();
        assert(samples@ =~= d.samples@);
        r.push(VisualData { key: d.key.clone(), peak: d.peak, samples });
        i = i + 1;
    }
    assert(levels_view(r@) =~= levels_view(levels@));
    r
}

impl AudioEngineState {
    /// The level snapshot of the last rendered buffer, and the key of every
    /// active voice (once per voice, in order).
    pub fn get_levels(&self) -> (r: LevelsResponse)
        ensures
            levels_view(r.data@) == levels_view(self.levels@),
            r.active_keys@.len() == self.voices@.len(),
            forall|j: int| 0 <= j < self.voices@.len() ==> (#[trigger] r.active_keys@[j])@
                == self.voices@[j].key@,
    {
        let mut keys: Vec<String> = Vec::new();
        let mut i: usize = 0;
        while i < self.voices.len()
            invariant
                i <= self.voices@.len(),
                keys@.len() == i,
                forall|j: int| 0 <= j < i ==> (#[trigger] keys@[j])@ == self.voices@[j].key@,
            decreases self.voices@.len() - i,
        {
            keys.push(self.voices[i].key.clone());
            i = i + 1;
        }
        LevelsResponse { data: copy_levels(&self.levels), active_keys: keys }
    }
}

} // verus!
