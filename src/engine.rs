use std::sync::Arc;
use vstd::prelude::*;
use crate::analysis::AudioBuffer;
use crate::arith::ONE;
use crate::voice::{Phase, Voice, MAX_RATE};

verus! {

/// Master tempo of a new engine: 120 BPM, in thousandths.
pub const DEFAULT_MASTER_BPM_MILLI: u32 = 120000;

/// A decoded buffer stored under a caller-chosen key.
pub struct BankEntry {
    pub key: String,
    pub buffer: Arc<AudioBuffer>,
}

/// What `load_sound` reports for display.
pub struct LoadResult {
    pub duration_us: u64,
    pub bpm_milli: u32,
    pub waveform: Vec<u16>,
}

/// How a voice is played.
#[derive(Debug, Clone, Copy, PartialEq, Eq, Structural)]
pub struct PlayParams {
    /// Linear gain, `ONE` for unity.
    pub volume: u32,
    /// Attack and release lengths, in microseconds.
    pub attack_us: u64,
    pub release_us: u64,
    pub looping: bool,
    /// Start (also the loop start) and loop end, in microseconds into the buffer.
    pub start_us: u64,
    pub end_us: u64,
    /// Scale the rate so the sample's tempo matches the master tempo.
    pub sync: bool,
    /// The sample's own tempo, in thousandths of a BPM.
    pub sample_bpm_milli: u32,
}

/// Errors of the control operations.
#[derive(Debug, Clone, Copy, PartialEq, Eq, Structural)]
pub enum EngineError {
    /// No buffer is stored under the key.
    NotFound,
}

/// Per-key display data of the last rendered buffer.
pub struct VisualData {
    pub key: String,
    /// Largest instantaneous peak of any voice under the key.
    pub peak: u64,
    /// The first `MAX_VISUAL_SAMPLES` representative samples.
    pub samples: Vec<i64>,
}

/// Level data and the keys of the active voices (one entry per voice).
pub struct LevelsResponse {
    pub data: Vec<VisualData>,
    pub active_keys: Vec<String>,
}

/// Everything the mixer and the control operations share.
pub struct AudioEngineState {
    pub sound_bank: Vec<BankEntry>,
    pub voices: Vec<Voice>,
    /// Linear master gain, `ONE` for unity.
    pub master_volume: u32,
    /// Master tempo, in thousandths of a BPM.
    pub master_bpm: u32,
    /// The output device's sample rate.
    pub sample_rate: u32,
    pub levels: Vec<VisualData>,
}

/// Index of the first entry stored under `k`, or the length if none is.
pub open spec fn bank_index(bank: Seq<BankEntry>, k: Seq<char>) -> int
    decreases bank.len(),
{
    if bank.len() == 0 {
        0
    } else if bank[0].key@ == k {
        0
    } else {
        1 + bank_index(bank.drop_first(), k)
    }
}

proof fn lemma_bank_index(bank: Seq<BankEntry>, k: Seq<char>, i: int)
    requires
        0 <= i <= bank.len(),
        forall|j: int| 0 <= j < i ==> bank[j].key@ != k,
        i < bank.len() ==> bank[i].key@ == k,
    ensures
        bank_index(bank, k) == i,
    decreases i,
{
    if i > 0 {
        lemma_bank_index(bank.drop_first(), k, i - 1);
    }
}

/// Number of output or source frames in `us` microseconds at `rate`, rounded
/// down and saturated at `u64::MAX`.
pub open spec fn frames_of(us: u64, rate: u32) -> u64 {
    let n = (us as int) * (rate as int) / 1_000_000;
    if n > u64::MAX { u64::MAX } else { n as u64 }
}

/// Cursor position of `us` microseconds into a buffer, in fixed point,
/// saturated at `u64::MAX`.
pub open spec fn position_of(us: u64, rate: u32, channels: u16) -> u64 {
    let n = (us as int) * (rate as int) * (channels as int) * (ONE as int) / 1_000_000;
    if n > u64::MAX { u64::MAX } else { n as u64 }
}

/// Playback rate: the file rate over the device rate, times the master tempo
/// over the sample tempo when syncing; fixed point, rounded down, at most
/// `MAX_RATE`.
pub open spec fn rate_of(file_rate: u32, device_rate: u32, sync: bool, master_bpm: u32, sample_bpm: u32) -> u64 {
    let r = if sync && sample_bpm > 0 {
        (file_rate as int) * (ONE as int) * (master_bpm as int) / ((device_rate as int) * (sample_bpm as int))
    } else {
        (file_rate as int) * (ONE as int) / (device_rate as int)
    };
    if r > MAX_RATE { MAX_RATE } else { r as u64 }
}

fn frames_in(us: u64, rate: u32) -> (r: u64)
    ensures
        r == frames_of(us, rate),
{
    proof {
        assert((us as int) * (rate as int) <= 0xFFFF_FFFF_FFFF_FFFF * 0xFFFF_FFFF) by (nonlinear_arith)
            requires us <= 0xFFFF_FFFF_FFFF_FFFF, rate <= 0xFFFF_FFFF;
        assert((us as int) * (rate as int) >= 0) by (nonlinear_arith)
            requires us >= 0, rate >= 0;
    }
    let n = (us as u128) * (rate as u128) / 1_000_000;
    if n > u64::MAX as u128 { u64::MAX } else { n as u64 }
}

fn position_in(us: u64, rate: u32, channels: u16) -> (r: u64)
    requires
        channels <= 2,
    ensures
        r == position_of(us, rate, channels),
{
    proof {
        assert((us as int) * (rate as int) <= 0xFFFF_FFFF_FFFF_FFFF * 0xFFFF_FFFF) by (nonlinear_arith)
            requires us <= 0xFFFF_FFFF_FFFF_FFFF, rate <= 0xFFFF_FFFF;
        assert((us as int) * (rate as int) * (channels as int) <= 0xFFFF_FFFF_FFFF_FFFF * 0xFFFF_FFFF * 2) by (nonlinear_arith)
            requires (us as int) * (rate as int) <= 0xFFFF_FFFF_FFFF_FFFF * 0xFFFF_FFFF, channels <= 2;
        assert((us as int) * (rate as int) * (channels as int) * 65536 <= 0xFFFF_FFFF_FFFF_FFFF * 0xFFFF_FFFF * 2 * 65536) by (nonlinear_arith)
            requires (us as int) * (rate as int) * (channels as int) <= 0xFFFF_FFFF_FFFF_FFFF * 0xFFFF_FFFF * 2;
        assert((us as int) * (rate as int) * (channels as int) * 65536 >= 0) by (nonlinear_arith)
            requires us >= 0, rate >= 0, channels >= 0;
        assert((us as int) * (rate as int) >= 0) by (nonlinear_arith)
            requires us >= 0, rate >= 0;
        assert((us as int) * (rate as int) * (channels as int) >= 0) by (nonlinear_arith)
            requires (us as int) * (rate as int) >= 0, channels >= 0;
    }
    let n = (us as u128) * (rate as u128) * (channels as u128) * (ONE as u128) / 1_000_000;
    if n > u64::MAX as u128 { u64::MAX } else { n as u64 }
}

fn rate_for(file_rate: u32, device_rate: u32, sync: bool, master_bpm: u32, sample_bpm: u32) -> (r: u64)
    requires
        device_rate > 0,
    ensures
        r == rate_of(file_rate, device_rate, sync, master_bpm, sample_bpm),
        r <= MAX_RATE,
{
    let r: u128 = if sync && sample_bpm > 0 {
        proof {
            assert((file_rate as int) * 65536 * (master_bpm as int) <= 0xFFFF_FFFF * 65536 * 0xFFFF_FFFF) by (nonlinear_arith)
                requires file_rate <= 0xFFFF_FFFF, master_bpm <= 0xFFFF_FFFF;
            assert((file_rate as int) * 65536 * (master_bpm as int) >= 0) by (nonlinear_arith)
                requires file_rate >= 0, master_bpm >= 0;
            assert((file_rate as int) * 65536 >= 0) by (nonlinear_arith)
                requires file_rate >= 0;
            assert((device_rate as int) * (sample_bpm as int) <= 0xFFFF_FFFF * 0xFFFF_FFFF) by (nonlinear_arith)
                requires device_rate <= 0xFFFF_FFFF, sample_bpm <= 0xFFFF_FFFF;
            assert((device_rate as int) * (sample_bpm as int) >= 1) by (nonlinear_arith)
                requires device_rate >= 1, sample_bpm >= 1;
        }
        (file_rate as u128) * (ONE as u128) * (master_bpm as u128) / ((device_rate as u128) * (sample_bpm as u128))
    } else {
        (file_rate as u128) * (ONE as u128) / (device_rate as u128)
    };
    if r > MAX_RATE as u128 { MAX_RATE } else { r as u64 }
}

/// The voice that `play_sound` starts for `buffer`.
pub open spec fn voice_for(
    key: String,
    buffer: Arc<AudioBuffer>,
    p: PlayParams,
    device_rate: u32,
    master_bpm: u32,
) -> Voice {
    Voice {
        key: key,
        buffer: buffer,
        position: position_of(p.start_us, buffer.sample_rate, buffer.channels),
        rate: rate_of(buffer.sample_rate, device_rate, p.sync, master_bpm, p.sample_bpm_milli),
        looping: p.looping,
        loop_start: position_of(p.start_us, buffer.sample_rate, buffer.channels),
        loop_end: position_of(p.end_us, buffer.sample_rate, buffer.channels),
        gain: p.volume,
        attack_samples: frames_of(p.attack_us, device_rate),
        release_samples: frames_of(p.release_us, device_rate),
        attack_progress: 0,
        phase: Phase::Playing,
        stop_requested: false,
        release_override: false,
        fade_start_gain: ONE,
        fade_elapsed: 0,
        peak: 0,
    }
}

/// A voice under `k` that is still playing is marked for release; an explicit
/// release length (in output frames) replaces its own and suppresses the
/// symmetric fade. Other voices are left alone.
pub open spec fn stop_voice(v: Voice, k: Seq<char>, release: Option<u64>) -> Voice {
    if v.key@ == k && v.phase == Phase::Playing {
        Voice {
            release_samples: match release { Some(r) => r, None => v.release_samples },
            release_override: release is Some || v.release_override,
            stop_requested: true,
            ..v
        }
    } else {
        v
    }
}

/// A voice under `k` takes the new gain, loop flag and loop bounds; its
/// cursor and envelope are untouched.
pub open spec fn retune_voice(v: Voice, k: Seq<char>, p: PlayParams) -> Voice {
    if v.key@ == k {
        Voice {
            gain: p.volume,
            looping: p.looping,
            loop_start: position_of(p.start_us, v.buffer.sample_rate, v.buffer.channels),
            loop_end: position_of(p.end_us, v.buffer.sample_rate, v.buffer.channels),
            ..v
        }
    } else {
        v
    }
}

/// A voice that is still playing starts fading out from the next frame.
pub open spec fn silence_voice(v: Voice) -> Voice {
    if v.phase == Phase::Playing {
        Voice { phase: Phase::Releasing, fade_elapsed: 0, ..v }
    } else {
        v
    }
}

/// Stopping a voice that is already fading changes nothing, and stopping a
/// voice twice is the same as stopping it once.
pub proof fn lemma_stop_idempotent(v: Voice, k: Seq<char>, release: Option<u64>)
    ensures
        v.phase == Phase::Releasing ==> stop_voice(v, k, release) == v,
        stop_voice(stop_voice(v, k, release), k, release) == stop_voice(v, k, release),
{
}

impl AudioEngineState {
    pub open spec fn wf(&self) -> bool {
        &&& self.sample_rate > 0
        &&& forall|i: int| 0 <= i < self.sound_bank@.len() ==> (#[trigger] self.sound_bank@[i]).buffer.wf()
        &&& forall|i: int, j: int| 0 <= i < j < self.sound_bank@.len()
            ==> (#[trigger] self.sound_bank@[i]).key@ != (#[trigger] self.sound_bank@[j]).key@
        &&& forall|i: int| 0 <= i < self.voices@.len() ==> (#[trigger] self.voices@[i]).wf()
    }

    /// An engine for an output device running at `sample_rate`: no buffers, no
    /// voices, unity master volume, a master tempo of 120 BPM.
    pub fn new(sample_rate: u32) -> (s: AudioEngineState)
        requires
            sample_rate > 0,
        ensures
            s.wf(),
            s.sound_bank@.len() == 0,
            s.voices@.len() == 0,
            s.levels@.len() == 0,
            s.master_volume == ONE,
            s.master_bpm == DEFAULT_MASTER_BPM_MILLI,
            s.sample_rate == sample_rate,
    {
        AudioEngineState {
            sound_bank: Vec::new(),
            voices: Vec::new(),
            master_volume: ONE as u32,
            master_bpm: DEFAULT_MASTER_BPM_MILLI,
            sample_rate,
            levels: Vec::new(),
        }
    }

    /// Position of the buffer stored under `key`, or the bank's length.
    pub fn find_sound(&self, key: &String) -> (r: usize)
        ensures
            r == bank_index(self.sound_bank@, key@),
            r <= self.sound_bank@.len(),
            forall|j: int| 0 <= j < r ==> self.sound_bank@[j].key@ != key@,
            r < self.sound_bank@.len() ==> self.sound_bank@[r as int].key@ == key@,
    {
        let mut i: usize = 0;
        while i < self.sound_bank.len()
            invariant
                i <= self.sound_bank@.len(),
                forall|j: int| 0 <= j < i ==> self.sound_bank@[j].key@ != key@,
            decreases self.sound_bank@.len() - i,
        {
            if self.sound_bank[i].key == *key {
                proof {
                    lemma_bank_index(self.sound_bank@, key@, i as int);
                }
                return i;
            }
            i = i + 1;
        }
        proof {
            lemma_bank_index(self.sound_bank@, key@, i as int);
        }
        i
    }

    /// Stores a decoded buffer under `key`, replacing any buffer stored under
    /// it, and reports its duration, tempo and waveform. Voices playing the
    /// replaced buffer keep playing it.
    pub fn load_sound(&mut self, key: String, buffer: AudioBuffer) -> (r: LoadResult)
        requires
            old(self).wf(),
            buffer.wf(),
        ensures
            final(self).wf(),
            ({
                let i = bank_index(old(self).sound_bank@, key@);
                &&& final(self).sound_bank@.len() == if i < old(self).sound_bank@.len() {
                    old(self).sound_bank@.len() as int
                } else {
                    (old(self).sound_bank@.len() + 1) as int
                }
                &&& final(self).sound_bank@[i].key@ == key@
                &&& *final(self).sound_bank@[i].buffer == buffer
                &&& forall|j: int| 0 <= j < old(self).sound_bank@.len() && j != i
                    ==> #[trigger] final(self).sound_bank@[j] == old(self).sound_bank@[j]
            }),
            final(self).voices@ == old(self).voices@,
            final(self).levels@ == old(self).levels@,
            final(self).master_volume == old(self).master_volume,
            final(self).master_bpm == old(self).master_bpm,
            final(self).sample_rate == old(self).sample_rate,
            r.duration_us == buffer.duration_us,
            r.bpm_milli == buffer.bpm_milli,
            r.waveform@ == buffer.waveform@,
    {
        let r = LoadResult {
            duration_us: buffer.duration_us,
            bpm_milli: buffer.bpm_milli,
            waveform: buffer.waveform.clone(),
        };
        let i = self.find_sound(&key);
        let ghost k = key@;
        let entry = BankEntry { key, buffer: Arc::new(buffer) };
        if i < self.sound_bank.len() {
            self.sound_bank.set(i, entry);
        } else {
            self.sound_bank.push(entry);
        }
        proof {
            let ob = old(self).sound_bank@;
            let nb = self.sound_bank@;
            assert forall|a: int, b: int| 0 <= a < b < nb.len()
                implies (#[trigger] nb[a]).key@ != (#[trigger] nb[b]).key@ by {
                assert(nb[i as int].key@ == k);
                if a == i {
                    assert(ob[b].key@ != ob[a].key@);
                } else if b == i {
                    if b < ob.len() {
                        assert(ob[a].key@ != ob[b].key@);
                    } else {
                        assert(ob[a].key@ != k);
                    }
                } else {
                    assert(ob[a].key@ != ob[b].key@);
                }
            }
            assert forall|a: int| 0 <= a < nb.len() implies (#[trigger] nb[a]).buffer.wf() by {
                if a != i {
                    assert(nb[a] == ob[a]);
                }
            }
        }
        r
    }

    /// The waveform of the buffer stored under `key`, or an empty one.
    pub fn get_buffer_waveform(&self, key: &String) -> (r: Vec<u16>)
        ensures
            ({
                let i = bank_index(self.sound_bank@, key@);
                r@ == if i < self.sound_bank@.len() {
                    self.sound_bank@[i].buffer.waveform@
                } else {
                    Seq::<u16>::empty()
                }
            }),
    {
        let i = self.find_sound(key);
        if i < self.sound_bank.len() {
            self.sound_bank[i].buffer.waveform.clone()
        } else {
            Vec::new()
        }
    }
    /// Starts a new voice playing the buffer stored under `key`. Voices already
    /// playing under the key go on: retriggering is polyphonic.
    pub fn play_sound(&mut self, key: String, params: PlayParams) -> (r: Result<(), EngineError>)
        requires
            old(self).wf(),
        ensures
            final(self).wf(),
            ({
                let i = bank_index(old(self).sound_bank@, key@);
                if i < old(self).sound_bank@.len() {
                    &&& r == Ok::<(), EngineError>(())
                    &&& final(self).voices@ == old(self).voices@.push(voice_for(
                        key,
                        old(self).sound_bank@[i].buffer,
                        params,
                        old(self).sample_rate,
                        old(self).master_bpm,
                    ))
                } else {
                    &&& r == Err::<(), EngineError>(EngineError::NotFound)
                    &&& final(self).voices@ == old(self).voices@
                }
            }),
            final(self).sound_bank@ == old(self).sound_bank@,
            final(self).levels@ == old(self).levels@,
            final(self).master_volume == old(self).master_volume,
            final(self).master_bpm == old(self).master_bpm,
            final(self).sample_rate == old(self).sample_rate,
    {
        let i = self.find_sound(&key);
        if i >= self.sound_bank.len() {
            return Err(EngineError::NotFound);
        }
        let buffer = self.sound_bank[i].buffer.clone();
        proof {
            assert(self.sound_bank@[i as int].buffer.wf());
        }
        let file_rate = buffer.sample_rate;
        let channels = buffer.channels;
        let start = position_in(params.start_us, file_rate, channels);
        let voice = Voice {
            key,
            position: start,
            rate: rate_for(file_rate, self.sample_rate, params.sync, self.master_bpm, params.sample_bpm_milli),
            looping: params.looping,
            loop_start: start,
            loop_end: position_in(params.end_us, file_rate, channels),
            gain: params.volume,
            attack_samples: frames_in(params.attack_us, self.sample_rate),
            release_samples: frames_in(params.release_us, self.sample_rate),
            attack_progress: 0,
            phase: Phase::Playing,
            stop_requested: false,
            release_override: false,
            fade_start_gain: ONE,
            fade_elapsed: 0,
            peak: 0,
            buffer,
        };
        self.voices.push(voice);
        proof {
            assert forall|j: int| 0 <= j < self.voices@.len() implies (#[trigger] self.voices@[j]).wf() by {
                if j < old(self).voices@.len() {
                    assert(self.voices@[j] == old(self).voices@[j]);
                }
            }
        }
        Ok(())
    }

    /// Marks every voice under `key` that is still playing for release. With
    /// `release_us`, its release lasts that long instead of its own length,
    /// and the symmetric fade is suppressed.
    pub fn stop_sound(&mut self, key: String, release_us: Option<u64>)
        requires
            old(self).wf(),
        ensures
            final(self).wf(),
            final(self).voices@.len() == old(self).voices@.len(),
            forall|j: int| 0 <= j < old(self).voices@.len() ==> #[trigger] final(self).voices@[j]
                == stop_voice(
                    old(self).voices@[j],
                    key@,
                    match release_us {
                        Some(us) => Some(frames_of(us, old(self).sample_rate)),
                        None => None,
                    },
                ),
            final(self).sound_bank@ == old(self).sound_bank@,
            final(self).levels@ == old(self).levels@,
            final(self).master_volume == old(self).master_volume,
            final(self).master_bpm == old(self).master_bpm,
            final(self).sample_rate == old(self).sample_rate,
    {
        let release: Option<u64> = match release_us {
            Some(us) => Some(frames_in(us, self.sample_rate)),
            None => None,
        };
        let mut i: usize = 0;
        while i < self.voices.len()
            invariant
                i <= self.voices@.len(),
                self.voices@.len() == old(self).voices@.len(),
                forall|j: int| 0 <= j < i ==> #[trigger] self.voices@[j] == stop_voice(
                    old(self).voices@[j],
                    key@,
                    release,
                ),
                forall|j: int| i <= j < self.voices@.len() ==> #[trigger] self.voices@[j]
                    == old(self).voices@[j],
                self.sound_bank@ == old(self).sound_bank@,
                self.levels@ == old(self).levels@,
                self.master_volume == old(self).master_volume,
                self.master_bpm == old(self).master_bpm,
                self.sample_rate == old(self).sample_rate,
            decreases self.voices@.len() - i,
        {
            if self.voices[i].key == key && self.voices[i].phase == Phase::Playing {
                match release {
                    Some(r) => {
                        self.voices[i].release_samples = r;
                        self.voices[i].release_override = true;
                    },
                    None => {},
                }
                self.voices[i].stop_requested = true;
            }
            i = i + 1;
        }
        proof {
            assert forall|j: int| 0 <= j < self.voices@.len() implies (#[trigger] self.voices@[j]).wf() by {
                assert(old(self).voices@[j].wf());
            }
        }
    }

    /// Gives every voice under `key` the gain, loop flag and loop bounds of
    /// `params`, without moving its cursor.
    pub fn update_voice(&mut self, key: String, params: PlayParams)
        requires
            old(self).wf(),
        ensures
            final(self).wf(),
            final(self).voices@.len() == old(self).voices@.len(),
            forall|j: int| 0 <= j < old(self).voices@.len() ==> #[trigger] final(self).voices@[j]
                == retune_voice(old(self).voices@[j], key@, params),
            final(self).sound_bank@ == old(self).sound_bank@,
            final(self).levels@ == old(self).levels@,
            final(self).master_volume == old(self).master_volume,
            final(self).master_bpm == old(self).master_bpm,
            final(self).sample_rate == old(self).sample_rate,
    {
        let mut i: usize = 0;
        while i < self.voices.len()
            invariant
                i <= self.voices@.len(),
                self.voices@.len() == old(self).voices@.len(),
                forall|j: int| 0 <= j < self.voices@.len() ==> (#[trigger] old(self).voices@[j]).wf(),
                forall|j: int| 0 <= j < i ==> #[trigger] self.voices@[j] == retune_voice(
                    old(self).voices@[j],
                    key@,
                    params,
                ),
                forall|j: int| i <= j < self.voices@.len() ==> #[trigger] self.voices@[j]
                    == old(self).voices@[j],
                self.sound_bank@ == old(self).sound_bank@,
                self.levels@ == old(self).levels@,
                self.master_volume == old(self).master_volume,
                self.master_bpm == old(self).master_bpm,
                self.sample_rate == old(self).sample_rate,
            decreases self.voices@.len() - i,
        {
            if self.voices[i].key == key {
                proof {
                    assert(old(self).voices@[i as int].wf());
                }
                let file_rate = self.voices[i].buffer.sample_rate;
                let channels = self.voices[i].buffer.channels;
                self.voices[i].gain = params.volume;
                self.voices[i].looping = params.looping;
                self.voices[i].loop_start = position_in(params.start_us, file_rate, channels);
                self.voices[i].loop_end = position_in(params.end_us, file_rate, channels);
            }
            i = i + 1;
        }
        proof {
            assert forall|j: int| 0 <= j < self.voices@.len() implies (#[trigger] self.voices@[j]).wf() by {
                assert(old(self).voices@[j].wf());
            }
        }
    }

    /// Starts the fade-out of every voice that is not already fading.
    pub fn stop_all(&mut self)
        requires
            old(self).wf(),
        ensures
            final(self).wf(),
            final(self).voices@.len() == old(self).voices@.len(),
            forall|j: int| 0 <= j < old(self).voices@.len() ==> #[trigger] final(self).voices@[j]
                == silence_voice(old(self).voices@[j]),
            final(self).sound_bank@ == old(self).sound_bank@,
            final(self).levels@ == old(self).levels@,
            final(self).master_volume == old(self).master_volume,
            final(self).master_bpm == old(self).master_bpm,
            final(self).sample_rate == old(self).sample_rate,
    {
        let mut i: usize = 0;
        while i < self.voices.len()
            invariant
                i <= self.voices@.len(),
                self.voices@.len() == old(self).voices@.len(),
                forall|j: int| 0 <= j < i ==> #[trigger] self.voices@[j] == silence_voice(
                    old(self).voices@[j],
                ),
                forall|j: int| i <= j < self.voices@.len() ==> #[trigger] self.voices@[j]
                    == old(self).voices@[j],
                self.sound_bank@ == old(self).sound_bank@,
                self.levels@ == old(self).levels@,
                self.master_volume == old(self).master_volume,
                self.master_bpm == old(self).master_bpm,
                self.sample_rate == old(self).sample_rate,
            decreases self.voices@.len() - i,
        {
            if self.voices[i].phase == Phase::Playing {
                self.voices[i].phase = Phase::Releasing;
                self.voices[i].fade_elapsed = 0;
            }
            i = i + 1;
        }
        proof {
            assert forall|j: int| 0 <= j < self.voices@.len() implies (#[trigger] self.voices@[j]).wf() by {
                assert(old(self).voices@[j].wf());
            }
        }
    }

    /// Sets the master gain (`ONE` for unity).
    pub fn set_master_volume(&mut self, volume: u32)
        ensures
            final(self).master_volume == volume,
            final(self).sound_bank@ == old(self).sound_bank@,
            final(self).voices@ == old(self).voices@,
            final(self).levels@ == old(self).levels@,
            final(self).master_bpm == old(self).master_bpm,
            final(self).sample_rate == old(self).sample_rate,
    {
        self.master_volume = volume;
    }

    /// Sets the master tempo, in thousandths of a BPM; voices started later
    /// with tempo sync follow it.
    pub fn set_master_bpm(&mut self, bpm_milli: u32)
        ensures
            final(self).master_bpm == bpm_milli,
            final(self).sound_bank@ == old(self).sound_bank@,
            final(self).voices@ == old(self).voices@,
            final(self).levels@ == old(self).levels@,
            final(self).master_volume == old(self).master_volume,
            final(self).sample_rate == old(self).sample_rate,
    {
        self.master_bpm = bpm_milli;
    }
}

} // verus!
