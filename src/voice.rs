use std::sync::Arc;
use vstd::prelude::*;
use crate::analysis::AudioBuffer;
use crate::arith::{floor_div, ONE};

verus! {

/// Largest playback rate: 2^24 source samples per output frame, in fixed point.
pub const MAX_RATE: u64 = 0x100_0000_0000;

/// Where a voice is in its envelope.
#[derive(Debug, Clone, Copy, PartialEq, Eq, Structural)]
pub enum Phase {
    /// Attack, then sustain.
    Playing,
    /// Fading out; the voice retires when the fade completes.
    Releasing,
}

/// What one voice contributes to one output frame.
#[derive(Debug, Clone, Copy, PartialEq, Eq, Structural)]
pub struct FrameOutput {
    /// Left and right contributions, in fixed point (`ONE` per step of a 16-bit sample).
    pub left: i64,
    pub right: i64,
    /// Instantaneous peak magnitude before gain.
    pub peak: u64,
    /// Representative sample before gain, for display.
    pub visual: i64,
}

/// One playback of a buffer: a fractional cursor, a rate, loop bounds, a gain
/// and an attack/release envelope.
///
/// Positions count interleaved samples in fixed point (`ONE` per sample); the
/// rate is the number of source frames per output frame, in fixed point.
/// Envelope lengths count output frames.
pub struct Voice {
    pub key: String,
    pub buffer: Arc<AudioBuffer>,
    pub position: u64,
    pub rate: u64,
    pub looping: bool,
    pub loop_start: u64,
    pub loop_end: u64,
    /// Linear gain, `ONE` for unity.
    pub gain: u32,
    pub attack_samples: u64,
    pub release_samples: u64,
    /// Frames of attack completed, counted up to `attack_samples`.
    pub attack_progress: u64,
    pub phase: Phase,
    /// A stop was requested and takes effect on the next frame.
    pub stop_requested: bool,
    /// The caller fixed the release length when stopping.
    pub release_override: bool,
    /// Envelope gain at the moment the fade began, at most `ONE`.
    pub fade_start_gain: u64,
    /// Frames of fade completed.
    pub fade_elapsed: u64,
    /// Peak magnitude of the last frame rendered.
    pub peak: u64,
}

pub open spec fn abs_int(x: int) -> int {
    if x < 0 { -x } else { x }
}

impl Voice {
    pub open spec fn wf(&self) -> bool {
        &&& self.buffer.wf()
        &&& self.rate <= MAX_RATE
        &&& self.fade_start_gain <= ONE
        &&& self.attack_progress <= self.attack_samples
    }

    /// Samples per frame of the source.
    pub open spec fn width(&self) -> int {
        self.buffer.channels as int
    }

    pub open spec fn len(&self) -> int {
        self.buffer.data@.len() as int
    }

    /// Attack gain: rising linearly from zero to `ONE` over the attack.
    pub open spec fn attack_gain(&self) -> int {
        if self.attack_progress < self.attack_samples {
            (self.attack_progress as int) * (ONE as int) / (self.attack_samples as int)
        } else {
            ONE as int
        }
    }

    /// A requested stop takes effect this frame.
    pub open spec fn stop_arrives(&self) -> bool {
        self.stop_requested && self.phase == Phase::Playing
    }

    /// Release length in force from this frame: a stop during the attack,
    /// without an explicit release, fades out over the attack completed so far.
    pub open spec fn effective_release(&self) -> int {
        if self.stop_arrives() && !self.release_override && self.attack_progress
            < self.attack_samples {
            self.attack_progress as int
        } else {
            self.release_samples as int
        }
    }

    /// A one-shot voice begins its release when the output frames left before
    /// the loop end are no more than the release length.
    pub open spec fn reaches_end(&self) -> bool {
        &&& self.phase == Phase::Playing
        &&& !self.stop_arrives()
        &&& !self.looping
        &&& self.loop_end <= self.position + (self.release_samples as int) * (self.rate as int)
            * self.width()
    }

    pub open spec fn fading(&self) -> bool {
        self.phase == Phase::Releasing || self.stop_arrives() || self.reaches_end()
    }

    /// Fade frames completed, counted from this frame's state.
    pub open spec fn fade_elapsed_now(&self) -> int {
        if self.phase == Phase::Releasing { self.fade_elapsed as int } else { 0 }
    }

    /// Gain the fade starts from: taken from the attack when the fade starts.
    pub open spec fn fade_start_now(&self) -> int {
        if self.fade_elapsed_now() == 0 { self.attack_gain() } else { self.fade_start_gain as int }
    }

    pub open spec fn release_complete(&self) -> bool {
        self.fading() && self.fade_elapsed_now() >= self.effective_release()
    }

    /// Envelope gain for this frame, `ONE` for unity.
    pub open spec fn envelope(&self) -> int {
        if self.fading() {
            self.fade_start_now() * (self.effective_release() - self.fade_elapsed_now())
                / self.effective_release()
        } else {
            self.attack_gain()
        }
    }

    /// First interleaved sample of the frame under the cursor.
    pub open spec fn frame_index(&self) -> int {
        self.width() * ((self.position as int) / ((ONE as int) * self.width()))
    }

    /// Fractional part of the cursor within its frame, in fixed point.
    pub open spec fn frame_frac(&self) -> int {
        ((self.position as int) % ((ONE as int) * self.width())) / self.width()
    }

    /// The whole frame under the cursor lies inside the buffer.
    pub open spec fn index_in_range(&self) -> bool {
        self.frame_index() + self.width() <= self.len()
    }

    /// The voice produces output this frame; otherwise it retires.
    pub open spec fn sounds(&self) -> bool {
        !self.release_complete() && self.index_in_range()
    }

    /// Channel `c` of the frame under the cursor, interpolated linearly with
    /// the next frame (or with itself at the end of the buffer), in fixed point.
    pub open spec fn interpolated(&self, c: int) -> int {
        let i = self.frame_index() + c;
        let j = i + self.width();
        let a = self.buffer.data@[i] as int;
        let b = if j < self.len() { self.buffer.data@[j] as int } else { a };
        a * ((ONE as int) - self.frame_frac()) + b * self.frame_frac()
    }

    /// Gain times envelope, with `ONE * ONE` for unity.
    pub open spec fn amplitude(&self) -> int {
        (self.gain as int) * self.envelope()
    }

    pub open spec fn out_left(&self) -> int {
        self.interpolated(0) * self.amplitude() / ((ONE as int) * (ONE as int))
    }

    pub open spec fn out_right(&self) -> int {
        let c = if self.width() == 1 { 0 } else { 1 };
        self.interpolated(c) * self.amplitude() / ((ONE as int) * (ONE as int))
    }

    pub open spec fn frame_peak(&self) -> int {
        if self.width() == 1 {
            abs_int(self.interpolated(0))
        } else {
            (abs_int(self.interpolated(0)) + abs_int(self.interpolated(1))) / 2
        }
    }

    pub open spec fn frame_visual(&self) -> int {
        if self.width() == 1 {
            self.interpolated(0)
        } else {
            (self.interpolated(0) + self.interpolated(1)) / 2
        }
    }

    pub open spec fn advanced_position(&self) -> int {
        self.position + (self.rate as int) * self.width()
    }

    /// A looping voice that is not fading returns to the loop start once it
    /// reaches the loop end or the end of the buffer.
    pub open spec fn wraps(&self) -> bool {
        &&& !self.fading()
        &&& self.looping
        &&& (self.advanced_position() >= self.loop_end || self.advanced_position() >= self.len()
            * (ONE as int))
    }

    pub open spec fn next_position(&self) -> int {
        if self.wraps() { self.loop_start as int } else { self.advanced_position() }
    }

    /// The voice stays active after this frame.
    pub open spec fn survives(&self) -> bool {
        self.sounds() && self.next_position() < self.len() * (ONE as int)
    }

    /// The voice after rendering one frame.
    pub open spec fn stepped(&self) -> Voice {
        Voice {
            key: self.key,
            buffer: self.buffer,
            position: self.next_position() as u64,
            rate: self.rate,
            looping: self.looping,
            loop_start: self.loop_start,
            loop_end: self.loop_end,
            gain: self.gain,
            attack_samples: self.attack_samples,
            release_samples: self.effective_release() as u64,
            attack_progress: if !self.fading() && self.attack_progress < self.attack_samples {
                (self.attack_progress + 1) as u64
            } else {
                self.attack_progress
            },
            phase: if self.fading() { Phase::Releasing } else { Phase::Playing },
            stop_requested: self.stop_requested,
            release_override: self.release_override,
            fade_start_gain: if self.fading() { self.fade_start_now() as u64 } else { self.fade_start_gain },
            fade_elapsed: if self.fading() { (self.fade_elapsed_now() + 1) as u64 } else { self.fade_elapsed },
            peak: self.frame_peak() as u64,
        }
    }

    /// What this frame contributes to the mix.
    pub open spec fn output(&self) -> FrameOutput {
        FrameOutput {
            left: self.out_left() as i64,
            right: self.out_right() as i64,
            peak: self.frame_peak() as u64,
            visual: self.frame_visual() as i64,
        }
    }
}

proof fn lemma_scaled_bound(x: int)
    requires
        -0x1_0000_0000_0000_0000_0000 <= x <= 0x1_0000_0000_0000_0000_0000,
    ensures
        -0x1_0000_0000_0000 <= x / 0x1_0000_0000 <= 0x1_0000_0000_0000,
{
    let d: int = 0x1_0000_0000;
    let b: int = 0x1_0000_0000_0000_0000_0000;
    vstd::arithmetic::div_mod::lemma_div_is_ordered(x, b, d);
    vstd::arithmetic::div_mod::lemma_div_is_ordered(-b, x, d);
}

impl Voice {
    /// The cursor lies inside the buffer.
    pub fn in_buffer(&self) -> (r: bool)
        requires
            self.wf(),
        ensures
            r == (self.position < self.len() * (ONE as int)),
    {
        let len = self.buffer.data.len() as u64;
        self.position < len * ONE
    }

    /// Interpolates channel `c` of the frame starting at `idx`.
    fn interpolate(&self, idx: u64, c: u64, frac: u64) -> (r: i64)
        requires
            self.wf(),
            idx == self.frame_index(),
            frac == self.frame_frac(),
            frac < ONE,
            c < self.width(),
            self.index_in_range(),
        ensures
            r == self.interpolated(c as int),
            -0x8000_0000 <= r <= 0x8000_0000,
    {
        let len = self.buffer.data.len() as u64;
        let w = self.buffer.channels as u64;
        let i = idx + c;
        let j = i + w;
        let a = self.buffer.data[i as usize] as i64;
        let b = if j < len { self.buffer.data[j as usize] as i64 } else { a };
        let f = frac as i64;
        proof {
            assert(-32768 <= a <= 32767 && -32768 <= b <= 32767);
            assert(-32768 * (65536 - f) <= a * (65536 - f) <= 32767 * (65536 - f)) by (nonlinear_arith)
                requires -32768 <= a <= 32767, 0 <= f < 65536;
            assert(-32768 * f <= b * f <= 32767 * f) by (nonlinear_arith)
                requires -32768 <= b <= 32767, 0 <= f < 65536;
        }
        a * (65536 - f) + b * f
    }

    /// Renders one frame: applies a pending stop, starts a release near the
    /// end of a one-shot, advances the envelope and the cursor, and wraps a
    /// looping voice. Returns the frame's contribution, or `None` when the
    /// voice retires instead (release complete, or cursor outside the buffer).
    pub fn step(&mut self) -> (r: Option<FrameOutput>)
        requires
            old(self).wf(),
        ensures
            r is Some == old(self).sounds(),
            old(self).sounds() ==> r == Some(old(self).output()) && *final(self) == old(self).stepped()
                && final(self).wf(),
            !old(self).sounds() ==> *final(self) == *old(self),
            old(self).sounds() ==> final(self).position as int == old(self).next_position(),
            old(self).sounds() ==> -0x1_0000_0000_0000 <= old(self).out_left() <= 0x1_0000_0000_0000
                && -0x1_0000_0000_0000 <= old(self).out_right() <= 0x1_0000_0000_0000,
    {
        let ghost v0 = *self;
        let w = self.buffer.channels as u64;
        let len = self.buffer.data.len() as u64;
        proof {
            assert(1 <= w <= 2);
        }
        // attack gain
        let attack_gain: u64 = if self.attack_progress < self.attack_samples {
            let g = (self.attack_progress as u128) * (ONE as u128) / (self.attack_samples as u128);
            proof {
                assert((self.attack_progress as int) * 65536 / (self.attack_samples as int) <= 65536)
                    by (nonlinear_arith)
                    requires self.attack_progress < self.attack_samples;
            }
            g as u64
        } else {
            ONE
        };
        assert(attack_gain <= ONE);
        // a pending stop, with the symmetric release
        let stop_arrives = self.stop_requested && self.phase == Phase::Playing;
        let release: u64 = if stop_arrives && !self.release_override && self.attack_progress
            < self.attack_samples {
            self.attack_progress
        } else {
            self.release_samples
        };
        // natural release of a one-shot
        proof {
            assert((self.release_samples as int) * (self.rate as int) * (w as int)
                <= 0xFFFF_FFFF_FFFF_FFFF * 0x100_0000_0000 * 2) by (nonlinear_arith)
                requires self.release_samples <= 0xFFFF_FFFF_FFFF_FFFF,
                    self.rate <= 0x100_0000_0000, 1 <= w <= 2;
            assert((self.release_samples as int) * (self.rate as int) * (w as int) >= 0) by (nonlinear_arith)
                requires 0 <= self.release_samples, 0 <= self.rate, 1 <= w;
        }
        proof {
            assert((self.release_samples as int) * (self.rate as int)
                <= 0xFFFF_FFFF_FFFF_FFFF * 0x100_0000_0000) by (nonlinear_arith)
                requires self.release_samples <= 0xFFFF_FFFF_FFFF_FFFF, self.rate <= 0x100_0000_0000;
            assert((self.release_samples as int) * (self.rate as int) >= 0) by (nonlinear_arith)
                requires 0 <= self.release_samples, 0 <= self.rate;
        }
        let reach = (self.release_samples as u128) * (self.rate as u128) * (w as u128);
        let reaches_end = self.phase == Phase::Playing && !stop_arrives && !self.looping
            && (self.loop_end as u128) <= (self.position as u128) + reach;
        let fading = self.phase == Phase::Releasing || stop_arrives || reaches_end;
        let elapsed: u64 = if self.phase == Phase::Releasing { self.fade_elapsed } else { 0 };
        let fade_start: u64 = if elapsed == 0 { attack_gain } else { self.fade_start_gain };
        if fading && elapsed >= release {
            return None;
        }
        let envelope: u64 = if fading {
            proof {
                assert((fade_start as int) * ((release - elapsed) as int) / (release as int) <= 65536)
                    by (nonlinear_arith)
                    requires fade_start <= 65536, elapsed < release;
                assert((fade_start as int) * ((release - elapsed) as int) <= 65536 * 0xFFFF_FFFF_FFFF_FFFF)
                    by (nonlinear_arith)
                    requires fade_start <= 65536, elapsed < release, release <= 0xFFFF_FFFF_FFFF_FFFF;
            }
            ((fade_start as u128) * ((release - elapsed) as u128) / (release as u128)) as u64
        } else {
            attack_gain
        };
        // the frame under the cursor
        let unit = ONE * w;
        proof {
            vstd::arithmetic::div_mod::lemma_fundamental_div_mod(self.position as int, unit as int);
            vstd::arithmetic::div_mod::lemma_mod_bound(self.position as int, unit as int);
            assert(w * (self.position / unit) <= self.position) by (nonlinear_arith)
                requires
                    self.position == unit * (self.position / unit) + self.position % unit,
                    self.position % unit >= 0,
                    unit == 65536 * w,
                    1 <= w,
                    self.position / unit >= 0;
        }
        let idx = w * (self.position / unit);
        let frac = (self.position % unit) / w;
        proof {
            assert(idx as int == v0.frame_index());
            assert(frac as int == v0.frame_frac());
            vstd::arithmetic::div_mod::lemma_mod_bound(self.position as int, unit as int);
            assert(frac < ONE) by (nonlinear_arith)
                requires frac == (self.position % unit) / w, self.position % unit < unit, unit == 65536 * w, 1 <= w;
            vstd::arithmetic::div_mod::lemma_div_is_ordered_by_denominator(self.position as int, 1, unit as int);
            assert(idx <= 2 * self.position) by (nonlinear_arith)
                requires idx == w * (self.position / unit), self.position / unit <= self.position, w <= 2;
        }
        if idx + w > len {
            return None;
        }
        proof {
            vstd::arithmetic::div_mod::lemma_fundamental_div_mod(self.position as int, unit as int);
            assert(self.position < 65536 * len) by (nonlinear_arith)
                requires
                    self.position == unit * (self.position / unit) + self.position % unit,
                    self.position % unit < unit,
                    unit == 65536 * w,
                    idx == w * (self.position / unit),
                    idx + w <= len;
        }
        proof {
            assert((self.gain as int) * (envelope as int) <= 0xFFFF_FFFF * 65536) by (nonlinear_arith)
                requires envelope <= 65536, self.gain <= 0xFFFF_FFFF;
        }
        let amp = (self.gain as u64) * envelope;
        let l = self.interpolate(idx, 0, frac);
        let r = if w == 1 { l } else { self.interpolate(idx, 1, frac) };
        proof {
            assert(-0x8000_0000 * 0xFFFF_FFFF * 65536 <= (l as int) * (amp as int) <= 0x8000_0000 * 0xFFFF_FFFF * 65536)
                by (nonlinear_arith)
                requires -0x8000_0000 <= l <= 0x8000_0000, 0 <= amp <= 0xFFFF_FFFF * 65536;
            assert(-0x8000_0000 * 0xFFFF_FFFF * 65536 <= (r as int) * (amp as int) <= 0x8000_0000 * 0xFFFF_FFFF * 65536)
                by (nonlinear_arith)
                requires -0x8000_0000 <= r <= 0x8000_0000, 0 <= amp <= 0xFFFF_FFFF * 65536;
        }
        let left = floor_div((l as i128) * (amp as i128), ONE * ONE);
        let right = floor_div((r as i128) * (amp as i128), ONE * ONE);
        proof {
            lemma_scaled_bound((l as int) * (amp as int));
            lemma_scaled_bound((r as int) * (amp as int));
        }
        let la: u64 = if l < 0 { (-l) as u64 } else { l as u64 };
        let ra: u64 = if r < 0 { (-r) as u64 } else { r as u64 };
        let peak: u64 = if w == 1 { la } else { (la + ra) / 2 };
        let visual: i64 = if w == 1 { l } else { floor_div((l as i128) + (r as i128), 2) as i64 };
        // envelope counters
        if fading {
            self.phase = Phase::Releasing;
            self.release_samples = release;
            self.fade_start_gain = fade_start;
            self.fade_elapsed = elapsed + 1;
        } else if self.attack_progress < self.attack_samples {
            self.attack_progress = self.attack_progress + 1;
        }
        self.peak = peak;
        // advance, then wrap a loop
        proof {
            assert(self.rate * w <= 0x100_0000_0000 * 2) by (nonlinear_arith)
                requires self.rate <= 0x100_0000_0000, w <= 2;
        }
        let advanced = self.position + self.rate * w;
        if !fading && self.looping && (advanced >= self.loop_end || advanced >= len * ONE) {
            self.position = self.loop_start;
        } else {
            self.position = advanced;
        }
        proof {
            assert(v0.envelope() == envelope);
            assert(v0.interpolated(0) == l);
            assert(*self == v0.stepped());
        }
        Some(FrameOutput { left: left as i64, right: right as i64, peak, visual })
    }
}

/// Once a voice has been advanced by the mixer and stays active, its cursor is
/// inside the buffer; a voice whose frame would lie outside the buffer retires
/// in that same frame.
pub proof fn lemma_cursor_inside(v: Voice)
    requires
        v.wf(),
    ensures
        v.survives() ==> v.stepped().position < v.len() * (ONE as int),
        !v.index_in_range() ==> !v.sounds() && !v.survives(),
{
}

/// A stop that arrives during the attack, with no explicit release, fades out
/// over exactly the attack frames completed, starting from the gain reached.
pub proof fn lemma_symmetric_fade(v: Voice)
    requires
        v.wf(),
        v.stop_requested,
        v.phase == Phase::Playing,
        !v.release_override,
        0 < v.attack_progress < v.attack_samples,
    ensures
        v.fading(),
        v.effective_release() == v.attack_progress,
        v.sounds() ==> v.stepped().release_samples == v.attack_progress
            && v.stepped().phase == Phase::Releasing
            && v.stepped().fade_start_gain == v.attack_gain()
            && v.stepped().fade_elapsed == 1,
{
    assert(0 <= (v.attack_progress as int) * 65536 / (v.attack_samples as int) <= 65536) by (nonlinear_arith)
        requires 0 < v.attack_progress < v.attack_samples;
}

/// A looping voice that is not fading moves on by exactly its rate each frame,
/// and returns to the loop start exactly when it reaches the loop end (or the
/// end of the buffer).
pub proof fn lemma_loop_wrap(v: Voice)
    requires
        v.wf(),
        v.looping,
        !v.fading(),
        v.sounds(),
    ensures
        v.stepped().position == if v.position + (v.rate as int) * v.width() >= v.loop_end
            || v.position + (v.rate as int) * v.width() >= v.len() * (ONE as int) {
            v.loop_start as int
        } else {
            v.position + (v.rate as int) * v.width()
        },
{
}

} // verus!
