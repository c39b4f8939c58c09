use vstd::prelude::*;
use crate::arith::{floor_div, min_int};

verus! {

/// Number of points in a buffer's display waveform.
pub const WAVEFORM_POINTS: usize = 400;

/// Tempo used when the estimator reports nothing, in thousandths of a beat per minute.
pub const DEFAULT_TEMPO_MILLI: u32 = 120000;

/// Sample rate assumed when the container does not state one.
pub const FALLBACK_SAMPLE_RATE: u32 = 44100;

/// Channel count assumed when the container does not state one.
pub const FALLBACK_CHANNELS: u16 = 2;

/// Length of audio, in seconds, handed to tempo estimation.
pub const ANALYSIS_SECONDS: u64 = 60;

/// Largest number of interleaved samples a buffer may hold.
pub const MAX_SAMPLES: usize = 0x7FFF_FFFF;

/// Why a file could not become a playable buffer.
#[derive(Debug, Clone, PartialEq, Eq)]
pub enum DecodeError {
    /// The container holds no track with a real codec.
    NoAudioTrack,
    /// The stream declares zero channels.
    ZeroChannels,
    /// More than two channels: only mono and stereo sources are supported.
    UnsupportedChannels,
    /// The stream declares a sample rate of zero.
    ZeroSampleRate,
    /// More samples than `MAX_SAMPLES`.
    TooLong,
    /// Reading or decoding failed; the text says why.
    Failed(String),
}

/// What happened when the next packet was requested from the container.
#[derive(Debug, Clone, Copy, PartialEq, Eq)]
pub enum ReadEvent {
    /// A packet belonging to the given track.
    Packet(u32),
    /// The stream ended.
    EndOfStream,
    /// Any other read error.
    Failure,
}

/// What the decode loop does next.
#[derive(Debug, Clone, Copy, PartialEq, Eq)]
pub enum ReadAction {
    Decode,
    Skip,
    Finish,
    Fail,
}

/// Decides the decode loop's next step: packets of the selected track are
/// decoded, others skipped; the end of the stream finishes normally; any other
/// error is fatal.
pub fn next_read_action(event: ReadEvent, track: u32) -> (r: ReadAction)
    ensures
        r == (match event {
            ReadEvent::Packet(id) => if id == track { ReadAction::Decode } else { ReadAction::Skip },
            ReadEvent::EndOfStream => ReadAction::Finish,
            ReadEvent::Failure => ReadAction::Fail,
        }),
{
    match event {
        ReadEvent::Packet(id) => if id == track { ReadAction::Decode } else { ReadAction::Skip },
        ReadEvent::EndOfStream => ReadAction::Finish,
        ReadEvent::Failure => ReadAction::Fail,
    }
}

/// Index of the first track whose codec is a real one (`codec_is_null[i]` false).
pub fn first_audio_track(codec_is_null: &Vec<bool>) -> (r: Option<usize>)
    ensures
        match r {
            Some(i) => i < codec_is_null.len() && !codec_is_null[i as int]
                && forall|j: int| 0 <= j < i ==> codec_is_null[j],
            None => forall|j: int| 0 <= j < codec_is_null.len() ==> codec_is_null[j],
        },
{
    let mut i: usize = 0;
    while i < codec_is_null.len()
        invariant
            i <= codec_is_null.len(),
            forall|j: int| 0 <= j < i ==> codec_is_null[j],
        decreases codec_is_null.len() - i,
    {
        if !codec_is_null[i] {
            return Some(i);
        }
        i = i + 1;
    }
    None
}

/// A format the engine can play: one or two channels, a positive rate, and a
/// length within `MAX_SAMPLES`.
pub open spec fn valid_format(sample_rate: u32, channels: u16, len: int) -> bool {
    &&& 1 <= channels <= 2
    &&& sample_rate > 0
    &&& 0 <= len <= MAX_SAMPLES
}

/// Settles a stream's format: the stated rate and channel count, or the
/// fallbacks where the stream states none; then checks that it can be played.
pub fn resolve_format(sample_rate: Option<u32>, channels: Option<u16>, len: usize) -> (r: Result<
    (u32, u16),
    DecodeError,
>)
    ensures
        ({
            let sr = match sample_rate { Some(s) => s, None => FALLBACK_SAMPLE_RATE };
            let ch = match channels { Some(c) => c, None => FALLBACK_CHANNELS };
            r == if ch == 0 {
                Err(DecodeError::ZeroChannels)
            } else if ch > 2 {
                Err(DecodeError::UnsupportedChannels)
            } else if sr == 0 {
                Err(DecodeError::ZeroSampleRate)
            } else if len > MAX_SAMPLES {
                Err(DecodeError::TooLong)
            } else {
                Ok((sr, ch))
            }
        }),
        r matches Ok((sr, ch)) ==> valid_format(sr, ch, len as int),
{
    let sr = match sample_rate { Some(s) => s, None => FALLBACK_SAMPLE_RATE };
    let ch = match channels { Some(c) => c, None => FALLBACK_CHANNELS };
    if ch == 0 {
        Err(DecodeError::ZeroChannels)
    } else if ch > 2 {
        Err(DecodeError::UnsupportedChannels)
    } else if sr == 0 {
        Err(DecodeError::ZeroSampleRate)
    } else if len > MAX_SAMPLES {
        Err(DecodeError::TooLong)
    } else {
        Ok((sr, ch))
    }
}

// ---------------------------------------------------------------- tempo

/// The whole number of beats per minute nearest to `t` (in thousandths),
/// halves rounding up.
pub open spec fn nearest_whole_tempo(t: int) -> int {
    ((t + 500) / 1000) * 1000
}

/// A tempo within 0.1 BPM of a whole number becomes that number; any other
/// stays as it is.
pub open spec fn snapped_tempo(t: int) -> int {
    let w = nearest_whole_tempo(t);
    if t - w < 100 && w - t < 100 { w } else { t }
}

/// Snaps an estimated tempo (thousandths of a BPM) to a whole BPM when it lies
/// within 0.1 BPM of one.
pub fn snap_tempo(raw_milli: u32) -> (r: u32)
    ensures
        r as int == snapped_tempo(raw_milli as int),
{
    let w: u64 = ((raw_milli as u64 + 500) / 1000) * 1000;
    let t = raw_milli as u64;
    if (t >= w && t - w < 100) || (t < w && w - t < 100) {
        w as u32
    } else {
        raw_milli
    }
}

/// The tempo a buffer is stored with: a cached tempo as given; else the
/// estimate, snapped; else the default of 120 BPM.
pub fn settle_tempo(cached_milli: Option<u32>, estimate_milli: Option<u32>) -> (r: u32)
    ensures
        r as int == match cached_milli {
            Some(c) => c as int,
            None => match estimate_milli {
                Some(e) => snapped_tempo(e as int),
                None => DEFAULT_TEMPO_MILLI as int,
            },
        },
{
    match cached_milli {
        Some(c) => c,
        None => match estimate_milli {
            Some(e) => snap_tempo(e),
            None => DEFAULT_TEMPO_MILLI,
        },
    }
}

/// A tempo within 0.1 BPM of the whole tempo `k` BPM is stored as exactly `k`
/// BPM; a tempo at least 0.1 BPM away from every whole tempo is stored as
/// estimated.
pub proof fn lemma_tempo_snap(t: int)
    requires
        t >= 0,
    ensures
        forall|k: int| -100 < #[trigger] (t - 1000 * k) < 100 ==> snapped_tempo(t) == 1000 * k,
        (forall|k: int| !(-100 < #[trigger] (t - 1000 * k) < 100)) ==> snapped_tempo(t) == t,
{
    let w = nearest_whole_tempo(t);
    let q = (t + 500) / 1000;
    assert(w == q * 1000);
    assert(0 <= (t + 500) % 1000 < 1000);
    assert(t + 500 == 1000 * q + (t + 500) % 1000);
    assert(-500 <= t - w < 500);
    assert forall|k: int| -100 < #[trigger] (t - 1000 * k) < 100 implies snapped_tempo(t) == 1000 * k by {
        assert(-600 < 1000 * (k - q) < 600);
        if k - q >= 1 {
            assert(1000 * (k - q) >= 1000) by (nonlinear_arith)
                requires k - q >= 1;
        } else if k - q <= -1 {
            assert(1000 * (k - q) <= -1000) by (nonlinear_arith)
                requires k - q <= -1;
        }
        assert(k == q);
    }
    if forall|k: int| !(-100 < #[trigger] (t - 1000 * k) < 100) {
        assert(!(-100 < t - 1000 * q < 100));
    }
}

// ---------------------------------------------------------------- waveform

/// Magnitude of a sample.
pub open spec fn magnitude(s: i16) -> int {
    if s < 0 { -(s as int) } else { s as int }
}

/// Largest magnitude among `data[start..end)`; zero for an empty span.
pub open spec fn span_peak(data: Seq<i16>, start: int, end: int) -> int
    decreases end - start,
{
    if end <= start {
        0
    } else {
        let rest = span_peak(data, start, end - 1);
        let m = magnitude(data[end - 1]);
        if m > rest { m } else { rest }
    }
}

/// Frames per waveform point: a four-hundredth of the frames, at least one.
pub open spec fn bucket_frames(len: int, channels: int) -> int {
    let f = (len / channels) / (WAVEFORM_POINTS as int);
    if f == 0 { 1 } else { f }
}

/// Interleaved samples per waveform point.
pub open spec fn bucket_span(len: int, channels: int) -> int {
    bucket_frames(len, channels) * channels
}

/// Number of waveform points: one per bucket that starts inside the data, at
/// most `WAVEFORM_POINTS`.
pub open spec fn bucket_count(len: int, channels: int) -> int {
    let s = bucket_span(len, channels);
    min_int((len + s - 1) / s, WAVEFORM_POINTS as int)
}

/// The display waveform of interleaved samples: point `i` is the peak
/// magnitude of bucket `i`, the last bucket cut at the end of the data.
pub open spec fn waveform_of(data: Seq<i16>, channels: int) -> Seq<int> {
    let s = bucket_span(data.len() as int, channels);
    Seq::new(
        bucket_count(data.len() as int, channels) as nat,
        |i: int| span_peak(data, i * s, min_int(data.len() as int, (i + 1) * s)),
    )
}

pub proof fn lemma_span_peak_bounds(data: Seq<i16>, start: int, end: int)
    requires
        0 <= start,
        end <= data.len(),
    ensures
        0 <= span_peak(data, start, end) <= 32768,
        forall|j: int| start <= j < end ==> magnitude(data[j]) <= span_peak(data, start, end),
        start < end ==> exists|j: int|
            start <= j < end && magnitude(data[j]) == span_peak(data, start, end),
    decreases end - start,
{
    if end > start {
        lemma_span_peak_bounds(data, start, end - 1);
        if start < end - 1 {
            let j = choose|j: int|
                start <= j < end - 1 && magnitude(data[j]) == span_peak(data, start, end - 1);
            assert(start <= j < end);
        } else {
            assert(start <= end - 1 < end);
        }
    }
}

proof fn lemma_bucket_start(i: int, s: int, len: int)
    requires
        s > 0,
        i >= 0,
        len >= 0,
    ensures
        (i * s < len) == (i < (len + s - 1) / s),
{
    let q = (len + s - 1) / s;
    vstd::arithmetic::div_mod::lemma_fundamental_div_mod(len + s - 1, s);
    let r = (len + s - 1) % s;
    assert(0 <= r < s) by {
        vstd::arithmetic::div_mod::lemma_mod_bound(len + s - 1, s);
    }
    if i < q {
        assert(i * s <= (q - 1) * s) by (nonlinear_arith)
            requires i <= q - 1, s > 0;
        assert((q - 1) * s == q * s - s) by (nonlinear_arith);
        assert(s * q == q * s) by (nonlinear_arith);
    } else {
        assert(i * s >= q * s) by (nonlinear_arith)
            requires i >= q, s > 0;
        assert(s * q == q * s) by (nonlinear_arith);
    }
}

/// Downsamples interleaved samples to at most `WAVEFORM_POINTS` peak
/// magnitudes, one per equal span of frames.
pub fn waveform(data: &Vec<i16>, channels: u16) -> (w: Vec<u16>)
    requires
        1 <= channels,
        data.len() <= MAX_SAMPLES,
    ensures
        waveform_matches(w@, data@, channels as int),
{
    let ghost len = data.len() as int;
    let ghost chi = channels as int;
    let ch = channels as u64;
    let total = data.len() as u64;
    let frames = total / ch;
    let step0 = frames / (WAVEFORM_POINTS as u64);
    let step = if step0 == 0 { 1 } else { step0 };
    proof {
        assert(frames <= total) by {
            vstd::arithmetic::div_mod::lemma_div_is_ordered_by_denominator(len, 1, chi);
        }
        assert(step * chi <= 65535 * 0x7FFF_FFFF) by (nonlinear_arith)
            requires step <= 0x7FFF_FFFF, 1 <= chi <= 65535;
        assert(step * chi == bucket_span(len, chi));
        assert(step * chi >= 1) by (nonlinear_arith)
            requires step >= 1, chi >= 1;
    }
    let span = step * ch;
    let mut w: Vec<u16> = Vec::with_capacity(WAVEFORM_POINTS);
    let mut i: u64 = 0;
    while i < WAVEFORM_POINTS as u64
        invariant
            i <= WAVEFORM_POINTS,
            span as int == bucket_span(len, chi),
            span >= 1,
            span <= 65535 * 0x7FFF_FFFF,
            len == data@.len(),
            total == len,
            len <= MAX_SAMPLES,
            chi >= 1,
            i <= bucket_count(len, chi),
            w@.len() == i,
            forall|k: int| 0 <= k < i ==> w@[k] as int == waveform_of(data@, chi)[k],
        ensures
            i * span >= len || i == WAVEFORM_POINTS,
            i <= bucket_count(len, chi),
            w@.len() == i,
            forall|k: int| 0 <= k < i ==> w@[k] as int == waveform_of(data@, chi)[k],
        decreases WAVEFORM_POINTS - i,
    {
        proof {
            assert(i * span <= 400 * (65535 * 0x7FFF_FFFF)) by (nonlinear_arith)
                requires i <= 400, span <= 65535 * 0x7FFF_FFFF;
        }
        let start = i * span;
        proof {
            lemma_bucket_start(i as int, span as int, len);
        }
        if start >= total {
            break;
        }
        let end = if start + span < total { start + span } else { total };
        proof {
            assert((i + 1) * span == start + span) by (nonlinear_arith)
                requires start == i * span;
        }
        let mut peak: u16 = 0;
        let first = start as usize;
        let last = end as usize;
        let mut j: usize = first;
        while j < last
            invariant
                start <= j <= last,
                last == end,
                end <= data@.len(),
                peak as int == span_peak(data@, start as int, j as int),
                decreases last - j,
        {
            proof {
                lemma_span_peak_bounds(data@, start as int, j as int);
            }
            let x = data[j];
            let m: u16 = if x < 0 { (-(x as i32)) as u16 } else { x as u16 };
            assert(m as int == magnitude(data@[j as int]));
            if m > peak {
                peak = m;
            }
            j = j + 1;
        }
        w.push(peak);
        i = i + 1;
    }
    proof {
        lemma_bucket_start(i as int, span as int, len);
    }
    w
}

/// Every waveform point lies between zero and the largest magnitude in the
/// data, and is the exact peak of its span: no sample in the span exceeds it,
/// and one sample in it reaches it. There are `min(400, buckets)` points.
pub proof fn lemma_waveform_peaks(data: Seq<i16>, channels: int)
    requires
        channels >= 1,
    ensures
        ({
            let w = waveform_of(data, channels);
            let s = bucket_span(data.len() as int, channels);
            &&& w.len() == min_int((data.len() + s - 1) / s, WAVEFORM_POINTS as int)
            &&& forall|i: int| 0 <= i < w.len() ==> 0 <= #[trigger] w[i] <= span_peak(data, 0, data.len() as int)
            &&& forall|i: int, j: int| 0 <= i < w.len() && i * s <= j < data.len() && j < (i + 1) * s
                ==> #[trigger] magnitude(data[j]) <= #[trigger] w[i]
        }),
{
    let w = waveform_of(data, channels);
    let s = bucket_span(data.len() as int, channels);
    let len = data.len() as int;
    assert(s >= 1) by (nonlinear_arith)
        requires s == bucket_frames(len, channels) * channels, bucket_frames(len, channels) >= 1, channels >= 1;
    lemma_span_peak_bounds(data, 0, len);
    assert forall|i: int| 0 <= i < w.len() implies 0 <= #[trigger] w[i] <= span_peak(data, 0, len) by {
        let a = i * s;
        let b = min_int(len, (i + 1) * s);
        assert(a >= 0) by (nonlinear_arith) requires i >= 0, s >= 1, a == i * s;
        lemma_bucket_start(i, s, len);
        lemma_span_peak_bounds(data, a, b);
        assert((i + 1) * s == a + s) by (nonlinear_arith) requires a == i * s;
        let j = choose|j: int| a <= j < b && magnitude(data[j]) == span_peak(data, a, b);
    }
    assert forall|i: int, j: int| 0 <= i < w.len() && i * s <= j < data.len() && j < (i + 1) * s
        implies #[trigger] magnitude(data[j]) <= #[trigger] w[i] by {
        let a = i * s;
        let b = min_int(len, (i + 1) * s);
        assert(a >= 0) by (nonlinear_arith) requires i >= 0, s >= 1, a == i * s;
        lemma_span_peak_bounds(data, a, b);
    }
}

/// `w` holds exactly the display waveform of `data`.
pub open spec fn waveform_matches(w: Seq<u16>, data: Seq<i16>, channels: int) -> bool {
    &&& w.len() == waveform_of(data, channels).len()
    &&& forall|i: int| 0 <= i < w.len() ==> w[i] as int == waveform_of(data, channels)[i]
}

// ---------------------------------------------------------------- analysis signal

/// Sum of `data[start..end)`.
pub open spec fn span_sum(data: Seq<i16>, start: int, end: int) -> int
    decreases end - start,
{
    if end <= start {
        0
    } else {
        span_sum(data, start, end - 1) + data[end - 1] as int
    }
}

/// The mono signal handed to tempo estimation: for each frame (the last one
/// possibly partial) the floor of its samples' sum divided by the channel
/// count, for at most the first `ANALYSIS_SECONDS` seconds of frames.
pub open spec fn analysis_signal_of(data: Seq<i16>, channels: int, sample_rate: int) -> Seq<int> {
    let n = min_int(
        (data.len() + channels - 1) / channels,
        sample_rate * (ANALYSIS_SECONDS as int),
    );
    Seq::new(
        n as nat,
        |i: int| span_sum(data, i * channels, min_int(data.len() as int, (i + 1) * channels)) / channels,
    )
}

proof fn lemma_span_sum_bounds(data: Seq<i16>, start: int, end: int)
    requires
        0 <= start <= end <= data.len(),
    ensures
        -32768 * (end - start) <= span_sum(data, start, end) <= 32767 * (end - start),
    decreases end - start,
{
    if end > start {
        lemma_span_sum_bounds(data, start, end - 1);
    }
}

/// Down-mixes interleaved samples to mono for tempo estimation, keeping at
/// most the first sixty seconds.
pub fn analysis_signal(data: &Vec<i16>, channels: u16, sample_rate: u32) -> (m: Vec<i16>)
    requires
        valid_format(sample_rate, channels, data.len() as int),
    ensures
        m@.len() == analysis_signal_of(data@, channels as int, sample_rate as int).len(),
        forall|i: int|
            0 <= i < m@.len() ==> m@[i] as int == analysis_signal_of(
                data@,
                channels as int,
                sample_rate as int,
            )[i],
{
    let ghost spec_m = analysis_signal_of(data@, channels as int, sample_rate as int);
    let ch = channels as usize;
    let len = data.len();
    let chunks = (len + ch - 1) / ch;
    let limit = (sample_rate as u64) * ANALYSIS_SECONDS;
    let count: usize = if (chunks as u64) < limit { chunks } else { limit as usize };
    let mut m: Vec<i16> = Vec::new();
    let mut i: usize = 0;
    while i < count
        invariant
            i <= count,
            count <= chunks,
            count == spec_m.len(),
            chunks == (len + ch - 1) / (ch as int),
            len == data@.len(),
            ch == channels,
            valid_format(sample_rate, channels, len as int),
            spec_m == analysis_signal_of(data@, channels as int, sample_rate as int),
            m@.len() == i,
            forall|k: int| 0 <= k < i ==> m@[k] as int == spec_m[k],
        decreases count - i,
    {
        proof {
            lemma_bucket_start(i as int, ch as int, len as int);
            assert(i * ch + ch <= 2 * len + 2) by (nonlinear_arith)
                requires i * ch < len, ch <= 2;
        }
        let start = i * ch;
        let end = if start + ch < len { start + ch } else { len };
        proof {
            assert((i + 1) * ch == start + ch) by (nonlinear_arith)
                requires start == i * ch;
        }
        let mut sum: i64 = 0;
        let mut j: usize = start;
        while j < end
            invariant
                start <= j <= end,
                end <= len,
                len == data@.len(),
                end - start <= 2,
                sum as int == span_sum(data@, start as int, j as int),
            decreases end - j,
        {
            proof {
                lemma_span_sum_bounds(data@, start as int, j as int);
            }
            sum = sum + data[j] as i64;
            j = j + 1;
        }
        let avg = floor_div(sum as i128, channels as u64);
        proof {
            lemma_span_sum_bounds(data@, start as int, end as int);
            let c = channels as int;
            let si = sum as int;
            let r = avg as int;
            vstd::arithmetic::div_mod::lemma_fundamental_div_mod(si, c);
            vstd::arithmetic::div_mod::lemma_mod_bound(si, c);
            assert(-32768 * c <= si <= 32767 * c) by (nonlinear_arith)
                requires
                    -32768 * (end - start) <= si <= 32767 * (end - start),
                    0 <= end - start <= c;
            assert(-32768 <= r <= 32767) by (nonlinear_arith)
                requires
                    si == c * r + si % c,
                    0 <= si % c < c,
                    -32768 * c <= si <= 32767 * c,
                    1 <= c <= 2;
        }
        m.push(avg as i16);
        i = i + 1;
    }
    m
}

// ---------------------------------------------------------------- buffers

/// Length of audio in microseconds, rounded down.
pub open spec fn duration_us_of(len: int, sample_rate: int, channels: int) -> int {
    len * 1_000_000 / (sample_rate * channels)
}

/// Decoded audio: interleaved 16-bit samples with the metadata derived from
/// them. Shared read-only (behind `Arc`) by the sample bank and every voice
/// that plays it.
pub struct AudioBuffer {
    pub data: Vec<i16>,
    pub sample_rate: u32,
    pub channels: u16,
    /// Duration in microseconds.
    pub duration_us: u64,
    /// Tempo in thousandths of a beat per minute.
    pub bpm_milli: u32,
    /// Peak magnitude of each display bucket.
    pub waveform: Vec<u16>,
}

impl AudioBuffer {
    /// A buffer whose metadata agrees with its samples.
    pub open spec fn wf(&self) -> bool {
        &&& valid_format(self.sample_rate, self.channels, self.data@.len() as int)
        &&& self.duration_us as int == duration_us_of(
            self.data@.len() as int,
            self.sample_rate as int,
            self.channels as int,
        )
        &&& waveform_matches(self.waveform@, self.data@, self.channels as int)
    }

    /// Builds a buffer from decoded samples, deriving its duration and waveform.
    pub fn assemble(data: Vec<i16>, sample_rate: u32, channels: u16, bpm_milli: u32) -> (b: AudioBuffer)
        requires
            valid_format(sample_rate, channels, data@.len() as int),
        ensures
            b.wf(),
            b.data@ == data@,
            b.sample_rate == sample_rate,
            b.channels == channels,
            b.bpm_milli == bpm_milli,
    {
        let waveform = waveform(&data, channels);
        let len = data.len() as u64;
        proof {
            assert((sample_rate as int) * (channels as int) <= 0xFFFF_FFFF * 2) by (nonlinear_arith)
                requires sample_rate <= 0xFFFF_FFFF, channels <= 2;
            assert((sample_rate as int) * (channels as int) >= 1) by (nonlinear_arith)
                requires sample_rate >= 1, channels >= 1;
        }
        let denom = (sample_rate as u64) * (channels as u64);
        let duration_us = (len * 1_000_000) / denom;
        AudioBuffer { data, sample_rate, channels, duration_us, bpm_milli, waveform }
    }
}

} // verus!
