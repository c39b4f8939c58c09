//! A polyphonic sample-playback engine: decoded PCM buffers, their analysis
//! (display waveform, tempo), playback voices with attack/release envelopes,
//! and a mixer that renders all active voices into an output buffer.
//!
//! Samples are 16-bit integers. Positions, rates and gains are fixed-point
//! values with sixteen fractional bits (`ONE` is unity); tempi are in
//! thousandths of a beat per minute; times are in microseconds.

mod arith;
mod analysis;
mod voice;
mod engine;
mod mixer;
mod hotkeys;

pub use arith::{floor_div, ONE};
pub use analysis::{
    analysis_signal, first_audio_track, next_read_action, resolve_format, settle_tempo, snap_tempo,
    waveform, AudioBuffer, DecodeError, ReadAction, ReadEvent, ANALYSIS_SECONDS,
    DEFAULT_TEMPO_MILLI, FALLBACK_CHANNELS, FALLBACK_SAMPLE_RATE, MAX_SAMPLES, WAVEFORM_POINTS,
};
pub use voice::{FrameOutput, Phase, Voice, MAX_RATE};
pub use engine::{
    AudioEngineState, BankEntry, EngineError, LevelsResponse, LoadResult, PlayParams, VisualData,
    DEFAULT_MASTER_BPM_MILLI,
};
pub use mixer::{write_audio, MAX_VISUAL_SAMPLES};
pub use hotkeys::{HotkeyRegistry, PadKey, PAD_KEY_COUNT};
