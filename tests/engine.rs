use sampler_engine::{
    write_audio, AudioBuffer, AudioEngineState, EngineError, HotkeyRegistry, PadKey, Phase, PlayParams,
    ONE,
};

fn mono(rate: u32, samples: Vec<i16>) -> AudioBuffer {
    AudioBuffer::assemble(samples, rate, 1, 120_000)
}

fn params(attack_us: u64, release_us: u64, looping: bool, end_us: u64) -> PlayParams {
    PlayParams {
        volume: ONE as u32,
        attack_us,
        release_us,
        looping,
        start_us: 0,
        end_us,
        sync: false,
        sample_bpm_milli: 0,
    }
}

fn render(state: &mut AudioEngineState, frames: usize, channels: usize) -> Vec<i64> {
    let mut out = vec![0i64; frames * channels];
    write_audio(state, &mut out, channels);
    out
}

#[test]
fn attack_release_at_device_rate_and_symmetric_stop() {
    let mut state = AudioEngineState::new(48000);
    state.load_sound("kick".to_string(), mono(48000, vec![1000; 48000]));
    state.play_sound("kick".to_string(), params(100_000, 100_000, false, 1_000_000)).unwrap();
    assert_eq!(state.voices[0].attack_samples, 4800);
    assert_eq!(state.voices[0].release_samples, 4800);
    render(&mut state, 2400, 1);
    assert_eq!(state.voices[0].attack_progress, 2400);
    state.stop_sound("kick".to_string(), None);
    render(&mut state, 1, 1);
    assert_eq!(state.voices[0].phase, Phase::Releasing);
    assert_eq!(state.voices[0].release_samples, 2400);
    assert_eq!(state.voices[0].fade_start_gain, 2400 * ONE / 4800);
    render(&mut state, 2399, 1);
    assert_eq!(state.voices.len(), 1);
    render(&mut state, 1, 1);
    assert_eq!(state.voices.len(), 0);
}

#[test]
fn explicit_release_overrides_symmetric_fade() {
    let mut state = AudioEngineState::new(48000);
    state.load_sound("kick".to_string(), mono(48000, vec![1000; 48000]));
    state.play_sound("kick".to_string(), params(100_000, 100_000, false, 1_000_000)).unwrap();
    render(&mut state, 2400, 1);
    state.stop_sound("kick".to_string(), Some(50_000));
    render(&mut state, 1, 1);
    assert_eq!(state.voices[0].release_samples, 2400);
    assert!(state.voices[0].release_override);
    state.stop_sound("kick".to_string(), Some(10_000));
    assert_eq!(state.voices[0].release_samples, 2400);
}

#[test]
fn same_key_plays_are_independent_voices() {
    let mut state = AudioEngineState::new(48000);
    state.load_sound("pad".to_string(), mono(48000, vec![1000; 48000]));
    state.play_sound("pad".to_string(), params(100_000, 100_000, true, 1_000_000)).unwrap();
    render(&mut state, 100, 2);
    state.play_sound("pad".to_string(), params(100_000, 100_000, true, 1_000_000)).unwrap();
    assert_eq!(state.voices.len(), 2);
    state.stop_all();
    render(&mut state, 1, 2);
    assert_eq!(state.voices.len(), 2);
    assert!(state.voices.iter().all(|v| v.phase == Phase::Releasing));
    assert_eq!(state.voices[0].fade_start_gain, 100 * ONE / 4800);
    assert_eq!(state.voices[1].fade_start_gain, 0);
    assert_eq!(state.voices[0].position, 101 * ONE);
    assert_eq!(state.voices[1].position, ONE);
    render(&mut state, 4799, 2);
    assert_eq!(state.voices.len(), 2);
    render(&mut state, 1, 2);
    assert_eq!(state.voices.len(), 0);
    assert!(state.get_levels().active_keys.is_empty());
}

#[test]
fn play_unknown_key_fails() {
    let mut state = AudioEngineState::new(44100);
    assert_eq!(state.play_sound("none".to_string(), params(0, 0, false, 0)), Err(EngineError::NotFound));
    assert!(state.voices.is_empty());
}

#[test]
fn load_replaces_entry_under_same_key() {
    let mut state = AudioEngineState::new(44100);
    let first = state.load_sound("a".to_string(), mono(1000, vec![1; 10]));
    assert_eq!(first.duration_us, 10_000);
    state.load_sound("b".to_string(), mono(1000, vec![2; 20]));
    let again = state.load_sound("a".to_string(), mono(1000, vec![3; 30]));
    assert_eq!(again.duration_us, 30_000);
    assert_eq!(again.waveform, vec![3; 30]);
    assert_eq!(state.sound_bank.len(), 2);
    assert_eq!(state.sound_bank[0].buffer.data.len(), 30);
    assert_eq!(state.get_buffer_waveform(&"b".to_string()), vec![2; 20]);
    assert!(state.get_buffer_waveform(&"c".to_string()).is_empty());
}

#[test]
fn full_gain_mono_output_is_exact() {
    let mut state = AudioEngineState::new(1000);
    state.load_sound("s".to_string(), mono(1000, vec![16384; 100]));
    state.play_sound("s".to_string(), params(0, 0, true, 100_000)).unwrap();
    let out = render(&mut state, 3, 2);
    assert_eq!(out, vec![16384 * 65536; 6]);
    state.set_master_volume((ONE / 2) as u32);
    let out = render(&mut state, 1, 1);
    assert_eq!(out, vec![16384 * 32768]);
    let levels = state.get_levels();
    assert_eq!(levels.active_keys, vec!["s".to_string()]);
    assert_eq!(levels.data.len(), 1);
    assert_eq!(levels.data[0].peak, 16384 * 65536);
    assert_eq!(levels.data[0].samples, vec![16384 * 65536]);
}

#[test]
fn levels_keep_at_most_128_samples() {
    let mut state = AudioEngineState::new(1000);
    state.load_sound("s".to_string(), mono(1000, vec![100; 1000]));
    state.play_sound("s".to_string(), params(0, 0, true, 1_000_000)).unwrap();
    state.play_sound("s".to_string(), params(0, 0, true, 1_000_000)).unwrap();
    render(&mut state, 200, 1);
    let levels = state.get_levels();
    assert_eq!(levels.data.len(), 1);
    assert_eq!(levels.data[0].samples.len(), 128);
    assert_eq!(levels.active_keys.len(), 2);
}

#[test]
fn interpolates_between_samples() {
    let mut state = AudioEngineState::new(2000);
    state.load_sound("s".to_string(), mono(1000, vec![0, 1000, 2000, 3000]));
    state.play_sound("s".to_string(), params(0, 0, true, 4_000)).unwrap();
    // half a source sample per output frame
    assert_eq!(state.voices[0].rate, ONE / 2);
    let out = render(&mut state, 3, 2);
    assert_eq!(out, vec![0, 0, 500 * 65536, 500 * 65536, 1000 * 65536, 1000 * 65536]);
}

#[test]
fn looping_voice_wraps_at_loop_end() {
    let mut state = AudioEngineState::new(1000);
    state.load_sound("l".to_string(), mono(1000, vec![0, 1, 2, 3, 4, 5, 6, 7, 8, 9]));
    state.play_sound("l".to_string(), params(0, 0, true, 4_000)).unwrap();
    let mut seen = Vec::new();
    for _ in 0..9 {
        seen.push(state.voices[0].position / ONE);
        render(&mut state, 1, 1);
    }
    assert_eq!(seen, vec![0, 1, 2, 3, 0, 1, 2, 3, 0]);
}

#[test]
fn one_shot_releases_before_its_end() {
    let mut state = AudioEngineState::new(1000);
    state.load_sound("o".to_string(), mono(1000, vec![500; 100]));
    state.play_sound("o".to_string(), params(0, 10_000, false, 100_000)).unwrap();
    render(&mut state, 90, 1);
    assert_eq!(state.voices[0].phase, Phase::Playing);
    render(&mut state, 1, 1);
    assert_eq!(state.voices[0].phase, Phase::Releasing);
    render(&mut state, 8, 1);
    assert_eq!(state.voices.len(), 1);
    render(&mut state, 1, 1);
    assert_eq!(state.voices.len(), 0);
}

#[test]
fn voice_past_buffer_end_retires_in_same_frame() {
    let mut state = AudioEngineState::new(1000);
    state.load_sound("e".to_string(), mono(1000, vec![500; 3]));
    state.play_sound("e".to_string(), params(0, 0, false, 1_000_000)).unwrap();
    render(&mut state, 2, 1);
    assert_eq!(state.voices.len(), 1);
    assert!(state.voices[0].position < 3 * ONE);
    render(&mut state, 1, 1);
    assert_eq!(state.voices.len(), 0);
}

#[test]
fn start_beyond_buffer_never_sounds() {
    let mut state = AudioEngineState::new(1000);
    state.load_sound("e".to_string(), mono(1000, vec![500; 3]));
    let mut p = params(0, 0, false, 1_000_000);
    p.start_us = 10_000;
    state.play_sound("e".to_string(), p).unwrap();
    let out = render(&mut state, 1, 1);
    assert_eq!(out, vec![0]);
    assert!(state.voices.is_empty());
}

#[test]
fn stopping_twice_equals_stopping_once() {
    let mut state = AudioEngineState::new(1000);
    state.load_sound("k".to_string(), mono(1000, vec![500; 1000]));
    state.play_sound("k".to_string(), params(100_000, 50_000, true, 1_000_000)).unwrap();
    render(&mut state, 10, 1);
    state.stop_sound("k".to_string(), None);
    render(&mut state, 5, 1);
    let elapsed = state.voices[0].fade_elapsed;
    let release = state.voices[0].release_samples;
    state.stop_sound("k".to_string(), None);
    state.stop_sound("k".to_string(), Some(1_000));
    assert_eq!(state.voices[0].fade_elapsed, elapsed);
    assert_eq!(state.voices[0].release_samples, release);
    assert_eq!(release, 10);
}

#[test]
fn update_retunes_without_moving_cursor() {
    let mut state = AudioEngineState::new(1000);
    state.load_sound("u".to_string(), mono(1000, vec![500; 1000]));
    state.play_sound("u".to_string(), params(0, 0, true, 1_000_000)).unwrap();
    render(&mut state, 7, 1);
    let mut p = params(0, 0, false, 500_000);
    p.volume = 3 * ONE as u32;
    p.start_us = 100_000;
    state.update_voice("u".to_string(), p);
    let v = &state.voices[0];
    assert_eq!(v.position, 7 * ONE);
    assert_eq!(v.gain, 3 * ONE as u32);
    assert!(!v.looping);
    assert_eq!(v.loop_start, 100 * ONE);
    assert_eq!(v.loop_end, 500 * ONE);
}

#[test]
fn tempo_sync_scales_rate() {
    let mut state = AudioEngineState::new(44100);
    state.load_sound("t".to_string(), mono(44100, vec![0; 10]));
    state.set_master_bpm(150_000);
    let mut p = params(0, 0, true, 0);
    p.sync = true;
    p.sample_bpm_milli = 100_000;
    state.play_sound("t".to_string(), p).unwrap();
    assert_eq!(state.voices[0].rate, ONE * 3 / 2);
    p.sample_bpm_milli = 0;
    state.play_sound("t".to_string(), p).unwrap();
    assert_eq!(state.voices[1].rate, ONE);
}

#[test]
fn hotkeys_register_and_release() {
    let mut reg = HotkeyRegistry::new();
    reg.set_listening(true);
    assert_eq!(reg.registrations.len(), 13);
    assert_eq!(reg.registrations[0], "Q");
    assert_eq!(reg.registrations[12], "SPACE");
    reg.set_listening(true);
    assert_eq!(reg.registrations.len(), 13);
    reg.set_listening(false);
    assert!(reg.registrations.is_empty());
    assert!(!reg.enabled.load(std::sync::atomic::Ordering::SeqCst));
    assert_eq!(PadKey::Space.label(), "SPACE");
    assert!(PadKey::Space.is_global_stop());
    assert!(!PadKey::Q.is_global_stop());
}

#[test]
fn stereo_source_keeps_channels_apart() {
    let mut state = AudioEngineState::new(1000);
    state.load_sound("st".to_string(), AudioBuffer::assemble(vec![100, -200, 300, -400], 1000, 2, 120_000));
    state.play_sound("st".to_string(), params(0, 0, false, 2_000)).unwrap();
    let out = render(&mut state, 2, 2);
    assert_eq!(out, vec![100 * 65536, -200 * 65536, 300 * 65536, -400 * 65536]);
    assert!(state.voices.is_empty());
    let levels = state.get_levels();
    assert_eq!(levels.data[0].peak, 350 * 65536);
    assert_eq!(levels.data[0].samples, vec![-50 * 65536, -50 * 65536]);
}

#[test]
fn stereo_source_on_mono_device_is_averaged() {
    let mut state = AudioEngineState::new(1000);
    state.load_sound("st".to_string(), AudioBuffer::assemble(vec![101, -200, 300, -400], 1000, 2, 120_000));
    state.play_sound("st".to_string(), params(0, 0, false, 2_000)).unwrap();
    let out = render(&mut state, 1, 1);
    // floor((101 - 200) * 65536 / 2)
    assert_eq!(out, vec![-99 * 32768]);
}
