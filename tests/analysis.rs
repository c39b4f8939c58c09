use sampler_engine::{
    analysis_signal, first_audio_track, floor_div, next_read_action, resolve_format, settle_tempo, snap_tempo,
    waveform, AudioBuffer, DecodeError, ReadAction, ReadEvent, MAX_SAMPLES,
};

#[test]
fn silent_two_second_mono_file() {
    let data = vec![0i16; 88200];
    let (rate, channels) = resolve_format(Some(44100), Some(1), data.len()).unwrap();
    assert_eq!((rate, channels), (44100, 1));
    let mono = analysis_signal(&data, channels, rate);
    assert_eq!(mono.len(), 88200);
    // a silent signal gives the estimator nothing: the default tempo stands
    let bpm = settle_tempo(None, None);
    let buffer = AudioBuffer::assemble(data, rate, channels, bpm);
    assert_eq!(buffer.duration_us, 2_000_000);
    assert_eq!(buffer.waveform, vec![0u16; 400]);
    assert_eq!(buffer.bpm_milli, 120_000);
}

#[test]
fn waveform_short_stereo_keeps_partial_bucket() {
    let data: Vec<i16> = vec![1, -5, 3, 2, -7];
    assert_eq!(waveform(&data, 2), vec![5, 3, 7]);
}

#[test]
fn waveform_long_mono_has_four_hundred_points() {
    let mut data: Vec<i16> = Vec::new();
    for i in 0..1000i32 {
        data.push((i % 7 - 3) as i16 * 100);
    }
    let w = waveform(&data, 1);
    assert_eq!(w.len(), 400);
    // frames / 400 == 2 samples per point
    assert_eq!(w[0], 300);
    assert_eq!(w[1], 100);
    for (i, p) in w.iter().enumerate() {
        let peak = data[2 * i].unsigned_abs().max(data[2 * i + 1].unsigned_abs());
        assert_eq!(*p, peak);
    }
}

#[test]
fn waveform_of_empty_data_is_empty() {
    assert!(waveform(&Vec::new(), 1).is_empty());
}

#[test]
fn waveform_handles_most_negative_sample() {
    assert_eq!(waveform(&vec![i16::MIN, 3], 1), vec![32768, 3]);
}

#[test]
fn waveform_points_never_exceed_buffer_peak() {
    let mut data: Vec<i16> = Vec::new();
    for i in 0..5003i32 {
        data.push(((i * 37) % 2001 - 1000) as i16);
    }
    let w = waveform(&data, 2);
    let max = data.iter().map(|s| s.unsigned_abs()).max().unwrap();
    assert_eq!(w.len(), 400);
    assert!(w.iter().all(|p| *p <= max));
}

#[test]
fn tempo_within_a_tenth_snaps() {
    assert_eq!(snap_tempo(119_950), 120_000);
    assert_eq!(snap_tempo(120_099), 120_000);
    assert_eq!(snap_tempo(99_960), 100_000);
    assert_eq!(snap_tempo(128_000), 128_000);
}

#[test]
fn tempo_further_away_stays() {
    assert_eq!(snap_tempo(120_100), 120_100);
    assert_eq!(snap_tempo(119_900), 119_900);
    assert_eq!(snap_tempo(128_400), 128_400);
    assert_eq!(snap_tempo(127_500), 127_500);
}

#[test]
fn settle_tempo_prefers_cache_then_estimate() {
    assert_eq!(settle_tempo(Some(95_000), Some(1)), 95_000);
    assert_eq!(settle_tempo(None, Some(127_960)), 128_000);
    assert_eq!(settle_tempo(None, Some(127_310)), 127_310);
    assert_eq!(settle_tempo(None, None), 120_000);
}

#[test]
fn format_fallbacks_and_errors() {
    assert_eq!(resolve_format(None, None, 10), Ok((44100, 2)));
    assert_eq!(resolve_format(Some(48000), Some(1), 10), Ok((48000, 1)));
    assert_eq!(resolve_format(Some(48000), Some(0), 10), Err(DecodeError::ZeroChannels));
    assert_eq!(resolve_format(Some(48000), Some(6), 10), Err(DecodeError::UnsupportedChannels));
    assert_eq!(resolve_format(Some(0), Some(2), 10), Err(DecodeError::ZeroSampleRate));
    assert_eq!(resolve_format(Some(48000), Some(2), MAX_SAMPLES + 1), Err(DecodeError::TooLong));
}

#[test]
fn first_real_track_is_chosen() {
    assert_eq!(first_audio_track(&vec![true, false, false]), Some(1));
    assert_eq!(first_audio_track(&vec![true]), None);
    assert_eq!(first_audio_track(&Vec::new()), None);
}

#[test]
fn read_events_map_to_actions() {
    assert_eq!(next_read_action(ReadEvent::Packet(3), 3), ReadAction::Decode);
    assert_eq!(next_read_action(ReadEvent::Packet(2), 3), ReadAction::Skip);
    assert_eq!(next_read_action(ReadEvent::EndOfStream, 3), ReadAction::Finish);
    assert_eq!(next_read_action(ReadEvent::Failure, 3), ReadAction::Fail);
}

#[test]
fn analysis_signal_averages_frames_rounding_down() {
    let data: Vec<i16> = vec![2, 4, -3, 0, 5];
    assert_eq!(analysis_signal(&data, 2, 44100), vec![3, -2, 2]);
}

#[test]
fn analysis_signal_keeps_sixty_seconds() {
    let data: Vec<i16> = (0..100).map(|i| i as i16).collect();
    let mono = analysis_signal(&data, 1, 1);
    assert_eq!(mono.len(), 60);
    assert_eq!(mono[59], 59);
}

#[test]
fn assemble_derives_duration() {
    let buffer = AudioBuffer::assemble(vec![0; 48000], 48000, 2, 90_000);
    assert_eq!(buffer.duration_us, 500_000);
    assert_eq!(buffer.bpm_milli, 90_000);
    assert_eq!(buffer.channels, 2);
}

#[test]
fn floor_division_rounds_down() {
    assert_eq!(floor_div(7, 2), 3);
    assert_eq!(floor_div(-7, 2), -4);
    assert_eq!(floor_div(-8, 2), -4);
    assert_eq!(floor_div(0, 5), 0);
}
