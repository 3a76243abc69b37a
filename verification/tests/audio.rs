use sonata_synth::audio::{
    append_silence, AudioInfo, AudioOutputConfig, RealTimeFactor, WaveSamples,
};
use sonata_synth::error::SonataError;
use sonata_synth::stream::{deliver, gather};

fn format_of(sample_rate: usize) -> AudioInfo {
    AudioInfo { sample_rate, num_channels: 1, sample_width: 2 }
}

fn chunk_of(samples: Vec<i16>) -> WaveSamples {
    WaveSamples::new(samples, format_of(22050), Some(12))
}

#[test]
fn audio_info_getters() {
    let i = AudioInfo { sample_rate: 16000, num_channels: 2, sample_width: 4 };
    assert_eq!(i.get_sample_rate(), 16000);
    assert_eq!(i.get_num_channels(), 2);
    assert_eq!(i.get_sample_width(), 4);
}

#[test]
fn output_config_keeps_each_field() {
    let c = AudioOutputConfig::new(Some(10), None, Some(30), Some(250));
    assert_eq!(c.rate, Some(10));
    assert_eq!(c.volume, None);
    assert_eq!(c.pitch, Some(30));
    assert_eq!(c.appended_silence_ms, Some(250));
    let none = AudioOutputConfig::new(None, None, None, None);
    assert_eq!(
        none,
        AudioOutputConfig { rate: None, volume: None, pitch: None, appended_silence_ms: None }
    );
}

#[test]
fn wave_samples_getters() {
    let w = WaveSamples::new(vec![1, 2, 3], AudioInfo { sample_rate: 8000, num_channels: 2, sample_width: 2 }, Some(5));
    assert_eq!(w.sample_rate(), 8000);
    assert_eq!(w.num_channels(), 2);
    assert_eq!(w.sample_width(), 2);
    assert_eq!(w.inference_ms(), Some(5));
    assert_eq!(w.samples, vec![1, 2, 3]);
}

#[test]
fn wave_bytes_are_little_endian() {
    let w = chunk_of(vec![0, 1, -1, 256, -32768, 32767, 0x1234, -2]);
    assert_eq!(
        w.get_wave_bytes(),
        vec![0, 0, 1, 0, 255, 255, 0, 1, 0, 128, 255, 127, 0x34, 0x12, 254, 255]
    );
}

#[test]
fn wave_bytes_agree_with_the_standard_library() {
    let samples: Vec<i16> = vec![-32768, -12345, -257, -256, -255, -1, 0, 1, 255, 256, 257, 12345, 32767];
    let mut expected: Vec<u8> = Vec::new();
    for s in &samples {
        expected.extend_from_slice(&s.to_le_bytes());
    }
    assert_eq!(chunk_of(samples).get_wave_bytes(), expected);
}

#[test]
fn wave_bytes_of_no_samples_are_none() {
    assert_eq!(chunk_of(vec![]).get_wave_bytes(), Vec::<u8>::new());
}

#[test]
fn duration_is_in_whole_milliseconds() {
    assert_eq!(chunk_of(vec![0; 22050]).duration_ms(), Some(1000));
    assert_eq!(chunk_of(vec![0; 2205]).duration_ms(), Some(100));
    assert_eq!(chunk_of(vec![0; 1]).duration_ms(), Some(0));
    assert_eq!(chunk_of(vec![0; 23]).duration_ms(), Some(1));
    assert_eq!(chunk_of(vec![]).duration_ms(), Some(0));
}

#[test]
fn duration_needs_a_sample_rate() {
    let w = WaveSamples::new(vec![0; 10], format_of(0), Some(1));
    assert_eq!(w.duration_ms(), None);
    assert_eq!(w.real_time_factor(), None);
}

#[test]
fn real_time_factor_is_inference_over_duration() {
    let w = WaveSamples::new(vec![0; 44100], format_of(22050), Some(500));
    assert_eq!(
        w.real_time_factor(),
        Some(RealTimeFactor { inference_ms: 500, duration_ms: 2000 })
    );
}

#[test]
fn real_time_factor_needs_a_measured_time_and_some_audio() {
    let unmeasured = WaveSamples::new(vec![0; 44100], format_of(22050), None);
    assert_eq!(unmeasured.real_time_factor(), None);
    let too_short = WaveSamples::new(vec![0; 3], format_of(22050), Some(7));
    assert_eq!(too_short.real_time_factor(), None);
}

#[test]
fn silence_is_appended_behind_the_audio() {
    let config = Some(AudioOutputConfig::new(None, None, None, Some(100)));
    let out = append_silence(&config, WaveSamples::new(vec![5, -5], format_of(16000), Some(3))).unwrap();
    let mut expected: Vec<i16> = vec![5, -5];
    expected.extend(vec![0i16; 1600]);
    assert_eq!(out.samples, expected);
    assert_eq!(out.info, format_of(16000));
    assert_eq!(out.inference_ms, Some(3));
}

#[test]
fn silence_length_rounds_down() {
    let config = Some(AudioOutputConfig::new(None, None, None, Some(1)));
    let out = append_silence(&config, WaveSamples::new(vec![1], format_of(22050), None)).unwrap();
    assert_eq!(out.samples.len(), 1 + 22);
    let none = Some(AudioOutputConfig::new(None, None, None, Some(1)));
    let out = append_silence(&none, WaveSamples::new(vec![1], format_of(999), None)).unwrap();
    assert_eq!(out.samples, vec![1]);
}

#[test]
fn no_silence_asked_leaves_the_audio_as_it_is() {
    let audio = chunk_of(vec![1, 2, 3]);
    assert_eq!(append_silence(&None, audio.clone()), Ok(audio.clone()));
    let config = Some(AudioOutputConfig::new(Some(1), Some(2), Some(3), None));
    assert_eq!(append_silence(&config, audio.clone()), Ok(audio.clone()));
    let zero = Some(AudioOutputConfig::new(None, None, None, Some(0)));
    assert_eq!(append_silence(&zero, audio.clone()), Ok(audio));
}

#[test]
fn silence_that_cannot_be_held_is_an_error() {
    let config = Some(AudioOutputConfig::new(None, None, None, Some(u32::MAX)));
    let audio = WaveSamples::new(vec![1, 2], format_of(usize::MAX), None);
    assert_eq!(
        append_silence(&config, audio),
        Err(SonataError::Operation("appended silence does not fit in memory".to_string()))
    );
}

#[test]
fn deliver_appends_silence_and_passes_failures_on() {
    let config = Some(AudioOutputConfig::new(None, None, None, Some(2)));
    let out = deliver(&config, Ok(WaveSamples::new(vec![9], format_of(1000), None)));
    assert_eq!(out, Ok(WaveSamples::new(vec![9, 0, 0], format_of(1000), None)));
    let failure = SonataError::Inference("model broke".to_string());
    assert_eq!(deliver(&config, Err(failure.clone())), Err(failure));
}

#[test]
fn gather_joins_the_chunks_in_order() {
    let items = vec![Ok(chunk_of(vec![1, 2])), Ok(chunk_of(vec![])), Ok(chunk_of(vec![3]))];
    assert_eq!(
        gather(format_of(8000), items),
        Ok(WaveSamples::new(vec![1, 2, 3], format_of(8000), None))
    );
}

#[test]
fn gather_of_nothing_is_audio_without_samples() {
    assert_eq!(gather(format_of(8000), vec![]), Ok(WaveSamples::new(vec![], format_of(8000), None)));
}

#[test]
fn gather_returns_the_first_failure() {
    let first = SonataError::Inference("first".to_string());
    let second = SonataError::Operation("second".to_string());
    let items = vec![Ok(chunk_of(vec![1])), Err(first.clone()), Ok(chunk_of(vec![2])), Err(second)];
    assert_eq!(gather(format_of(8000), items), Err(first));
}
