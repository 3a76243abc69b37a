use std::cell::Cell;

use sonata_synth::audio::{AudioInfo, AudioOutputConfig, WaveSamples};
use sonata_synth::error::SonataError;
use sonata_synth::lazy::LazySpeechStream;

fn lazy_format() -> AudioInfo {
    AudioInfo { sample_rate: 1000, num_channels: 1, sample_width: 2 }
}

fn lazy_sentences(n: usize) -> Vec<String> {
    (0..n).map(|i| format!("sentence {}", i)).collect()
}

/// Audio whose samples spell the number at the end of the sentence.
fn lazy_speak(sentence: &String) -> Result<WaveSamples, SonataError> {
    let n: i16 = sentence.rsplit(' ').next().unwrap().parse().unwrap();
    Ok(WaveSamples::new(vec![n, n + 100], lazy_format(), Some(1)))
}

#[test]
fn lazy_stream_yields_in_sentence_order() {
    let mut stream = LazySpeechStream::new(lazy_sentences(4), None);
    let mut seen: Vec<Vec<i16>> = Vec::new();
    while let Some(item) = stream.next(&lazy_speak) {
        seen.push(item.unwrap().samples);
    }
    assert_eq!(seen, vec![vec![0, 100], vec![1, 101], vec![2, 102], vec![3, 103]]);
    assert!(stream.is_finished());
    assert!(stream.next(&lazy_speak).is_none());
}

#[test]
fn lazy_stream_asks_for_one_sentence_at_a_pull() {
    let calls = Cell::new(0usize);
    let speak = |s: &String| {
        calls.set(calls.get() + 1);
        lazy_speak(s)
    };
    let mut stream = LazySpeechStream::new(lazy_sentences(3), None);
    assert_eq!(calls.get(), 0);
    stream.next(&speak);
    assert_eq!(calls.get(), 1);
    stream.next(&speak);
    assert_eq!(calls.get(), 2);
    stream.next(&speak);
    assert_eq!(calls.get(), 3);
    assert!(stream.next(&speak).is_none());
    assert_eq!(calls.get(), 3);
}

#[test]
fn lazy_stream_without_sentences_yields_nothing() {
    let calls = Cell::new(0usize);
    let speak = |s: &String| {
        calls.set(calls.get() + 1);
        lazy_speak(s)
    };
    let mut stream = LazySpeechStream::new(Vec::new(), None);
    assert!(stream.is_finished());
    assert!(stream.pending().is_none());
    assert!(stream.next(&speak).is_none());
    assert_eq!(calls.get(), 0);
}

#[test]
fn lazy_stream_ends_with_the_first_failure() {
    let calls = Cell::new(0usize);
    let speak = |s: &String| {
        calls.set(calls.get() + 1);
        if s == "sentence 2" {
            Err(SonataError::Inference("no audio for sentence 2".to_string()))
        } else {
            lazy_speak(s)
        }
    };
    let mut stream = LazySpeechStream::new(lazy_sentences(5), None);
    assert_eq!(stream.next(&speak), Some(Ok(WaveSamples::new(vec![0, 100], lazy_format(), Some(1)))));
    assert_eq!(stream.next(&speak), Some(Ok(WaveSamples::new(vec![1, 101], lazy_format(), Some(1)))));
    assert_eq!(
        stream.next(&speak),
        Some(Err(SonataError::Inference("no audio for sentence 2".to_string())))
    );
    assert!(stream.is_finished());
    assert_eq!(stream.next(&speak), None);
    assert_eq!(stream.next(&speak), None);
    assert_eq!(calls.get(), 3);
}

#[test]
fn lazy_stream_names_the_pending_sentence() {
    let mut stream = LazySpeechStream::new(lazy_sentences(2), None);
    assert_eq!(stream.sentence_count(), 2);
    assert_eq!(stream.pending(), Some(&"sentence 0".to_string()));
    stream.advance(lazy_speak(&"sentence 0".to_string()));
    assert_eq!(stream.pending(), Some(&"sentence 1".to_string()));
    stream.advance(lazy_speak(&"sentence 1".to_string()));
    assert_eq!(stream.pending(), None);
}

#[test]
fn lazy_advance_on_a_finished_stream_yields_nothing() {
    let mut stream = LazySpeechStream::new(lazy_sentences(1), None);
    assert!(stream.advance(Err(SonataError::Inference("x".to_string()))).is_some());
    assert!(stream.is_finished());
    assert_eq!(stream.advance(lazy_speak(&"sentence 0".to_string())), None);
}

#[test]
fn lazy_stream_appends_the_requested_silence() {
    let config = Some(AudioOutputConfig::new(Some(50), None, None, Some(3)));
    let mut stream = LazySpeechStream::new(lazy_sentences(2), config);
    assert_eq!(stream.output_config(), config);
    assert_eq!(stream.next(&lazy_speak).unwrap().unwrap().samples, vec![0, 100, 0, 0, 0]);
    assert_eq!(stream.next(&lazy_speak).unwrap().unwrap().samples, vec![1, 101, 0, 0, 0]);
}

#[test]
fn lazy_stream_ends_when_silence_cannot_be_held() {
    let config = Some(AudioOutputConfig::new(None, None, None, Some(u32::MAX)));
    let huge = |_: &String| {
        Ok(WaveSamples::new(
            vec![1],
            AudioInfo { sample_rate: usize::MAX, num_channels: 1, sample_width: 2 },
            None,
        ))
    };
    let mut stream = LazySpeechStream::new(lazy_sentences(3), config);
    assert_eq!(
        stream.next(&huge),
        Some(Err(SonataError::Operation("appended silence does not fit in memory".to_string())))
    );
    assert_eq!(stream.next(&huge), None);
}
