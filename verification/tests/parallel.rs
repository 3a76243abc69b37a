use sonata_synth::audio::{AudioInfo, AudioOutputConfig, WaveSamples};
use sonata_synth::error::SonataError;
use sonata_synth::lazy::LazySpeechStream;
use sonata_synth::parallel::{ParallelSpeechStream, Poll};

fn par_format() -> AudioInfo {
    AudioInfo { sample_rate: 1000, num_channels: 1, sample_width: 2 }
}

fn par_sentences(n: usize) -> Vec<String> {
    (0..n).map(|i| format!("s{}", i)).collect()
}

fn par_speak(sentence: &String) -> Result<WaveSamples, SonataError> {
    let n: i16 = sentence[1..].parse().unwrap();
    if n == 13 {
        return Err(SonataError::Inference("unlucky sentence".to_string()));
    }
    Ok(WaveSamples::new(vec![n; (n as usize % 3) + 1], par_format(), Some(n as u64)))
}

fn samples_of(poll: Poll) -> Vec<i16> {
    match poll {
        Poll::Ready(Ok(audio)) => audio.samples,
        other => panic!("expected audio, got {:?}", other),
    }
}

/// Hands out every sentence, completes them in the given order, pulling
/// after each completion, and returns everything that was yielded.
fn run_in_order(
    n: usize,
    config: Option<AudioOutputConfig>,
    completion: &[usize],
) -> Vec<Result<WaveSamples, SonataError>> {
    let mut stream = ParallelSpeechStream::new(par_sentences(n), config);
    while stream.dispatch().is_some() {}
    let mut out = Vec::new();
    for &index in completion {
        let result = par_speak(stream.sentence(index).unwrap());
        stream.complete(index, result);
        loop {
            match stream.next() {
                Poll::Ready(item) => out.push(item),
                Poll::Pending | Poll::Finished => break,
            }
        }
    }
    out
}

fn run_lazy(n: usize, config: Option<AudioOutputConfig>) -> Vec<Result<WaveSamples, SonataError>> {
    let mut stream = LazySpeechStream::new(par_sentences(n), config);
    let mut out = Vec::new();
    while let Some(item) = stream.next(&par_speak) {
        out.push(item);
    }
    out
}

fn joined(items: &[Result<WaveSamples, SonataError>]) -> Vec<i16> {
    let mut all = Vec::new();
    for item in items {
        if let Ok(audio) = item {
            all.extend_from_slice(&audio.samples);
        }
    }
    all
}

#[test]
fn parallel_stream_hands_out_sentences_in_order() {
    let mut stream = ParallelSpeechStream::new(par_sentences(3), None);
    assert_eq!(stream.sentence_count(), 3);
    assert_eq!(stream.dispatch(), Some(0));
    assert_eq!(stream.dispatch(), Some(1));
    assert_eq!(stream.dispatch(), Some(2));
    assert_eq!(stream.dispatch(), None);
    assert_eq!(stream.sentence(1), Some(&"s1".to_string()));
    assert_eq!(stream.sentence(3), None);
}

#[test]
fn parallel_stream_waits_for_the_item_in_turn() {
    let mut stream = ParallelSpeechStream::new(par_sentences(3), None);
    while stream.dispatch().is_some() {}
    assert!(matches!(stream.next(), Poll::Pending));
    assert!(stream.complete(2, par_speak(&"s2".to_string())));
    assert!(matches!(stream.next(), Poll::Pending));
    assert!(stream.complete(1, par_speak(&"s1".to_string())));
    assert!(matches!(stream.next(), Poll::Pending));
    assert!(stream.complete(0, par_speak(&"s0".to_string())));
    assert_eq!(samples_of(stream.next()), vec![0]);
    assert_eq!(samples_of(stream.next()), vec![1, 1]);
    assert_eq!(samples_of(stream.next()), vec![2, 2, 2]);
    assert!(matches!(stream.next(), Poll::Finished));
    assert!(stream.is_finished());
}

#[test]
fn parallel_stream_yields_in_sentence_order_under_any_completion_order() {
    let expected = run_lazy(6, None);
    assert_eq!(expected.len(), 6);
    let orders: Vec<Vec<usize>> = vec![
        vec![0, 1, 2, 3, 4, 5],
        vec![5, 4, 3, 2, 1, 0],
        vec![3, 0, 5, 1, 4, 2],
        vec![1, 0, 3, 2, 5, 4],
        vec![2, 4, 0, 5, 3, 1],
    ];
    for order in orders {
        assert_eq!(run_in_order(6, None, &order), expected);
    }
}

#[test]
fn parallel_and_lazy_give_the_same_audio() {
    let config = Some(AudioOutputConfig::new(None, Some(80), None, Some(4)));
    let lazy = run_lazy(9, config);
    let parallel = run_in_order(9, config, &[8, 6, 7, 0, 2, 1, 5, 3, 4]);
    assert_eq!(parallel, lazy);
    assert_eq!(joined(&parallel), joined(&lazy));
    assert_eq!(joined(&lazy).len(), (1 + 2 + 3) * 3 + 9 * 4);
}

#[test]
fn parallel_stream_ends_with_the_first_failure() {
    let order: Vec<usize> = vec![15, 14, 13, 12, 11, 10, 9, 8, 7, 6, 5, 4, 3, 2, 1, 0];
    let out = run_in_order(16, None, &order);
    assert_eq!(out.len(), 14);
    for (i, item) in out.iter().take(13).enumerate() {
        assert_eq!(item.as_ref().unwrap().samples[0], i as i16);
    }
    assert_eq!(out[13], Err(SonataError::Inference("unlucky sentence".to_string())));
    assert_eq!(out, run_lazy(16, None));
}

#[test]
fn parallel_stream_abandons_work_after_a_failure() {
    let mut stream = ParallelSpeechStream::new(par_sentences(4), None);
    assert_eq!(stream.dispatch(), Some(0));
    assert_eq!(stream.dispatch(), Some(1));
    assert!(stream.complete(0, Err(SonataError::Inference("broken".to_string()))));
    assert!(matches!(stream.next(), Poll::Ready(Err(_))));
    assert!(stream.is_finished());
    assert_eq!(stream.dispatch(), None);
    assert!(!stream.complete(1, par_speak(&"s1".to_string())));
    assert!(matches!(stream.next(), Poll::Finished));
    assert!(matches!(stream.next(), Poll::Finished));
}

#[test]
fn parallel_stream_yields_earlier_sentences_before_a_failure_that_came_first() {
    let mut stream = ParallelSpeechStream::new(par_sentences(3), None);
    while stream.dispatch().is_some() {}
    assert!(stream.complete(1, Err(SonataError::Inference("broken".to_string()))));
    assert!(matches!(stream.next(), Poll::Pending));
    assert!(stream.complete(2, par_speak(&"s2".to_string())));
    assert!(stream.complete(0, par_speak(&"s0".to_string())));
    assert_eq!(samples_of(stream.next()), vec![0]);
    assert!(matches!(stream.next(), Poll::Ready(Err(SonataError::Inference(_)))));
    assert!(matches!(stream.next(), Poll::Finished));
}

#[test]
fn parallel_stream_drops_results_it_does_not_wait_for() {
    let mut stream = ParallelSpeechStream::new(par_sentences(3), None);
    assert!(!stream.complete(0, par_speak(&"s0".to_string())));
    assert_eq!(stream.dispatch(), Some(0));
    assert!(!stream.complete(1, par_speak(&"s1".to_string())));
    assert!(!stream.complete(7, par_speak(&"s7".to_string())));
    assert!(stream.complete(0, par_speak(&"s0".to_string())));
    assert!(!stream.complete(0, par_speak(&"s5".to_string())));
    assert_eq!(samples_of(stream.next()), vec![0]);
    assert!(!stream.complete(0, par_speak(&"s0".to_string())));
    assert!(matches!(stream.next(), Poll::Pending));
}

#[test]
fn parallel_stream_without_sentences_is_finished() {
    let mut stream = ParallelSpeechStream::new(Vec::new(), None);
    assert!(stream.is_finished());
    assert_eq!(stream.dispatch(), None);
    assert!(matches!(stream.next(), Poll::Finished));
}

#[test]
fn parallel_stream_appends_the_requested_silence() {
    let config = Some(AudioOutputConfig::new(None, None, None, Some(2)));
    let mut stream = ParallelSpeechStream::new(par_sentences(1), config);
    assert_eq!(stream.output_config(), config);
    stream.dispatch();
    stream.complete(0, par_speak(&"s0".to_string()));
    assert_eq!(samples_of(stream.next()), vec![0, 0, 0]);
}
