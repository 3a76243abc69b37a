use std::cell::Cell;

use sonata_synth::audio::{AudioInfo, AudioOutputConfig, WaveSamples};
use sonata_synth::error::SonataError;
use sonata_synth::model::{PiperModel, PiperSynthesisConfig, Speaker, SynthesisConfig};
use sonata_synth::parallel::Poll;
use sonata_synth::session::{Sonata, DEFAULT_CHUNK_PADDING, DEFAULT_CHUNK_SIZE};

fn ses_format() -> AudioInfo {
    AudioInfo { sample_rate: 2000, num_channels: 1, sample_width: 2 }
}

fn ses_model() -> PiperModel {
    PiperModel::new(
        ses_format(),
        Some("de".to_string()),
        Some(vec![Speaker { id: 4, name: "eva".to_string() }]),
        SynthesisConfig::Piper(PiperSynthesisConfig {
            speaker: Some(4),
            length_scale: 1,
            noise_scale: 2,
            noise_w: 3,
        }),
    )
    .unwrap()
}

fn ses_split(text: &String) -> Result<Vec<String>, SonataError> {
    Ok(text.split_whitespace().map(|s| s.to_string()).collect())
}

/// The length of the word, twice.
fn ses_speak(word: &String) -> Result<WaveSamples, SonataError> {
    if word == "boom" {
        return Err(SonataError::Inference("boom".to_string()));
    }
    let n = word.len() as i16;
    Ok(WaveSamples::new(vec![n, n], AudioInfo { sample_rate: 1, num_channels: 9, sample_width: 9 }, Some(5)))
}

#[test]
fn session_reads_through_to_the_model() {
    let model = ses_model();
    let session = Sonata::with_piper(&model).unwrap();
    assert_eq!(session.language(), Some("de".to_string()));
    assert_eq!(session.speakers(), Some(&vec![Speaker { id: 4, name: "eva".to_string() }]));
    assert_eq!(session.get_audio_output_info(), ses_format());
}

#[test]
fn sessions_share_one_model() {
    let model = ses_model();
    let a = Sonata::with_piper(&model).unwrap();
    let b = Sonata::with_piper(&model).unwrap();
    assert_eq!(a.get_audio_output_info(), b.get_audio_output_info());
    assert_eq!(a.language(), b.language());
}

#[test]
fn session_defaults() {
    assert_eq!(DEFAULT_CHUNK_SIZE, 45);
    assert_eq!(DEFAULT_CHUNK_PADDING, 3);
}

#[test]
fn synthesize_is_the_lazy_stream() {
    let model = ses_model();
    let session = Sonata::with_piper(&model).unwrap();
    let mut a = session.synthesize("a bb ccc".to_string(), None, &ses_split).unwrap();
    let mut b = session.synthesize_lazy("a bb ccc".to_string(), None, &ses_split).unwrap();
    loop {
        let x = a.next(&ses_speak);
        let y = b.next(&ses_speak);
        assert_eq!(x, y);
        if x.is_none() {
            break;
        }
    }
}

#[test]
fn synthesize_lazy_does_no_inference_by_itself() {
    let calls = Cell::new(0usize);
    let speak = |s: &String| {
        calls.set(calls.get() + 1);
        ses_speak(s)
    };
    let model = ses_model();
    let session = Sonata::with_piper(&model).unwrap();
    let mut stream = session.synthesize_lazy("a bb".to_string(), None, &ses_split).unwrap();
    assert_eq!(calls.get(), 0);
    assert_eq!(stream.next(&speak).unwrap().unwrap().samples, vec![1, 1]);
    assert_eq!(stream.next(&speak).unwrap().unwrap().samples, vec![2, 2]);
    assert!(stream.next(&speak).is_none());
    assert_eq!(calls.get(), 2);
}

#[test]
fn empty_text_gives_streams_that_yield_nothing() {
    let asked = Cell::new(false);
    let split = |t: &String| {
        asked.set(true);
        ses_split(t)
    };
    let model = ses_model();
    let session = Sonata::with_piper(&model).unwrap();
    let mut lazy = session.synthesize_lazy(String::new(), None, &split).unwrap();
    assert!(lazy.next(&ses_speak).is_none());
    let mut plain = session.synthesize(String::new(), None, &split).unwrap();
    assert!(plain.next(&ses_speak).is_none());
    let mut parallel = session.synthesize_parallel(String::new(), None, &split).unwrap();
    assert_eq!(parallel.dispatch(), None);
    assert!(matches!(parallel.next(), Poll::Finished));
    assert!(!asked.get());
}

#[test]
fn empty_text_yields_nothing_even_if_splitting_would_fail() {
    let split = |_: &String| Err(SonataError::Operation("cannot split".to_string()));
    let model = ses_model();
    let session = Sonata::with_piper(&model).unwrap();
    assert!(session.synthesize_lazy(String::new(), None, &split).unwrap().is_finished());
    assert!(session.synthesize_parallel(String::new(), None, &split).unwrap().is_finished());
    assert_eq!(
        session.synthesize_whole(String::new(), None, &split, &ses_speak),
        Ok(WaveSamples::new(vec![], ses_format(), None))
    );
}

#[test]
fn failure_to_split_is_the_failure_of_the_call() {
    let split = |_: &String| Err(SonataError::Operation("cannot split".to_string()));
    let model = ses_model();
    let session = Sonata::with_piper(&model).unwrap();
    let expected = SonataError::Operation("cannot split".to_string());
    assert_eq!(session.synthesize("x".to_string(), None, &split).unwrap_err(), expected);
    assert_eq!(session.synthesize_lazy("x".to_string(), None, &split).unwrap_err(), expected);
    assert_eq!(session.synthesize_parallel("x".to_string(), None, &split).unwrap_err(), expected);
    assert_eq!(session.synthesize_whole("x".to_string(), None, &split, &ses_speak), Err(expected));
}

#[test]
fn synthesize_parallel_starts_with_nothing_handed_out() {
    let model = ses_model();
    let session = Sonata::with_piper(&model).unwrap();
    let mut stream = session.synthesize_parallel("a bb ccc".to_string(), None, &ses_split).unwrap();
    assert!(matches!(stream.next(), Poll::Pending));
    assert_eq!(stream.dispatch(), Some(0));
    assert_eq!(stream.sentence(2), Some(&"ccc".to_string()));
}

#[test]
fn whole_text_is_the_chunks_one_behind_the_other() {
    let model = ses_model();
    let session = Sonata::with_piper(&model).unwrap();
    let config = Some(AudioOutputConfig::new(None, None, None, Some(1000)));
    let audio = session.synthesize_whole("a bb ccc".to_string(), config, &ses_split, &ses_speak);
    assert_eq!(audio, Ok(WaveSamples::new(vec![1, 1, 0, 2, 2, 0, 3, 3, 0], ses_format(), None)));
}

#[test]
fn whole_text_fails_with_the_first_failure_of_the_stream() {
    let calls = Cell::new(0usize);
    let speak = |s: &String| {
        calls.set(calls.get() + 1);
        ses_speak(s)
    };
    let model = ses_model();
    let session = Sonata::with_piper(&model).unwrap();
    let audio = session.synthesize_whole("a boom ccc dddd".to_string(), None, &ses_split, &speak);
    assert_eq!(audio, Err(SonataError::Inference("boom".to_string())));
    assert_eq!(calls.get(), 2);
}
