//! The synthesizer session: the entry point for speech from one model.

use vstd::prelude::*;
use crate::audio::{AudioInfo, AudioOutputConfig, WaveSamples};
use crate::error::SonataError;
use crate::lazy::{LazySpeechStream, LazyView};
use crate::model::{directory_of, optional_text, PiperModel, Speaker};
use crate::parallel::{ParallelSpeechStream, ParallelView};
use crate::channel::open_channel;
use crate::realtime::{JobView, RealtimeJob, RealtimeSpeechStream};
use crate::stream::{
    delivered, delivered_all, gather, gathered, item_view, items_view, yield_view, ItemView,
};

verus! {

/// How many sentences go into one call of the model where the caller names
/// no number.
pub const DEFAULT_CHUNK_SIZE: usize = 45;

/// How many sentences of context the model reads on each side of a batch
/// where the caller names no number.
pub const DEFAULT_CHUNK_PADDING: usize = 3;

/// The number that the caller named, or `default` where it named none.
pub open spec fn or_default(given: Option<usize>, default: usize) -> usize {
    match given {
        Some(n) => n,
        None => default,
    }
}

/// The sentences of `text`: none for an empty text, for which `segment` is
/// not asked, and what `segment` answers for any other.
fn split_text<S: Fn(&String) -> Result<Vec<String>, SonataError>>(text: &String, segment: &S) -> (segmented:
    Result<Vec<String>, SonataError>)
    requires
        forall|t: &String| segment.requires((t,)),
    ensures
        text@.len() == 0 ==> segmented.is_ok() && segmented.unwrap()@ == Seq::<String>::empty(),
        text@.len() > 0 ==> segment.ensures((text,), segmented),
{
    if text.as_str().is_empty() {
        Ok(Vec::new())
    } else {
        segment(text)
    }
}

/// Whether `answers` are the model's results for the sentences that a lazy
/// stream asks for when it is pulled to its end: one for each sentence from
/// the first on, none of them giving a failure but the last, and the last
/// giving one unless every sentence was asked for.
pub open spec fn pulled_to_end(
    sentences: Seq<String>,
    config: Option<AudioOutputConfig>,
    answers: Seq<ItemView>,
) -> bool {
    &&& answers.len() <= sentences.len()
    &&& forall|i: int| 0 <= i < answers.len() - 1 ==> delivered(config, answers[i]).is_ok()
    &&& answers.len() < sentences.len() ==> answers.len() > 0 && delivered(
        config,
        answers.last(),
    ).is_err()
}

/// Whether `speak` gave `answers` for the first of `sentences`, one each.
pub open spec fn answered<F: Fn(&String) -> Result<WaveSamples, SonataError>>(
    speak: &F,
    sentences: Seq<String>,
    answers: Seq<Result<WaveSamples, SonataError>>,
) -> bool {
    &&& answers.len() <= sentences.len()
    &&& forall|i: int| 0 <= i < answers.len() ==> speak.ensures((&sentences[i],), #[trigger] answers[i])
}

/// Whether `audio` is the whole of a text, when splitting the text gave
/// `segmented` and `speak` gave `answers` for its sentences: the failure to
/// split, or else what a lazy stream over the sentences yields when it is
/// pulled to its end, joined into one piece in the format `info`.
pub open spec fn whole_of<F: Fn(&String) -> Result<WaveSamples, SonataError>>(
    speak: &F,
    info: AudioInfo,
    config: Option<AudioOutputConfig>,
    segmented: Result<Vec<String>, SonataError>,
    answers: Seq<Result<WaveSamples, SonataError>>,
    audio: Result<WaveSamples, SonataError>,
) -> bool {
    match segmented {
        Err(e) => audio.is_err() && audio->Err_0 == e,
        Ok(sentences) => answered(speak, sentences@, answers) && pulled_to_end(
            sentences@,
            config,
            items_view(answers),
        ) && item_view(audio) == gathered(info, delivered_all(config, items_view(answers))),
    }
}

/// Pulls a lazy stream over `sentences` to its end and joins what it yields.
fn speak_all<F: Fn(&String) -> Result<WaveSamples, SonataError>>(
    info: AudioInfo,
    sentences: Vec<String>,
    config: Option<AudioOutputConfig>,
    speak: &F,
) -> (audio: Result<WaveSamples, SonataError>)
    requires
        forall|s: &String| speak.requires((s,)),
    ensures
        exists|answers: Seq<Result<WaveSamples, SonataError>>|
            answered(speak, sentences@, answers) && pulled_to_end(
                sentences@,
                config,
                items_view(answers),
            ) && item_view(audio) == gathered(info, delivered_all(config, items_view(answers))),
{
    let mut stream = LazySpeechStream::new(sentences, config);
    let mut items: Vec<Result<WaveSamples, SonataError>> = Vec::new();
    let ghost mut answers: Seq<Result<WaveSamples, SonataError>> = Seq::empty();
    while !stream.is_finished()
        invariant
            forall|s: &String| speak.requires((s,)),
            stream@.sentences == sentences@,
            stream@.config == config,
            stream@.cursor == answers.len(),
            stream@.cursor <= sentences@.len(),
            answered(speak, sentences@, answers),
            items_view(items@) =~= delivered_all(config, items_view(answers)),
            forall|i: int|
                0 <= i < answers.len() - 1 ==> delivered(config, items_view(answers)[i]).is_ok(),
            stream@.closed == (answers.len() > 0 && delivered(
                config,
                items_view(answers).last(),
            ).is_err()),
        decreases sentences@.len() - stream@.cursor,
    {
        let ghost before = stream@;
        let item = stream.next(speak);
        proof {
            let answer = choose|synthesized: Result<WaveSamples, SonataError>|
                speak.ensures((&before.sentences[before.cursor as int],), synthesized) && (
                    stream@,
                    yield_view(item),
                ) == before.step(item_view(synthesized));
            let longer = answers.push(answer);
            assert(answered(speak, sentences@, longer)) by {
                assert forall|i: int| 0 <= i < longer.len() implies speak.ensures(
                    (&sentences@[i],),
                    #[trigger] longer[i],
                ) by {
                    if i < answers.len() {
                        assert(longer[i] == answers[i]);
                    }
                }
            }
            assert(items_view(longer) =~= items_view(answers).push(item_view(answer)));
            answers = longer;
        }
        let ghost earlier = items@;
        match item {
            Some(item) => {
                items.push(item);
                proof {
                    assert(items_view(items@) =~= items_view(earlier).push(item_view(item)));
                    assert(item_view(item) == delivered(config, items_view(answers).last()));
                }
            },
            None => {},
        }
    }
    let audio = gather(info, items);
    proof {
        assert(items_view(items@) == delivered_all(config, items_view(answers)));
        assert(answered(speak, sentences@, answers) && pulled_to_end(
            sentences@,
            config,
            items_view(answers),
        ) && item_view(audio) == gathered(info, delivered_all(config, items_view(answers))));
    }
    audio
}

/// A synthesizer session: the entry point for speech from one model. It
/// reads the model and never changes it.
#[derive(Debug)]
pub struct Sonata<'a> {
    model: &'a PiperModel,
}

impl<'a> Sonata<'a> {
    /// The model of this session.
    pub closed spec fn model(&self) -> &PiperModel {
        self.model
    }

    /// A session on `model`.
    pub fn with_piper(model: &'a PiperModel) -> (session: Result<Sonata<'a>, SonataError>)
        ensures
            session.is_ok(),
            session.unwrap().model() == model,
    {
        Ok(Sonata { model })
    }

    /// A lazy stream for `text`; the same as `synthesize_lazy`.
    pub fn synthesize<S: Fn(&String) -> Result<Vec<String>, SonataError>>(
        &self,
        text: String,
        audio_output_config: Option<AudioOutputConfig>,
        segment: &S,
    ) -> (stream: Result<LazySpeechStream, SonataError>)
        requires
            forall|t: &String| segment.requires((t,)),
        ensures
            text@.len() == 0 ==> stream.is_ok() && stream.unwrap()@ == LazyView::fresh(
                Seq::empty(),
                audio_output_config,
            ),
            text@.len() > 0 ==> exists|segmented: Result<Vec<String>, SonataError>|
                segment.ensures((&text,), segmented) && match segmented {
                    Ok(sentences) => stream.is_ok() && stream.unwrap()@ == LazyView::fresh(
                        sentences@,
                        audio_output_config,
                    ),
                    Err(e) => stream.is_err() && stream.unwrap_err() == e,
                },
    {
        self.synthesize_lazy(text, audio_output_config, segment)
    }

    /// A lazy stream for `text`, which has not started: `segment` is asked
    /// for the sentences, the model is asked for no audio yet. An empty text
    /// gives a stream without sentences and `segment` is not asked. A failure
    /// of `segment` is the failure of this call.
    pub fn synthesize_lazy<S: Fn(&String) -> Result<Vec<String>, SonataError>>(
        &self,
        text: String,
        audio_output_config: Option<AudioOutputConfig>,
        segment: &S,
    ) -> (stream: Result<LazySpeechStream, SonataError>)
        requires
            forall|t: &String| segment.requires((t,)),
        ensures
            text@.len() == 0 ==> stream.is_ok() && stream.unwrap()@ == LazyView::fresh(
                Seq::empty(),
                audio_output_config,
            ),
            text@.len() > 0 ==> exists|segmented: Result<Vec<String>, SonataError>|
                segment.ensures((&text,), segmented) && match segmented {
                    Ok(sentences) => stream.is_ok() && stream.unwrap()@ == LazyView::fresh(
                        sentences@,
                        audio_output_config,
                    ),
                    Err(e) => stream.is_err() && stream.unwrap_err() == e,
                },
    {
        let segmented = split_text(&text, segment);
        let ghost answer = segmented;
        let stream = match segmented {
            Ok(sentences) => Ok(LazySpeechStream::new(sentences, audio_output_config)),
            Err(e) => Err(e),
        };
        proof {
            if text@.len() > 0 {
                assert(segment.ensures((&text,), answer) && match answer {
                    Ok(sentences) => stream.is_ok() && stream.unwrap()@ == LazyView::fresh(
                        sentences@,
                        audio_output_config,
                    ),
                    Err(e) => stream.is_err() && stream.unwrap_err() == e,
                });
            }
        }
        stream
    }

    /// A parallel stream for `text`, which has not started: `segment` is
    /// asked for the sentences, no sentence is handed out yet. An empty text
    /// gives a stream without sentences and `segment` is not asked. A failure
    /// of `segment` is the failure of this call.
    pub fn synthesize_parallel<S: Fn(&String) -> Result<Vec<String>, SonataError>>(
        &self,
        text: String,
        audio_output_config: Option<AudioOutputConfig>,
        segment: &S,
    ) -> (stream: Result<ParallelSpeechStream, SonataError>)
        requires
            forall|t: &String| segment.requires((t,)),
        ensures
            text@.len() == 0 ==> stream.is_ok() && stream.unwrap()@ == ParallelView::fresh(
                Seq::empty(),
                audio_output_config,
            ),
            text@.len() > 0 ==> exists|segmented: Result<Vec<String>, SonataError>|
                segment.ensures((&text,), segmented) && match segmented {
                    Ok(sentences) => stream.is_ok() && stream.unwrap()@ == ParallelView::fresh(
                        sentences@,
                        audio_output_config,
                    ),
                    Err(e) => stream.is_err() && stream.unwrap_err() == e,
                },
    {
        let segmented = split_text(&text, segment);
        let ghost answer = segmented;
        let stream = match segmented {
            Ok(sentences) => Ok(ParallelSpeechStream::new(sentences, audio_output_config)),
            Err(e) => Err(e),
        };
        proof {
            if text@.len() > 0 {
                assert(segment.ensures((&text,), answer) && match answer {
                    Ok(sentences) => stream.is_ok() && stream.unwrap()@ == ParallelView::fresh(
                        sentences@,
                        audio_output_config,
                    ),
                    Err(e) => stream.is_err() && stream.unwrap_err() == e,
                });
            }
        }
        stream
    }

    /// The two sides of a realtime stream for `text`: the job, which the
    /// caller hands to a worker at once, and the stream that yields what the
    /// job sends. The job has not started; it works in batches of
    /// `chunk_size` sentences, 45 where none is given, with `chunk_padding`
    /// sentences of context, 3 where none is given.
    pub fn synthesize_streamed(
        &self,
        text: String,
        audio_output_config: Option<AudioOutputConfig>,
        chunk_size: Option<usize>,
        chunk_padding: Option<usize>,
    ) -> (sides: (RealtimeJob, RealtimeSpeechStream))
        ensures
            sides.0@ == JobView::fresh(
                text,
                audio_output_config,
                or_default(chunk_size, DEFAULT_CHUNK_SIZE) as nat,
                or_default(chunk_padding, DEFAULT_CHUNK_PADDING) as nat,
            ),
            !sides.1.closed(),
    {
        let chunk_size: usize = match chunk_size {
            Some(n) => n,
            None => DEFAULT_CHUNK_SIZE,
        };
        let chunk_padding: usize = match chunk_padding {
            Some(n) => n,
            None => DEFAULT_CHUNK_PADDING,
        };
        let (sender, receiver) = open_channel();
        (
            RealtimeJob::new(text, audio_output_config, chunk_size, chunk_padding, sender),
            RealtimeSpeechStream::new(receiver),
        )
    }

    /// The whole of `text` as one piece of audio in the model's format, for
    /// the caller to write out: a lazy stream for the text, pulled to its
    /// end, its chunks one behind the other. A failure of `segment` or the
    /// first failure of the stream is the failure of this call. An empty text
    /// gives audio without samples, and neither `segment` nor `speak` is
    /// asked.
    pub fn synthesize_whole<
        S: Fn(&String) -> Result<Vec<String>, SonataError>,
        F: Fn(&String) -> Result<WaveSamples, SonataError>,
    >(
        &self,
        text: String,
        audio_output_config: Option<AudioOutputConfig>,
        segment: &S,
        speak: &F,
    ) -> (audio: Result<WaveSamples, SonataError>)
        requires
            forall|t: &String| segment.requires((t,)),
            forall|s: &String| speak.requires((s,)),
        ensures
            text@.len() == 0 ==> item_view(audio) == gathered(self.model()@.info, Seq::empty()),
            text@.len() > 0 ==> exists|
                segmented: Result<Vec<String>, SonataError>,
                answers: Seq<Result<WaveSamples, SonataError>>,
            |
                segment.ensures((&text,), segmented) && #[trigger] whole_of(
                    speak,
                    self.model()@.info,
                    audio_output_config,
                    segmented,
                    answers,
                    audio,
                ),
    {
        let info = self.model.audio_output_info();
        let segmented = split_text(&text, segment);
        let ghost answer = segmented;
        match segmented {
            Err(e) => {
                let audio = Err(e);
                proof {
                    let none = Seq::<Result<WaveSamples, SonataError>>::empty();
                    assert(segment.ensures((&text,), answer) && whole_of(
                        speak,
                        info,
                        audio_output_config,
                        answer,
                        none,
                        audio,
                    ));
                }
                audio
            },
            Ok(sentences) => {
                let audio = speak_all(info, sentences, audio_output_config, speak);
                proof {
                    let answers = choose|answers: Seq<Result<WaveSamples, SonataError>>|
                        answered(speak, sentences@, answers) && pulled_to_end(
                            sentences@,
                            audio_output_config,
                            items_view(answers),
                        ) && item_view(audio) == gathered(
                            info,
                            delivered_all(audio_output_config, items_view(answers)),
                        );
                    if text@.len() == 0 {
                        assert(items_view(answers) =~= Seq::empty());
                        assert(delivered_all(audio_output_config, items_view(answers)) =~= Seq::empty());
                    } else {
                        assert(segment.ensures((&text,), answer) && whole_of(
                            speak,
                            info,
                            audio_output_config,
                            answer,
                            answers,
                            audio,
                        ));
                    }
                }
                audio
            },
        }
    }

    /// The language of the model, where it names one.
    pub fn language(&self) -> (language: Option<String>)
        ensures
            optional_text(language) == self.model()@.language,
    {
        self.model.language()
    }

    /// The speaker directory of the model, where it has one.
    pub fn speakers(&self) -> (speakers: Option<&Vec<Speaker>>)
        ensures
            match speakers {
                Some(s) => self.model()@.speakers == Some(directory_of(s@)),
                None => self.model()@.speakers.is_none(),
            },
    {
        self.model.speakers()
    }

    /// The format of the audio that the model produces.
    pub fn get_audio_output_info(&self) -> (info: AudioInfo)
        ensures
            info == self.model()@.info,
    {
        self.model.audio_output_info()
    }
}

} // verus!
