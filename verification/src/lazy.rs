//! The lazy stream: one sentence at a time, on the thread that pulls.

use vstd::prelude::*;
use crate::audio::{AudioOutputConfig, WaveSamples};
use crate::error::SonataError;
use crate::stream::{
    deliver, delivered, delivered_all, first_failure, item_view, lemma_first_failure,
    lemma_first_failure_is, stream_output, yield_count, yield_view, ItemView,
};

verus! {

/// A lazy stream as contracts see it.
pub ghost struct LazyView {
    /// The sentences of the text, in its order.
    pub sentences: Seq<String>,
    /// What the caller asked of the audio.
    pub config: Option<AudioOutputConfig>,
    /// How many sentences have been worked on.
    pub cursor: nat,
    /// Whether a failure has ended the stream.
    pub closed: bool,
}

impl LazyView {
    /// A stream that has not started.
    pub open spec fn fresh(sentences: Seq<String>, config: Option<AudioOutputConfig>) -> LazyView {
        LazyView { sentences, config, cursor: 0, closed: false }
    }

    /// Whether the stream yields no more.
    pub open spec fn finished(self) -> bool {
        self.closed || self.cursor >= self.sentences.len()
    }

    /// One pull: the stream after it and the item that it yields, when the
    /// model makes `synthesized` of the pending sentence. A finished stream
    /// yields nothing and stays as it is.
    pub open spec fn step(self, synthesized: ItemView) -> (LazyView, Option<ItemView>) {
        if self.finished() {
            (self, None)
        } else {
            let item = delivered(self.config, synthesized);
            (LazyView { cursor: self.cursor + 1, closed: item.is_err(), ..self }, Some(item))
        }
    }

    /// All that the stream yields from here on, when the model makes
    /// `synthesized[i]` of sentence `i`.
    pub open spec fn run(self, synthesized: Seq<ItemView>) -> Seq<ItemView>
        decreases self.sentences.len() - self.cursor,
    {
        if self.finished() || self.cursor >= synthesized.len() {
            Seq::empty()
        } else {
            let (next, item) = self.step(synthesized[self.cursor as int]);
            seq![item.unwrap()] + next.run(synthesized)
        }
    }
}

/// The stream that works sentence by sentence on the thread that pulls: it
/// asks the model for one sentence at a time, and only when an item is asked
/// of it.
#[derive(Debug)]
pub struct LazySpeechStream {
    sentences: Vec<String>,
    config: Option<AudioOutputConfig>,
    cursor: usize,
    closed: bool,
}

impl View for LazySpeechStream {
    type V = LazyView;

    closed spec fn view(&self) -> LazyView {
        LazyView {
            sentences: self.sentences@,
            config: self.config,
            cursor: self.cursor as nat,
            closed: self.closed,
        }
    }
}

impl LazySpeechStream {
    #[verifier::type_invariant]
    spec fn cursor_in_range(self) -> bool {
        self.cursor <= self.sentences.len()
    }

    /// A stream over `sentences` that has not started.
    pub fn new(sentences: Vec<String>, config: Option<AudioOutputConfig>) -> (stream: Self)
        ensures
            stream@ == LazyView::fresh(sentences@, config),
    {
        LazySpeechStream { sentences, config, cursor: 0, closed: false }
    }

    /// What the caller asked of the audio.
    pub fn output_config(&self) -> (config: Option<AudioOutputConfig>)
        ensures
            config == self@.config,
    {
        self.config
    }

    /// How many sentences the text has.
    pub fn sentence_count(&self) -> (count: usize)
        ensures
            count == self@.sentences.len(),
    {
        self.sentences.len()
    }

    /// Whether the stream yields no more.
    pub fn is_finished(&self) -> (finished: bool)
        ensures
            finished == self@.finished(),
    {
        self.closed || self.cursor >= self.sentences.len()
    }

    /// The sentence that the model is to work on next; `None` when the stream
    /// has finished.
    pub fn pending(&self) -> (sentence: Option<&String>)
        ensures
            match sentence {
                Some(s) => !self@.finished() && *s == self@.sentences[self@.cursor as int],
                None => self@.finished(),
            },
    {
        if self.closed || self.cursor >= self.sentences.len() {
            None
        } else {
            Some(&self.sentences[self.cursor])
        }
    }

    /// One pull, given what the model made of the pending sentence: yields
    /// the audio with the requested silence behind it and moves on, or yields
    /// the failure and ends the stream. A finished stream yields `None`.
    pub fn advance(&mut self, synthesized: Result<WaveSamples, SonataError>) -> (item: Option<
        Result<WaveSamples, SonataError>,
    >)
        ensures
            (final(self)@, yield_view(item)) == old(self)@.step(item_view(synthesized)),
            final(self)@.cursor <= final(self)@.sentences.len(),
    {
        proof {
            use_type_invariant(&*self);
        }
        if self.closed || self.cursor >= self.sentences.len() {
            return None;
        }
        let item = deliver(&self.config, synthesized);
        self.cursor = self.cursor + 1;
        self.closed = item.is_err();
        Some(item)
    }

    /// One pull: asks `speak` for the pending sentence and yields what
    /// `advance` makes of the answer. A finished stream yields `None` and
    /// does not ask.
    pub fn next<F: Fn(&String) -> Result<WaveSamples, SonataError>>(&mut self, speak: &F) -> (item:
        Option<Result<WaveSamples, SonataError>>)
        requires
            forall|s: &String| speak.requires((s,)),
        ensures
            old(self)@.finished() ==> item.is_none() && final(self)@ == old(self)@,
            !old(self)@.finished() ==> exists|synthesized: Result<WaveSamples, SonataError>|
                speak.ensures((&old(self)@.sentences[old(self)@.cursor as int],), synthesized) && (
                    final(self)@,
                    yield_view(item),
                ) == old(self)@.step(item_view(synthesized)),
    {
        proof {
            use_type_invariant(&*self);
        }
        if self.closed || self.cursor >= self.sentences.len() {
            return None;
        }
        let synthesized = speak(&self.sentences[self.cursor]);
        let ghost answer = synthesized;
        let item = self.advance(synthesized);
        proof {
            assert(speak.ensures((&old(self)@.sentences[old(self)@.cursor as int],), answer));
        }
        item
    }
}

/// From a stream that has not failed, the run yields what is left of the
/// stream's output: the items from the cursor up to the first failure.
pub proof fn lemma_lazy_run_from(stream: LazyView, synthesized: Seq<ItemView>)
    requires
        synthesized.len() == stream.sentences.len(),
        stream.cursor <= stream.sentences.len(),
        !stream.closed,
        forall|i: int| 0 <= i < stream.cursor ==> delivered(stream.config, synthesized[i]).is_ok(),
    ensures
        stream.cursor <= yield_count(delivered_all(stream.config, synthesized)),
        stream.run(synthesized) == stream_output(
            delivered_all(stream.config, synthesized),
        ).skip(stream.cursor as int),
    decreases stream.sentences.len() - stream.cursor,
{
    let items = delivered_all(stream.config, synthesized);
    let output = stream_output(items);
    lemma_first_failure(items, 0);
    let failure = first_failure(items, 0);
    if failure < stream.cursor {
        assert(items[failure as int].is_err());
        assert(delivered(stream.config, synthesized[failure as int]).is_ok());
    }
    if stream.cursor >= stream.sentences.len() {
        assert(stream.run(synthesized) =~= output.skip(stream.cursor as int));
    } else {
        let (next, item) = stream.step(synthesized[stream.cursor as int]);
        assert(item.unwrap() == items[stream.cursor as int]);
        if item.unwrap().is_err() {
            lemma_first_failure_is(items, 0, stream.cursor);
            assert(next.run(synthesized) =~= Seq::empty());
            assert(stream.run(synthesized) =~= output.skip(stream.cursor as int));
        } else {
            lemma_lazy_run_from(next, synthesized);
            assert(stream.run(synthesized) =~= output.skip(stream.cursor as int));
        }
    }
}

/// Pulled to its end, a lazy stream yields the items of the sentences in
/// the order of the sentences: every item up to the first failure, that
/// failure, and nothing behind it.
pub proof fn lemma_lazy_output(
    sentences: Seq<String>,
    config: Option<AudioOutputConfig>,
    synthesized: Seq<ItemView>,
)
    requires
        synthesized.len() == sentences.len(),
    ensures
        LazyView::fresh(sentences, config).run(synthesized) == stream_output(
            delivered_all(config, synthesized),
        ),
{
    lemma_lazy_run_from(LazyView::fresh(sentences, config), synthesized);
    assert(stream_output(delivered_all(config, synthesized)).skip(0) =~= stream_output(
        delivered_all(config, synthesized),
    ));
}

} // verus!
