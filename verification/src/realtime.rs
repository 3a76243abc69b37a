//! The realtime stream: a job that works through a text batch by batch and
//! sends each chunk of audio into a channel as soon as it is made, and the
//! stream at the other end of the channel.

use vstd::prelude::*;
use std::sync::mpsc::{Receiver, Sender};
use crate::channel::{receive_item, send_item};
use crate::audio::{append_silence, wave_bytes, AudioOutputConfig, AudioView, WaveSamples};
use crate::error::{ErrorKind, ErrorView, SonataError};
use crate::stream::{
    delivered_all, first_failure, item_view, items_view, lemma_first_failure,
    lemma_first_failure_is, lemma_stream_output_is, stream_output, yield_count, yield_view,
    ItemView,
};

verus! {

/// The sentences that go into one call of the model: those from `start` up
/// to `end`, whose audio the call is for, within those from `context_start`
/// up to `context_end`, which the model reads to join the audio to its
/// neighbours.
#[derive(Clone, Copy, Debug, PartialEq, Eq, Structural)]
pub struct Batch {
    pub start: usize,
    pub end: usize,
    pub context_start: usize,
    pub context_end: usize,
}

/// A batch as contracts see it.
pub ghost struct BatchView {
    pub start: nat,
    pub end: nat,
    pub context_start: nat,
    pub context_end: nat,
}

impl View for Batch {
    type V = BatchView;

    open spec fn view(&self) -> BatchView {
        BatchView {
            start: self.start as nat,
            end: self.end as nat,
            context_start: self.context_start as nat,
            context_end: self.context_end as nat,
        }
    }
}

/// The batch that starts at sentence `start` of `count`, with `chunk_size`
/// sentences to a batch and `chunk_padding` sentences of context on each
/// side, as far as the text reaches.
pub open spec fn batch_from(count: nat, chunk_size: nat, chunk_padding: nat, start: nat) -> BatchView {
    let end = if start + chunk_size < count {
        start + chunk_size
    } else {
        count
    };
    BatchView {
        start,
        end,
        context_start: if start >= chunk_padding {
            (start - chunk_padding) as nat
        } else {
            0
        },
        context_end: if end + chunk_padding < count {
            end + chunk_padding
        } else {
            count
        },
    }
}

/// Where a job stands.
#[derive(Clone, Copy, Debug, PartialEq, Eq, Structural)]
pub enum Phase {
    /// The text has not been split into sentences yet.
    Setup,
    /// Batches are being worked on.
    Running,
    /// The job has ended; it sends no more.
    Closed,
}

/// What the model made of one batch, as contracts see it: the audio chunks in
/// their order, or a failure.
pub type BatchResultView = Result<Seq<AudioView>, ErrorView>;

/// What contracts see of a list of chunks.
pub open spec fn chunk_views(chunks: Seq<WaveSamples>) -> Seq<AudioView> {
    Seq::new(chunks.len(), |i: int| chunks[i]@)
}

/// What contracts see of a batch's result.
pub open spec fn batch_result_view(result: Result<Vec<WaveSamples>, SonataError>) -> BatchResultView {
    match result {
        Ok(chunks) => Ok(chunk_views(chunks@)),
        Err(e) => Err(e@),
    }
}

/// What contracts see of the outcome of splitting a text.
pub open spec fn segmentation_view(segmented: Result<Vec<String>, SonataError>) -> Result<
    Seq<String>,
    ErrorView,
> {
    match segmented {
        Ok(sentences) => Ok(sentences@),
        Err(e) => Err(e@),
    }
}

/// The failure reported for a chunk size of zero.
pub open spec fn zero_chunk_size() -> ErrorView {
    ErrorView { kind: ErrorKind::Operation, message: "the chunk size must not be zero"@ }
}

/// The chunks of one batch as results of the model, none of them a failure.
pub open spec fn as_results(chunks: Seq<AudioView>) -> Seq<ItemView> {
    Seq::new(chunks.len(), |i: int| Ok(chunks[i]))
}

/// The items that a job sends for the chunks of one batch: each chunk with
/// the requested silence behind it, in the model's order, up to the first
/// that fails, which is sent as the failure.
pub open spec fn forwarded(config: Option<AudioOutputConfig>, chunks: Seq<AudioView>) -> Seq<ItemView> {
    stream_output(delivered_all(config, as_results(chunks)))
}

/// A realtime job as contracts see it.
pub ghost struct JobView {
    /// The text to speak.
    pub text: String,
    /// Its sentences, once the text is split.
    pub sentences: Seq<String>,
    /// What the caller asked of the audio.
    pub config: Option<AudioOutputConfig>,
    /// How many sentences go into one call of the model.
    pub chunk_size: nat,
    /// How many sentences of context the model reads on each side.
    pub chunk_padding: nat,
    /// The first sentence that no batch has covered.
    pub cursor: nat,
    /// Where the job stands.
    pub phase: Phase,
}

impl JobView {
    /// A job that has not started.
    pub open spec fn fresh(
        text: String,
        config: Option<AudioOutputConfig>,
        chunk_size: nat,
        chunk_padding: nat,
    ) -> JobView {
        JobView {
            text,
            sentences: Seq::empty(),
            config,
            chunk_size,
            chunk_padding,
            cursor: 0,
            phase: Phase::Setup,
        }
    }

    /// Whether the job has to ask for the sentences of its text: it has not
    /// started, the text is not empty and the chunk size is not zero.
    pub open spec fn needs_sentences(self) -> bool {
        self.phase == Phase::Setup && self.text@.len() > 0 && self.chunk_size > 0
    }

    /// The job after setup and what it sends, when splitting the text gave
    /// `segmented`. An empty text ends the job with nothing sent, whatever
    /// `segmented` is; a chunk size of zero or a failure to split ends it
    /// with that one failure sent.
    pub open spec fn begin(self, segmented: Result<Seq<String>, ErrorView>) -> (JobView, Seq<ItemView>) {
        if self.phase != Phase::Setup {
            (self, Seq::empty())
        } else if self.text@.len() == 0 {
            (JobView { phase: Phase::Closed, ..self }, Seq::empty())
        } else if self.chunk_size == 0 {
            (JobView { phase: Phase::Closed, ..self }, seq![Err(zero_chunk_size())])
        } else {
            match segmented {
                Err(e) => (JobView { phase: Phase::Closed, ..self }, seq![Err(e)]),
                Ok(sentences) => (
                    JobView {
                        sentences,
                        cursor: 0,
                        phase: if sentences.len() == 0 {
                            Phase::Closed
                        } else {
                            Phase::Running
                        },
                        ..self
                    },
                    Seq::empty(),
                ),
            }
        }
    }

    /// The batch that the model is to work on next.
    pub open spec fn pending_batch(self) -> Option<BatchView> {
        if self.phase == Phase::Running && self.cursor < self.sentences.len() {
            Some(batch_from(self.sentences.len(), self.chunk_size, self.chunk_padding, self.cursor))
        } else {
            None
        }
    }

    /// The job after a batch and what it sends, when the model made `result`
    /// of the pending batch: the chunks in the model's order; a failure ends
    /// the job and is the last thing sent. With no batch pending nothing
    /// happens.
    pub open spec fn batch_done(self, result: BatchResultView) -> (JobView, Seq<ItemView>) {
        match self.pending_batch() {
            None => (self, Seq::empty()),
            Some(batch) => match result {
                Err(e) => (JobView { phase: Phase::Closed, ..self }, seq![Err(e)]),
                Ok(chunks) => {
                    let items = forwarded(self.config, chunks);
                    let failed = items.len() > 0 && items.last().is_err();
                    (
                        JobView {
                            cursor: batch.end,
                            phase: if failed || batch.end >= self.sentences.len() {
                                Phase::Closed
                            } else {
                                Phase::Running
                            },
                            ..self
                        },
                        items,
                    )
                },
            },
        }
    }
}

/// The producing side of a realtime stream: it splits the text, hands the
/// sentences to the model batch by batch, and sends each chunk of audio into
/// the channel as soon as the model has made it. Dropping the job closes the
/// channel.
#[derive(Debug)]
pub struct RealtimeJob {
    text: String,
    sentences: Vec<String>,
    config: Option<AudioOutputConfig>,
    chunk_size: usize,
    chunk_padding: usize,
    cursor: usize,
    phase: Phase,
    sender: Sender<Result<WaveSamples, SonataError>>,
}

impl View for RealtimeJob {
    type V = JobView;

    closed spec fn view(&self) -> JobView {
        JobView {
            text: self.text,
            sentences: self.sentences@,
            config: self.config,
            chunk_size: self.chunk_size as nat,
            chunk_padding: self.chunk_padding as nat,
            cursor: self.cursor as nat,
            phase: self.phase,
        }
    }
}

/// Puts the requested silence behind each chunk of a batch, in order, and
/// stops at the first for which that fails.
fn forward_chunks(config: &Option<AudioOutputConfig>, chunks: Vec<WaveSamples>) -> (items: Vec<
    Result<WaveSamples, SonataError>,
>)
    ensures
        items_view(items@) == forwarded(*config, chunk_views(chunks@)),
{
    let ghost views = chunk_views(chunks@);
    let ghost all = delivered_all(*config, as_results(views));
    let mut rest = chunks;
    let mut items: Vec<Result<WaveSamples, SonataError>> = Vec::new();
    let mut i: usize = 0;
    while i < rest.len()
        invariant
            i <= rest@.len(),
            rest@.len() == views.len(),
            views == chunk_views(chunks@),
            all == delivered_all(*config, as_results(views)),
            forall|k: int| i <= k < rest@.len() ==> rest@[k]@ == views[k],
            items@.len() == i,
            forall|k: int| 0 <= k < i ==> item_view(items@[k]) == all[k] && all[k].is_ok(),
        decreases rest@.len() - i,
    {
        let mut chunk = WaveSamples::new(Vec::new(), rest[i].info, None);
        core::mem::swap(&mut rest[i], &mut chunk);
        assert(chunk@ == views[i as int]);
        let item = append_silence(config, chunk);
        assert(item_view(item) == all[i as int]);
        let failed = item.is_err();
        items.push(item);
        if failed {
            proof {
                lemma_first_failure_is(all, 0, i as nat);
                assert(yield_count(all) == i + 1);
                assert(items_view(items@) =~= stream_output(all));
            }
            return items;
        }
        i = i + 1;
    }
    proof {
        lemma_first_failure_is(all, 0, i as nat);
        assert(items_view(items@) =~= stream_output(all));
    }
    items
}

impl RealtimeJob {
    #[verifier::type_invariant]
    spec fn cursor_in_range(self) -> bool {
        &&& self.cursor <= self.sentences@.len()
        &&& self.phase == Phase::Running ==> self.chunk_size > 0
    }

    /// A job that has not started.
    pub(crate) fn new(
        text: String,
        config: Option<AudioOutputConfig>,
        chunk_size: usize,
        chunk_padding: usize,
        sender: Sender<Result<WaveSamples, SonataError>>,
    ) -> (job: Self)
        ensures
            job@ == JobView::fresh(text, config, chunk_size as nat, chunk_padding as nat),
    {
        RealtimeJob {
            text,
            sentences: Vec::new(),
            config,
            chunk_size,
            chunk_padding,
            cursor: 0,
            phase: Phase::Setup,
            sender,
        }
    }

    /// The text to speak.
    pub fn text(&self) -> (text: &String)
        ensures
            *text == self@.text,
    {
        &self.text
    }

    /// The sentences of the text; none before the text is split.
    pub fn sentences(&self) -> (sentences: &Vec<String>)
        ensures
            sentences@ == self@.sentences,
    {
        &self.sentences
    }

    /// What the caller asked of the audio.
    pub fn output_config(&self) -> (config: Option<AudioOutputConfig>)
        ensures
            config == self@.config,
    {
        self.config
    }

    /// Where the job stands.
    pub fn phase(&self) -> (phase: Phase)
        ensures
            phase == self@.phase,
    {
        self.phase
    }

    /// Whether the job has to ask for the sentences of its text.
    pub fn needs_sentences(&self) -> (needed: bool)
        ensures
            needed == self@.needs_sentences(),
    {
        match self.phase {
            Phase::Setup => !self.text.as_str().is_empty() && self.chunk_size > 0,
            _ => false,
        }
    }

    /// Sets the job up, given the outcome of splitting its text, and returns
    /// what is to be sent: nothing, or the one failure that ends the job.
    pub fn begin(&mut self, segmented: Result<Vec<String>, SonataError>) -> (items: Vec<
        Result<WaveSamples, SonataError>,
    >)
        ensures
            (final(self)@, items_view(items@)) == old(self)@.begin(segmentation_view(segmented)),
    {
        proof {
            use_type_invariant(&*self);
        }
        let mut items: Vec<Result<WaveSamples, SonataError>> = Vec::new();
        match self.phase {
            Phase::Setup => {},
            _ => {
                proof {
                    assert(items_view(items@) =~= Seq::empty());
                }
                return items;
            },
        }
        if self.text.as_str().is_empty() {
            self.phase = Phase::Closed;
            proof {
                assert(items_view(items@) =~= Seq::empty());
            }
            return items;
        }
        if self.chunk_size == 0 {
            self.phase = Phase::Closed;
            items.push(Err(SonataError::Operation(String::from_str("the chunk size must not be zero"))));
            proof {
                assert(items_view(items@) =~= seq![Err(zero_chunk_size())]);
            }
            return items;
        }
        match segmented {
            Err(e) => {
                self.phase = Phase::Closed;
                items.push(Err(e));
                proof {
                    assert(items_view(items@) =~= seq![Err(e@)]);
                }
            },
            Ok(sentences) => {
                self.cursor = 0;
                let running = sentences.len() > 0;
                self.sentences = sentences;
                self.phase = if running {
                    Phase::Running
                } else {
                    Phase::Closed
                };
                proof {
                    assert(items_view(items@) =~= Seq::empty());
                }
            },
        }
        items
    }

    /// The batch that the model is to work on next; `None` before setup and
    /// after the end.
    pub fn pending_batch(&self) -> (batch: Option<Batch>)
        ensures
            match batch {
                Some(b) => self@.pending_batch() == Some(b@),
                None => self@.pending_batch().is_none(),
            },
    {
        proof {
            use_type_invariant(self);
        }
        match self.phase {
            Phase::Running => {},
            _ => {
                return None;
            },
        }
        let count: usize = self.sentences.len();
        if self.cursor >= count {
            return None;
        }
        let start: usize = self.cursor;
        let end: usize = if self.chunk_size < count - start {
            start + self.chunk_size
        } else {
            count
        };
        let context_start: usize = if start >= self.chunk_padding {
            start - self.chunk_padding
        } else {
            0
        };
        let context_end: usize = if self.chunk_padding < count - end {
            end + self.chunk_padding
        } else {
            count
        };
        Some(Batch { start, end, context_start, context_end })
    }

    /// Takes in what the model made of the pending batch and returns what is
    /// to be sent: the chunks in the model's order, each with the requested
    /// silence behind it, or the failure that ends the job.
    pub fn batch_done(&mut self, result: Result<Vec<WaveSamples>, SonataError>) -> (items: Vec<
        Result<WaveSamples, SonataError>,
    >)
        ensures
            (final(self)@, items_view(items@)) == old(self)@.batch_done(batch_result_view(result)),
    {
        proof {
            use_type_invariant(&*self);
        }
        let batch = match self.pending_batch() {
            Some(batch) => batch,
            None => {
                let items: Vec<Result<WaveSamples, SonataError>> = Vec::new();
                proof {
                    assert(items_view(items@) =~= Seq::empty());
                }
                return items;
            },
        };
        match result {
            Err(e) => {
                self.phase = Phase::Closed;
                let mut items: Vec<Result<WaveSamples, SonataError>> = Vec::new();
                items.push(Err(e));
                proof {
                    assert(items_view(items@) =~= seq![Err(e@)]);
                }
                items
            },
            Ok(chunks) => {
                let items = forward_chunks(&self.config, chunks);
                let failed = items.len() > 0 && items[items.len() - 1].is_err();
                proof {
                    assert(items_view(items@).len() == items@.len());
                    if items@.len() > 0 {
                        assert(items_view(items@).last() == item_view(items@[items@.len() - 1]));
                    }
                }
                self.cursor = batch.end;
                self.phase = if failed || batch.end >= self.sentences.len() {
                    Phase::Closed
                } else {
                    Phase::Running
                };
                items
            },
        }
    }

    /// Sets the job up: asks `segment` for the sentences of the text, unless
    /// the text is empty or the chunk size zero, and returns what `begin`
    /// makes of the answer.
    pub fn setup<S: Fn(&String) -> Result<Vec<String>, SonataError>>(&mut self, segment: &S) -> (items:
        Vec<Result<WaveSamples, SonataError>>)
        requires
            forall|text: &String| segment.requires((text,)),
        ensures
            !old(self)@.needs_sentences() ==> (final(self)@, items_view(items@)) == old(self)@.begin(
                Ok(Seq::empty()),
            ),
            old(self)@.needs_sentences() ==> exists|segmented: Result<Vec<String>, SonataError>|
                segment.ensures((&old(self)@.text,), segmented) && (final(self)@, items_view(items@))
                    == old(self)@.begin(segmentation_view(segmented)),
    {
        if self.needs_sentences() {
            let segmented = segment(&self.text);
            let ghost answer = segmented;
            let items = self.begin(segmented);
            proof {
                assert(segment.ensures((&old(self)@.text,), answer));
            }
            items
        } else {
            let none: Vec<String> = Vec::new();
            self.begin(Ok(none))
        }
    }

    /// Works on the pending batch: asks `speak` for its audio, given all
    /// sentences and the batch, and returns what `batch_done` makes of the
    /// answer. With no batch pending it does not ask and returns nothing.
    pub fn step<B: Fn(&Vec<String>, Batch) -> Result<Vec<WaveSamples>, SonataError>>(
        &mut self,
        speak: &B,
    ) -> (items: Vec<Result<WaveSamples, SonataError>>)
        requires
            forall|sentences: &Vec<String>, batch: Batch| speak.requires((sentences, batch)),
        ensures
            old(self)@.pending_batch().is_none() ==> final(self)@ == old(self)@ && items@.len() == 0,
            old(self)@.pending_batch().is_some() ==> exists|
                sentences: Vec<String>,
                batch: Batch,
                result: Result<Vec<WaveSamples>, SonataError>,
            |
                sentences@ == old(self)@.sentences && Some(batch@) == old(self)@.pending_batch()
                    && speak.ensures((&sentences, batch), result) && (final(self)@, items_view(items@))
                    == old(self)@.batch_done(batch_result_view(result)),
    {
        match self.pending_batch() {
            None => Vec::new(),
            Some(batch) => {
                let result = speak(&self.sentences, batch);
                let ghost answer = result;
                let ghost sentences = self.sentences;
                let items = self.batch_done(result);
                proof {
                    assert(sentences@ == old(self)@.sentences && Some(batch@) == old(
                        self,
                    )@.pending_batch() && speak.ensures((&sentences, batch), answer) && (
                        final(self)@,
                        items_view(items@),
                    ) == old(self)@.batch_done(batch_result_view(answer)));
                }
                items
            },
        }
    }

    /// Sends `items` into the channel, in their order, and returns how many
    /// of them the channel took. It takes none once the receiving end is
    /// gone; the job goes on all the same.
    pub fn forward(&self, items: Vec<Result<WaveSamples, SonataError>>) -> (taken: usize)
        ensures
            taken <= items@.len(),
    {
        let ghost count = items@.len();
        let mut items = items;
        let mut taken: usize = 0;
        let mut i: usize = 0;
        while i < items.len()
            invariant
                items@.len() == count,
                taken <= i <= count,
            decreases count - i,
        {
            let mut item: Result<WaveSamples, SonataError> = Err(SonataError::Operation(String::new()));
            core::mem::swap(&mut items[i], &mut item);
            if send_item(&self.sender, item) {
                taken = taken + 1;
            }
            i = i + 1;
        }
        taken
    }
}

/// What the consuming side makes of what came out of the channel: whether
/// the stream is closed afterwards, and what it yields. Audio is yielded as
/// little-endian PCM bytes; a failure is yielded and closes the stream; the
/// end of the channel closes it with nothing yielded. A closed stream yields
/// nothing.
pub open spec fn consumed(closed: bool, received: Option<ItemView>) -> (bool, Option<
    Result<Seq<u8>, ErrorView>,
>) {
    if closed {
        (true, None)
    } else {
        match received {
            None => (true, None),
            Some(Ok(audio)) => (false, Some(Ok(wave_bytes(audio.samples)))),
            Some(Err(e)) => (true, Some(Err(e))),
        }
    }
}

/// What contracts see of what the consuming side yields.
pub open spec fn bytes_view(item: Option<Result<Vec<u8>, SonataError>>) -> Option<
    Result<Seq<u8>, ErrorView>,
> {
    match item {
        None => None,
        Some(Ok(bytes)) => Some(Ok(bytes@)),
        Some(Err(e)) => Some(Err(e@)),
    }
}

/// The consuming side of a realtime stream: it yields the audio that the job
/// sends, in the order in which it was sent.
#[derive(Debug)]
pub struct RealtimeSpeechStream {
    receiver: Receiver<Result<WaveSamples, SonataError>>,
    closed: bool,
}

impl RealtimeSpeechStream {
    /// Whether the stream has ended.
    pub closed spec fn closed(&self) -> bool {
        self.closed
    }

    /// A stream on the receiving end `receiver` of a channel, not closed.
    pub(crate) fn new(receiver: Receiver<Result<WaveSamples, SonataError>>) -> (stream: Self)
        ensures
            stream.receiver() == receiver,
            !stream.closed(),
    {
        RealtimeSpeechStream { receiver, closed: false }
    }

    /// The receiving end of the channel that the stream pulls from.
    pub closed spec fn receiver(&self) -> Receiver<Result<WaveSamples, SonataError>> {
        self.receiver
    }

    /// Whether the stream has ended.
    pub fn is_closed(&self) -> (closed: bool)
        ensures
            closed == self.closed(),
    {
        self.closed
    }

    /// Takes in what came out of the channel and returns what the stream
    /// yields for it.
    pub fn accept(&mut self, received: Option<Result<WaveSamples, SonataError>>) -> (item: Option<
        Result<Vec<u8>, SonataError>,
    >)
        ensures
            (final(self).closed(), bytes_view(item)) == consumed(
                old(self).closed(),
                yield_view(received),
            ),
            final(self).receiver() == old(self).receiver(),
    {
        if self.closed {
            return None;
        }
        match received {
            None => {
                self.closed = true;
                None
            },
            Some(Ok(audio)) => Some(Ok(audio.get_wave_bytes())),
            Some(Err(e)) => {
                self.closed = true;
                Some(Err(e))
            },
        }
    }

    /// One pull: waits for the next item of the channel and yields what
    /// `accept` makes of it. A closed stream yields `None` without waiting.
    pub fn next(&mut self) -> (item: Option<Result<Vec<u8>, SonataError>>)
        ensures
            old(self).closed() ==> item.is_none() && final(self).closed(),
            !old(self).closed() ==> exists|received: Option<Result<WaveSamples, SonataError>>|
                (final(self).closed(), bytes_view(item)) == consumed(false, yield_view(received)),
            final(self).receiver() == old(self).receiver(),
    {
        if self.closed {
            return None;
        }
        let received = receive_item(&self.receiver);
        let ghost got = received;
        let item = self.accept(received);
        proof {
            assert((final(self).closed(), bytes_view(item)) == consumed(false, yield_view(got)));
        }
        item
    }
}

/// The audio that a model makes of a batch when it makes `chunk(i)` of
/// sentence `i`, whatever stands around it: one chunk for each sentence of
/// the batch, in their order.
pub open spec fn per_sentence(chunk: spec_fn(int) -> AudioView, batch: BatchView) -> BatchResultView {
    Ok(Seq::new((batch.end - batch.start) as nat, |i: int| chunk(batch.start + i)))
}

/// What a model makes of `count` sentences, one after the other, when it
/// makes `chunk(i)` of sentence `i` and never fails.
pub open spec fn sentence_results(count: nat, chunk: spec_fn(int) -> AudioView) -> Seq<ItemView> {
    Seq::new(count, |i: int| Ok(chunk(i)))
}

impl JobView {
    /// All that a running job sends from here on, when the model makes
    /// `model(batch)` of each batch.
    pub open spec fn run(self, model: spec_fn(BatchView) -> BatchResultView) -> Seq<ItemView>
        decreases self.sentences.len() - self.cursor,
    {
        match self.pending_batch() {
            None => Seq::empty(),
            Some(batch) => {
                let (next, items) = self.batch_done(model(batch));
                if next.phase == Phase::Running && next.cursor > self.cursor {
                    items + next.run(model)
                } else {
                    items
                }
            },
        }
    }

    /// All that a job sends from setup to its end, when splitting the text
    /// gives `segmented` and the model makes `model(batch)` of each batch.
    pub open spec fn whole(
        self,
        segmented: Result<Seq<String>, ErrorView>,
        model: spec_fn(BatchView) -> BatchResultView,
    ) -> Seq<ItemView> {
        let (started, items) = self.begin(segmented);
        items + started.run(model)
    }

    /// The batches that a running job works on from here on, when none
    /// fails.
    pub open spec fn batches(self) -> Seq<BatchView>
        decreases self.sentences.len() - self.cursor,
    {
        match self.pending_batch() {
            None => Seq::empty(),
            Some(batch) => if batch.end > self.cursor {
                seq![batch] + (JobView { cursor: batch.end, ..self }).batches()
            } else {
                seq![batch]
            },
        }
    }
}

/// Every batch holds at least one sentence and at most `chunk_size`, lies
/// within its context, and its context lies within the text and reaches
/// `chunk_padding` sentences to each side where the text has them.
pub proof fn lemma_batch_shape(count: nat, chunk_size: nat, chunk_padding: nat, start: nat)
    requires
        chunk_size > 0,
        start < count,
    ensures
        ({
            let b = batch_from(count, chunk_size, chunk_padding, start);
            &&& b.start == start
            &&& b.start < b.end <= count
            &&& b.end - b.start <= chunk_size
            &&& b.end < count ==> b.end - b.start == chunk_size
            &&& b.context_start <= b.start
            &&& b.end <= b.context_end <= count
            &&& b.start - b.context_start <= chunk_padding
            &&& b.context_end - b.end <= chunk_padding
            &&& b.context_start > 0 ==> b.start - b.context_start == chunk_padding
            &&& b.context_end < count ==> b.context_end - b.end == chunk_padding
        }),
{
}

/// The batches of a job follow one another without a gap and without an
/// overlap, from the job's cursor to the end of the text: whatever the chunk
/// size, each sentence is in exactly one batch, in the order of the text.
pub proof fn lemma_batches_partition(job: JobView)
    requires
        job.phase == Phase::Running,
        job.chunk_size > 0,
        job.cursor < job.sentences.len(),
    ensures
        job.batches().len() > 0,
        job.batches()[0].start == job.cursor,
        job.batches().last().end == job.sentences.len(),
        forall|k: int|
            0 <= k < job.batches().len() ==> (#[trigger] job.batches()[k]).start
                < job.batches()[k].end,
        forall|k: int|
            0 <= k < job.batches().len() - 1 ==> (#[trigger] job.batches()[k]).end
                == job.batches()[k + 1].start,
    decreases job.sentences.len() - job.cursor,
{
    let batch = batch_from(job.sentences.len(), job.chunk_size, job.chunk_padding, job.cursor);
    lemma_batch_shape(job.sentences.len(), job.chunk_size, job.chunk_padding, job.cursor);
    let next = JobView { cursor: batch.end, ..job };
    if batch.end < job.sentences.len() {
        lemma_batches_partition(next);
        let rest = next.batches();
        assert(job.batches() =~= seq![batch] + rest);
        assert forall|k: int| 0 <= k < job.batches().len() - 1 implies (#[trigger] job.batches()[k]).end
            == job.batches()[k + 1].start by {
            if k > 0 {
                assert(job.batches()[k] == rest[k - 1]);
                assert(job.batches()[k + 1] == rest[k]);
            } else {
                assert(job.batches()[1] == rest[0]);
            }
        }
        assert forall|k: int| 0 <= k < job.batches().len() implies (#[trigger] job.batches()[k]).start
            < job.batches()[k].end by {
            if k > 0 {
                assert(job.batches()[k] == rest[k - 1]);
            }
        }
        assert(job.batches().last() == rest.last());
    } else {
        assert(next.pending_batch().is_none());
        assert(next.batches() =~= Seq::empty());
        assert(job.batches() =~= seq![batch]);
    }
}

/// With a model that makes one chunk of each sentence, a running job sends
/// what is left of the stream's output, whatever its chunk size.
pub proof fn lemma_job_run_from(job: JobView, chunk: spec_fn(int) -> AudioView)
    requires
        job.chunk_size > 0,
        job.cursor <= job.sentences.len(),
        job.phase == Phase::Running || (job.phase == Phase::Closed && job.cursor
            == job.sentences.len()),
        forall|i: int|
            0 <= i < job.cursor ==> (#[trigger] delivered_all(
                job.config,
                sentence_results(job.sentences.len(), chunk),
            )[i]).is_ok(),
    ensures
        job.cursor <= yield_count(
            delivered_all(job.config, sentence_results(job.sentences.len(), chunk)),
        ),
        job.run(|b: BatchView| per_sentence(chunk, b)) == stream_output(
            delivered_all(job.config, sentence_results(job.sentences.len(), chunk)),
        ).skip(job.cursor as int),
    decreases job.sentences.len() - job.cursor,
{
    let count = job.sentences.len();
    let model = |b: BatchView| per_sentence(chunk, b);
    let all = delivered_all(job.config, sentence_results(count, chunk));
    let output = stream_output(all);
    lemma_first_failure(all, 0);
    let failure = first_failure(all, 0);
    if failure < job.cursor {
        assert(all[failure as int].is_err());
    }
    match job.pending_batch() {
        None => {
            assert(job.cursor == count);
            assert(job.run(model) =~= output.skip(job.cursor as int));
        },
        Some(batch) => {
            lemma_batch_shape(count, job.chunk_size, job.chunk_padding, job.cursor);
            let chunks = model(batch)->Ok_0;
            let part = delivered_all(job.config, as_results(chunks));
            assert(part =~= all.subrange(batch.start as int, batch.end as int));
            let (next, items) = job.batch_done(model(batch));
            assert(items == stream_output(part));
            if failure < batch.end {
                let k = (failure - batch.start) as nat;
                assert(part[k as int] == all[failure as int]);
                lemma_stream_output_is(part, k);
                assert(items =~= part.take(k as int + 1));
                assert(items.last() == part[k as int]);
                assert(next.phase == Phase::Closed);
                assert(job.run(model) == items);
                assert(items =~= output.skip(job.cursor as int));
            } else {
                lemma_stream_output_is(part, part.len());
                assert(items == part);
                if part.len() > 0 {
                    assert(items.last() == all[batch.end - 1]);
                }
                if batch.end < count {
                    assert(next.phase == Phase::Running);
                    lemma_job_run_from(next, chunk);
                    assert(job.run(model) == items + next.run(model));
                    assert(job.run(model) =~= output.skip(job.cursor as int));
                } else {
                    assert(next.phase == Phase::Closed);
                    assert(job.run(model) == items);
                    assert(items =~= output.skip(job.cursor as int));
                }
            }
        },
    }
}

/// An item as the stream yields it: audio as little-endian PCM bytes, a
/// failure as it is.
pub open spec fn as_bytes(item: ItemView) -> Result<Seq<u8>, ErrorView> {
    match item {
        Ok(audio) => Ok(wave_bytes(audio.samples)),
        Err(e) => Err(e),
    }
}

/// All that the stream yields when `arriving` come out of the channel one
/// after the other, from a stream that is closed or not.
pub open spec fn consumed_all(closed: bool, arriving: Seq<ItemView>) -> Seq<Result<Seq<u8>, ErrorView>>
    decreases arriving.len(),
{
    if arriving.len() == 0 {
        Seq::empty()
    } else {
        let (then_closed, yielded) = consumed(closed, Some(arriving[0]));
        let rest = consumed_all(then_closed, arriving.drop_first());
        match yielded {
            Some(item) => seq![item] + rest,
            None => rest,
        }
    }
}

/// A closed stream yields nothing, whatever comes out of the channel.
pub proof fn lemma_closed_yields_nothing(arriving: Seq<ItemView>)
    ensures
        consumed_all(true, arriving) == Seq::<Result<Seq<u8>, ErrorView>>::empty(),
    decreases arriving.len(),
{
    if arriving.len() > 0 {
        lemma_closed_yields_nothing(arriving.drop_first());
    }
}

/// The stream yields what arrives, in the order of arrival, up to the first
/// failure and with it, and nothing that arrives behind a failure.
pub proof fn lemma_consumed_in_order(arriving: Seq<ItemView>)
    ensures
        consumed_all(false, arriving) == Seq::new(
            stream_output(arriving).len(),
            |i: int| as_bytes(stream_output(arriving)[i]),
        ),
    decreases arriving.len(),
{
    let expected = Seq::new(
        stream_output(arriving).len(),
        |i: int| as_bytes(stream_output(arriving)[i]),
    );
    lemma_first_failure(arriving, 0);
    if arriving.len() == 0 {
        assert(consumed_all(false, arriving) =~= expected);
    } else {
        let rest = arriving.drop_first();
        if arriving[0].is_err() {
            lemma_stream_output_is(arriving, 0);
            lemma_closed_yields_nothing(rest);
            assert(consumed_all(false, arriving) =~= expected);
        } else {
            lemma_consumed_in_order(rest);
            lemma_first_failure(rest, 0);
            let k = first_failure(rest, 0);
            assert forall|i: int| 0 <= i < k + 1 implies arriving[i].is_ok() by {
                if i > 0 {
                    assert(arriving[i] == rest[i - 1]);
                }
            }
            if k < rest.len() {
                assert(arriving[k as int + 1] == rest[k as int]);
            }
            lemma_stream_output_is(arriving, k + 1);
            lemma_stream_output_is(rest, k);
            assert forall|i: int| 0 < i < stream_output(arriving).len() implies stream_output(
                arriving,
            )[i] == stream_output(rest)[i - 1] by {
                assert(arriving[i] == rest[i - 1]);
            }
            assert(consumed_all(false, arriving) =~= expected);
        }
    }
}

} // verus!
