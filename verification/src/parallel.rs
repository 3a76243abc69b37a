//! The parallel stream: workers compute the sentences ahead of the pulls,
//! and a reorder buffer puts their results back into the order of the text.

use vstd::prelude::*;
use crate::audio::{AudioOutputConfig, WaveSamples};
use crate::error::SonataError;
use crate::stream::{
    deliver, delivered, delivered_all, first_failure, item_view, lemma_first_failure,
    lemma_first_failure_is, stream_output, yield_count, yield_view, ItemView,
};

verus! {

/// What a pull on a parallel stream gives.
#[derive(Debug)]
pub enum Poll {
    /// The next item, in the order of the sentences.
    Ready(Result<WaveSamples, SonataError>),
    /// The next item in order has not arrived yet: pull again later.
    Pending,
    /// The stream has ended.
    Finished,
}

/// What a pull gives, as contracts see it.
pub ghost enum PollView {
    Ready(ItemView),
    Pending,
    Finished,
}

/// What contracts see of a pull's result.
pub open spec fn poll_view(poll: Poll) -> PollView {
    match poll {
        Poll::Ready(item) => PollView::Ready(item_view(item)),
        Poll::Pending => PollView::Pending,
        Poll::Finished => PollView::Finished,
    }
}

/// A parallel stream as contracts see it.
pub ghost struct ParallelView {
    /// The sentences of the text, in its order.
    pub sentences: Seq<String>,
    /// What the caller asked of the audio.
    pub config: Option<AudioOutputConfig>,
    /// The reorder buffer, one place for each sentence: the item of a
    /// sentence whose work is done and which was not yielded yet.
    pub slots: Seq<Option<ItemView>>,
    /// How many sentences were handed out to workers.
    pub dispatched: nat,
    /// How many items were yielded.
    pub yielded: nat,
    /// Whether a failure has ended the stream.
    pub closed: bool,
}

impl ParallelView {
    /// A stream that has not started: nothing handed out, nothing buffered.
    pub open spec fn fresh(sentences: Seq<String>, config: Option<AudioOutputConfig>) -> ParallelView {
        ParallelView {
            sentences,
            config,
            slots: Seq::new(sentences.len(), |i: int| None),
            dispatched: 0,
            yielded: 0,
            closed: false,
        }
    }

    /// Whether the stream yields no more.
    pub open spec fn finished(self) -> bool {
        self.closed || self.yielded >= self.sentences.len()
    }

    /// Handing out work: the next sentence that no worker has, in the order
    /// of the sentences. A stream that a failure has ended hands out none.
    pub open spec fn dispatch(self) -> (ParallelView, Option<nat>) {
        if self.closed || self.dispatched >= self.sentences.len() {
            (self, None)
        } else {
            (ParallelView { dispatched: self.dispatched + 1, ..self }, Some(self.dispatched))
        }
    }

    /// Whether the stream waits for the result of sentence `index`: it was
    /// handed out, its item has neither arrived nor been yielded, and no
    /// failure has ended the stream.
    pub open spec fn awaits(self, index: nat) -> bool {
        !self.closed && self.yielded <= index < self.dispatched && index < self.slots.len()
            && self.slots[index as int].is_none()
    }

    /// A worker's result coming in: it is kept in the place of its sentence
    /// if the stream waits for it, and dropped otherwise.
    pub open spec fn complete(self, index: nat, synthesized: ItemView) -> (ParallelView, bool) {
        if self.awaits(index) {
            (
                ParallelView {
                    slots: self.slots.update(
                        index as int,
                        Some(delivered(self.config, synthesized)),
                    ),
                    ..self
                },
                true,
            )
        } else {
            (self, false)
        }
    }

    /// One pull: the item of the next sentence in order if it has arrived,
    /// `Pending` if it has not, `Finished` once every sentence was yielded or
    /// a failure was. Yielding a failure ends the stream.
    pub open spec fn poll(self) -> (ParallelView, PollView) {
        if self.finished() || self.yielded >= self.slots.len() {
            (self, PollView::Finished)
        } else {
            match self.slots[self.yielded as int] {
                Some(item) => (
                    ParallelView {
                        slots: self.slots.update(self.yielded as int, None),
                        yielded: self.yielded + 1,
                        closed: item.is_err(),
                        ..self
                    },
                    PollView::Ready(item),
                ),
                None => (self, PollView::Pending),
            }
        }
    }
}

/// The stream that lets workers compute the sentences ahead of the pulls and
/// yields their items in the order of the sentences, whatever the order in
/// which the workers finish.
#[derive(Debug)]
pub struct ParallelSpeechStream {
    sentences: Vec<String>,
    config: Option<AudioOutputConfig>,
    slots: Vec<Option<Result<WaveSamples, SonataError>>>,
    dispatched: usize,
    yielded: usize,
    closed: bool,
}

impl View for ParallelSpeechStream {
    type V = ParallelView;

    closed spec fn view(&self) -> ParallelView {
        ParallelView {
            sentences: self.sentences@,
            config: self.config,
            slots: Seq::new(self.slots@.len(), |i: int| yield_view(self.slots@[i])),
            dispatched: self.dispatched as nat,
            yielded: self.yielded as nat,
            closed: self.closed,
        }
    }
}

impl ParallelSpeechStream {
    #[verifier::type_invariant]
    spec fn places_in_range(self) -> bool {
        &&& self.slots@.len() == self.sentences@.len()
        &&& self.dispatched <= self.sentences@.len()
        &&& self.yielded <= self.sentences@.len()
    }

    /// A stream over `sentences` that has not started.
    pub fn new(sentences: Vec<String>, config: Option<AudioOutputConfig>) -> (stream: Self)
        ensures
            stream@ == ParallelView::fresh(sentences@, config),
    {
        let mut slots: Vec<Option<Result<WaveSamples, SonataError>>> = Vec::new();
        while slots.len() < sentences.len()
            invariant
                slots@.len() <= sentences@.len(),
                forall|i: int| 0 <= i < slots@.len() ==> slots@[i].is_none(),
            decreases sentences@.len() - slots@.len(),
        {
            slots.push(None);
        }
        let stream = ParallelSpeechStream {
            sentences,
            config,
            slots,
            dispatched: 0,
            yielded: 0,
            closed: false,
        };
        proof {
            assert(stream@.slots =~= ParallelView::fresh(sentences@, config).slots);
        }
        stream
    }

    /// What the caller asked of the audio.
    pub fn output_config(&self) -> (config: Option<AudioOutputConfig>)
        ensures
            config == self@.config,
    {
        self.config
    }

    /// Whether the stream yields no more.
    pub fn is_finished(&self) -> (finished: bool)
        ensures
            finished == self@.finished(),
    {
        self.closed || self.yielded >= self.sentences.len()
    }

    /// How many sentences the text has.
    pub fn sentence_count(&self) -> (count: usize)
        ensures
            count == self@.sentences.len(),
    {
        self.sentences.len()
    }

    /// Sentence `index` of the text; `None` behind the last.
    pub fn sentence(&self, index: usize) -> (sentence: Option<&String>)
        ensures
            match sentence {
                Some(s) => index < self@.sentences.len() && *s == self@.sentences[index as int],
                None => index >= self@.sentences.len(),
            },
    {
        if index < self.sentences.len() {
            Some(&self.sentences[index])
        } else {
            None
        }
    }

    /// Hands out the next sentence for a worker to compute, by its place in
    /// the text; `None` when all are handed out or a failure has ended the
    /// stream.
    pub fn dispatch(&mut self) -> (index: Option<usize>)
        ensures
            final(self)@ == old(self)@.dispatch().0,
            match index {
                Some(i) => old(self)@.dispatch().1 == Some(i as nat),
                None => old(self)@.dispatch().1.is_none(),
            },
    {
        proof {
            use_type_invariant(&*self);
        }
        if self.closed || self.dispatched >= self.sentences.len() {
            return None;
        }
        let index: usize = self.dispatched;
        self.dispatched = self.dispatched + 1;
        Some(index)
    }

    /// Takes in what a worker made of sentence `index`: the item is kept in
    /// the place of its sentence until its turn comes. A result that the
    /// stream does not wait for is dropped, and `false` returned.
    pub fn complete(&mut self, index: usize, synthesized: Result<WaveSamples, SonataError>) -> (kept:
        bool)
        ensures
            (final(self)@, kept) == old(self)@.complete(index as nat, item_view(synthesized)),
    {
        proof {
            use_type_invariant(&*self);
        }
        if self.closed || index < self.yielded || index >= self.dispatched {
            return false;
        }
        if self.slots[index].is_some() {
            return false;
        }
        let item = deliver(&self.config, synthesized);
        self.slots[index] = Some(item);
        proof {
            assert(final(self)@.slots =~= old(self)@.slots.update(
                index as int,
                Some(delivered(old(self)@.config, item_view(synthesized))),
            ));
        }
        true
    }

    /// One pull: the item of the next sentence in order if it has arrived,
    /// `Pending` if it has not, `Finished` at the end. Yielding a failure
    /// ends the stream.
    pub fn next(&mut self) -> (poll: Poll)
        ensures
            (final(self)@, poll_view(poll)) == old(self)@.poll(),
    {
        proof {
            use_type_invariant(&*self);
        }
        if self.closed || self.yielded >= self.sentences.len() {
            return Poll::Finished;
        }
        let place: usize = self.yielded;
        match self.slots[place].take() {
            Some(item) => {
                self.yielded = self.yielded + 1;
                self.closed = item.is_err();
                proof {
                    assert(final(self)@.slots =~= old(self)@.slots.update(place as int, None));
                }
                Poll::Ready(item)
            },
            None => {
                proof {
                    assert(final(self)@.slots =~= old(self)@.slots);
                }
                Poll::Pending
            },
        }
    }
}

/// What can happen to a parallel stream.
pub ghost enum Event {
    /// A worker asks for a sentence.
    Dispatch,
    /// A worker hands in what the model made of the sentence at this place.
    Complete(nat),
    /// The consumer pulls.
    Pull,
}

impl ParallelView {
    /// The stream after `event`, when the model makes `synthesized[i]` of
    /// sentence `i`.
    pub open spec fn after(self, event: Event, synthesized: Seq<ItemView>) -> ParallelView {
        match event {
            Event::Dispatch => self.dispatch().0,
            Event::Complete(index) => if index < synthesized.len() {
                self.complete(index, synthesized[index as int]).0
            } else {
                self
            },
            Event::Pull => self.poll().0,
        }
    }

    /// What `event` makes the stream yield: one item for a pull that finds
    /// its item, nothing otherwise.
    pub open spec fn yields(self, event: Event) -> Seq<ItemView> {
        match event {
            Event::Pull => match self.poll().1 {
                PollView::Ready(item) => seq![item],
                _ => Seq::empty(),
            },
            _ => Seq::empty(),
        }
    }

    /// The stream after all of `events`, one after the other.
    pub open spec fn after_all(self, events: Seq<Event>, synthesized: Seq<ItemView>) -> ParallelView
        decreases events.len(),
    {
        if events.len() == 0 {
            self
        } else {
            self.after(events[0], synthesized).after_all(events.drop_first(), synthesized)
        }
    }

    /// All that the stream yields in the course of `events`.
    pub open spec fn run(self, events: Seq<Event>, synthesized: Seq<ItemView>) -> Seq<ItemView>
        decreases events.len(),
    {
        if events.len() == 0 {
            Seq::empty()
        } else {
            self.yields(events[0]) + self.after(events[0], synthesized).run(
                events.drop_first(),
                synthesized,
            )
        }
    }

    /// What holds of a stream at every moment, when the model makes
    /// `synthesized[i]` of sentence `i`: the buffer holds only items of
    /// sentences that were handed out and not yielded, each in the place of
    /// its sentence; no yielded item but the last was a failure, and the last
    /// was one exactly if the stream is closed.
    pub open spec fn consistent(self, synthesized: Seq<ItemView>) -> bool {
        let items = delivered_all(self.config, synthesized);
        &&& synthesized.len() == self.sentences.len()
        &&& self.slots.len() == self.sentences.len()
        &&& self.yielded <= self.dispatched <= self.sentences.len()
        &&& forall|i: int|
            0 <= i < self.slots.len() && self.slots[i].is_some() ==> self.yielded <= i
                < self.dispatched && self.slots[i] == Some(items[i])
        &&& forall|i: int| 0 <= i < self.yielded && !(self.closed && i == self.yielded - 1) ==> items[i].is_ok()
        &&& self.closed ==> self.yielded >= 1 && items[self.yielded - 1].is_err()
    }
}

/// A stream that has not started is consistent.
pub proof fn lemma_fresh_is_consistent(
    sentences: Seq<String>,
    config: Option<AudioOutputConfig>,
    synthesized: Seq<ItemView>,
)
    requires
        synthesized.len() == sentences.len(),
    ensures
        ParallelView::fresh(sentences, config).consistent(synthesized),
{
}

/// No event breaks consistency, and what an event yields is the item of the
/// sentence whose turn it is.
pub proof fn lemma_event_keeps_consistent(
    stream: ParallelView,
    event: Event,
    synthesized: Seq<ItemView>,
)
    requires
        stream.consistent(synthesized),
    ensures
        stream.after(event, synthesized).consistent(synthesized),
        stream.after(event, synthesized).sentences == stream.sentences,
        stream.after(event, synthesized).config == stream.config,
        stream.after(event, synthesized).yielded == stream.yielded + stream.yields(event).len(),
        stream.yields(event).len() <= 1,
        stream.yields(event).len() == 1 ==> stream.yielded < synthesized.len()
            && stream.yields(event)[0] == delivered(
            stream.config,
            synthesized[stream.yielded as int],
        ),
{
    let items = delivered_all(stream.config, synthesized);
    let next = stream.after(event, synthesized);
    match event {
        Event::Dispatch => {},
        Event::Complete(index) => {
            if index < synthesized.len() && stream.awaits(index) {
                assert forall|i: int| 0 <= i < next.slots.len() && next.slots[i].is_some() implies stream.yielded
                    <= i < next.dispatched && next.slots[i] == Some(items[i]) by {
                    if i != index {
                        assert(next.slots[i] == stream.slots[i]);
                    }
                }
            }
        },
        Event::Pull => {
            if !(stream.finished() || stream.yielded >= stream.slots.len()) {
                if stream.slots[stream.yielded as int].is_some() {
                    assert forall|i: int|
                        0 <= i < next.slots.len() && next.slots[i].is_some() implies next.yielded
                        <= i < next.dispatched && next.slots[i] == Some(items[i]) by {
                        assert(i != stream.yielded);
                        assert(next.slots[i] == stream.slots[i]);
                    }
                }
            }
        },
    }
}

/// A consistent stream has yielded no more than the stream's output holds,
/// and all of it once it has finished.
pub proof fn lemma_consistent_count(stream: ParallelView, synthesized: Seq<ItemView>)
    requires
        stream.consistent(synthesized),
    ensures
        stream.yielded <= yield_count(delivered_all(stream.config, synthesized)),
        stream.finished() ==> stream.yielded == yield_count(
            delivered_all(stream.config, synthesized),
        ),
{
    let items = delivered_all(stream.config, synthesized);
    if stream.closed {
        lemma_first_failure_is(items, 0, (stream.yielded - 1) as nat);
    } else {
        lemma_first_failure(items, 0);
        let failure = first_failure(items, 0);
        if failure < stream.yielded {
            assert(items[failure as int].is_err());
        }
    }
}

/// Whatever happens to a consistent stream, and in whatever order, what it
/// yields is the next part of the stream's output: the items of the
/// sentences in the order of the sentences.
pub proof fn lemma_run_in_order(
    stream: ParallelView,
    events: Seq<Event>,
    synthesized: Seq<ItemView>,
)
    requires
        stream.consistent(synthesized),
    ensures
        stream.after_all(events, synthesized).consistent(synthesized),
        stream.after_all(events, synthesized).config == stream.config,
        stream.after_all(events, synthesized).sentences == stream.sentences,
        stream.after_all(events, synthesized).yielded == stream.yielded + stream.run(
            events,
            synthesized,
        ).len(),
        stream.after_all(events, synthesized).yielded <= yield_count(
            delivered_all(stream.config, synthesized),
        ),
        stream.run(events, synthesized) == stream_output(
            delivered_all(stream.config, synthesized),
        ).subrange(
            stream.yielded as int,
            stream.after_all(events, synthesized).yielded as int,
        ),
    decreases events.len(),
{
    let items = delivered_all(stream.config, synthesized);
    let output = stream_output(items);
    lemma_consistent_count(stream, synthesized);
    if events.len() == 0 {
        assert(stream.run(events, synthesized) =~= output.subrange(
            stream.yielded as int,
            stream.yielded as int,
        ));
    } else {
        let next = stream.after(events[0], synthesized);
        lemma_event_keeps_consistent(stream, events[0], synthesized);
        lemma_run_in_order(next, events.drop_first(), synthesized);
        lemma_consistent_count(next, synthesized);
        let last = stream.after_all(events, synthesized);
        assert(stream.run(events, synthesized) =~= output.subrange(
            stream.yielded as int,
            last.yielded as int,
        ));
    }
}

/// A parallel stream never gets stuck: as long as it has not finished,
/// either the item whose turn it is has arrived and a pull yields it, or its
/// sentence is with a worker and the stream waits for the result, or its
/// sentence is the next that a worker is given.
pub proof fn lemma_never_stuck(stream: ParallelView, synthesized: Seq<ItemView>)
    requires
        stream.consistent(synthesized),
        !stream.finished(),
    ensures
        stream.slots[stream.yielded as int].is_some() ==> stream.poll().1 == PollView::Ready(
            delivered(stream.config, synthesized[stream.yielded as int]),
        ),
        stream.slots[stream.yielded as int].is_none() && stream.yielded < stream.dispatched
            ==> stream.poll().1 == PollView::Pending && stream.awaits(stream.yielded),
        stream.yielded == stream.dispatched ==> stream.poll().1 == PollView::Pending
            && stream.dispatch().1 == Some(stream.yielded),
{
}

} // verus!
