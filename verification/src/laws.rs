//! What holds of the streams taken together.

use vstd::prelude::*;
use crate::audio::{AudioOutputConfig, AudioView};
use crate::error::ErrorView;
use crate::lazy::{lemma_lazy_output, LazyView};
use crate::parallel::{
    lemma_consistent_count, lemma_fresh_is_consistent, lemma_run_in_order, Event, ParallelView,
};
use crate::realtime::{
    as_bytes, consumed_all, lemma_consumed_in_order, lemma_job_run_from, per_sentence,
    sentence_results, BatchResultView, BatchView, JobView, Phase,
};
use crate::stream::{
    concatenated, delivered, delivered_all, lemma_failure_ends_stream, lemma_output_in_order,
    lemma_output_is_whole, lemma_same_contents_same_output, same_contents, stream_output,
    ItemView,
};

verus! {

/// A parallel stream yields what a lazy stream yields. For the same
/// sentences, the same output configuration and the same results of the
/// model, and whatever the order in which workers take and finish their
/// sentences: at every moment the items that the parallel stream has yielded
/// are the first items of the lazy stream, and once it has finished they are
/// all of them, so that the audio of both, chunk behind chunk, is the same.
pub proof fn lemma_parallel_matches_lazy(
    sentences: Seq<String>,
    config: Option<AudioOutputConfig>,
    synthesized: Seq<ItemView>,
    events: Seq<Event>,
)
    requires
        synthesized.len() == sentences.len(),
    ensures
        ({
            let lazy = LazyView::fresh(sentences, config).run(synthesized);
            let parallel = ParallelView::fresh(sentences, config);
            let yielded = parallel.run(events, synthesized);
            &&& yielded.len() <= lazy.len()
            &&& yielded == lazy.take(yielded.len() as int)
            &&& parallel.after_all(events, synthesized).finished() ==> yielded == lazy
                && concatenated(yielded) == concatenated(lazy)
        }),
{
    let parallel = ParallelView::fresh(sentences, config);
    let output = stream_output(delivered_all(config, synthesized));
    lemma_lazy_output(sentences, config, synthesized);
    lemma_fresh_is_consistent(sentences, config, synthesized);
    lemma_run_in_order(parallel, events, synthesized);
    let last = parallel.after_all(events, synthesized);
    lemma_consistent_count(last, synthesized);
    let yielded = parallel.run(events, synthesized);
    assert(yielded =~= output.take(yielded.len() as int));
    if last.finished() {
        assert(yielded =~= output);
    }
}

/// A parallel stream and a lazy stream give the same audio. For the same
/// sentences and the same output configuration, when the model makes the
/// same audio of each sentence for both, though it may take another time
/// over it: once the parallel stream has finished, it has yielded as many
/// items as the lazy stream yields, each with the same audio, and the
/// samples of both, chunk behind chunk, are the same.
pub proof fn lemma_parallel_audio_is_lazy_audio(
    sentences: Seq<String>,
    config: Option<AudioOutputConfig>,
    for_lazy: Seq<ItemView>,
    for_parallel: Seq<ItemView>,
    events: Seq<Event>,
)
    requires
        for_lazy.len() == sentences.len(),
        same_contents(for_lazy, for_parallel),
        ParallelView::fresh(sentences, config).after_all(events, for_parallel).finished(),
    ensures
        same_contents(
            LazyView::fresh(sentences, config).run(for_lazy),
            ParallelView::fresh(sentences, config).run(events, for_parallel),
        ),
        concatenated(LazyView::fresh(sentences, config).run(for_lazy)) == concatenated(
            ParallelView::fresh(sentences, config).run(events, for_parallel),
        ),
{
    lemma_parallel_matches_lazy(sentences, config, for_parallel, events);
    lemma_lazy_output(sentences, config, for_parallel);
    lemma_lazy_output(sentences, config, for_lazy);
    lemma_same_contents_same_output(config, for_lazy, for_parallel);
}

/// Both streams keep the order of the sentences: in a lazy stream pulled to
/// its end, and in a parallel stream at every moment and under every order
/// of its workers, the item in place `k` is the item of sentence `k`, and
/// no item but the last is a failure.
pub proof fn lemma_streams_keep_sentence_order(
    sentences: Seq<String>,
    config: Option<AudioOutputConfig>,
    synthesized: Seq<ItemView>,
    events: Seq<Event>,
)
    requires
        synthesized.len() == sentences.len(),
    ensures
        ({
            let lazy = LazyView::fresh(sentences, config).run(synthesized);
            let yielded = ParallelView::fresh(sentences, config).run(events, synthesized);
            &&& lazy.len() <= sentences.len()
            &&& yielded.len() <= lazy.len()
            &&& forall|k: int| 0 <= k < lazy.len() ==> lazy[k] == delivered(config, synthesized[k])
            &&& forall|k: int|
                0 <= k < yielded.len() ==> yielded[k] == delivered(config, synthesized[k])
            &&& forall|k: int| 0 <= k < lazy.len() - 1 ==> lazy[k].is_ok()
            &&& forall|k: int| 0 <= k < yielded.len() - 1 ==> yielded[k].is_ok()
            &&& sentences.len() > 0 ==> lazy.len() > 0
        }),
{
    lemma_parallel_matches_lazy(sentences, config, synthesized, events);
    lemma_lazy_output(sentences, config, synthesized);
    lemma_output_in_order(delivered_all(config, synthesized));
}

/// An empty text yields nothing. The streams that a session makes of an
/// empty text have no sentences; such a lazy stream yields no item, such a
/// parallel stream yields none whatever happens to it, and a realtime job
/// for an empty text ends at setup with nothing sent, failure or not,
/// whatever the outcome of splitting and whatever the chunk size.
pub proof fn lemma_empty_text_yields_nothing(
    text: String,
    config: Option<AudioOutputConfig>,
    synthesized: Seq<ItemView>,
    events: Seq<Event>,
    chunk_size: nat,
    chunk_padding: nat,
    segmented: Result<Seq<String>, ErrorView>,
    model: spec_fn(BatchView) -> BatchResultView,
)
    requires
        text@.len() == 0,
    ensures
        LazyView::fresh(Seq::empty(), config).finished(),
        LazyView::fresh(Seq::empty(), config).run(synthesized) == Seq::<ItemView>::empty(),
        ParallelView::fresh(Seq::empty(), config).finished(),
        ParallelView::fresh(Seq::empty(), config).run(events, synthesized) == Seq::<
            ItemView,
        >::empty(),
        JobView::fresh(text, config, chunk_size, chunk_padding).begin(segmented).0.phase
            == Phase::Closed,
        JobView::fresh(text, config, chunk_size, chunk_padding).whole(segmented, model) == Seq::<
            ItemView,
        >::empty(),
{
    lemma_never_yields(ParallelView::fresh(Seq::empty(), config), events, synthesized);
    let job = JobView::fresh(text, config, chunk_size, chunk_padding);
    assert(job.whole(segmented, model) =~= Seq::empty());
}

/// A parallel stream without sentences yields nothing, whatever happens.
proof fn lemma_never_yields(stream: ParallelView, events: Seq<Event>, synthesized: Seq<ItemView>)
    requires
        stream.sentences.len() == 0,
    ensures
        stream.run(events, synthesized) == Seq::<ItemView>::empty(),
    decreases events.len(),
{
    if events.len() > 0 {
        let next = stream.after(events[0], synthesized);
        assert(next.sentences == stream.sentences);
        lemma_never_yields(next, events.drop_first(), synthesized);
        assert(stream.yields(events[0]) =~= Seq::empty());
        assert(stream.run(events, synthesized) =~= Seq::empty());
    }
}

/// One failure in the middle ends the stream. When sentence `k` is the
/// first whose item is a failure, a lazy stream pulled to its end yields the
/// `k` items before it in the order of the sentences, then the failure, and
/// nothing behind it; a parallel stream never yields anything else, and has
/// yielded exactly that when it has finished.
pub proof fn lemma_failure_mid_stream(
    sentences: Seq<String>,
    config: Option<AudioOutputConfig>,
    synthesized: Seq<ItemView>,
    events: Seq<Event>,
    k: nat,
)
    requires
        synthesized.len() == sentences.len(),
        k < sentences.len(),
        forall|i: int| 0 <= i < k ==> delivered(config, synthesized[i]).is_ok(),
        delivered(config, synthesized[k as int]).is_err(),
    ensures
        ({
            let lazy = LazyView::fresh(sentences, config).run(synthesized);
            let parallel = ParallelView::fresh(sentences, config);
            let yielded = parallel.run(events, synthesized);
            &&& lazy.len() == k + 1
            &&& forall|i: int|
                0 <= i < k ==> lazy[i].is_ok() && lazy[i] == delivered(config, synthesized[i])
            &&& lazy[k as int] == delivered(config, synthesized[k as int])
            &&& yielded.len() <= k + 1
            &&& yielded == lazy.take(yielded.len() as int)
            &&& parallel.after_all(events, synthesized).finished() ==> yielded == lazy
        }),
{
    lemma_lazy_output(sentences, config, synthesized);
    lemma_failure_ends_stream(delivered_all(config, synthesized), k);
    lemma_parallel_matches_lazy(sentences, config, synthesized, events);
}

/// The chunk size changes the batches and nothing else. With a model that
/// makes the same audio of a sentence whatever stands in a batch with it,
/// two realtime jobs for the same text that differ in chunk size and padding
/// send the same items in the same order: the items of the sentences in the
/// order of the text, up to the first failure.
pub proof fn lemma_chunk_size_keeps_order(
    text: String,
    sentences: Seq<String>,
    config: Option<AudioOutputConfig>,
    chunk: spec_fn(int) -> AudioView,
    size_a: nat,
    padding_a: nat,
    size_b: nat,
    padding_b: nat,
)
    requires
        size_a > 0,
        size_b > 0,
    ensures
        ({
            let model = |b: BatchView| per_sentence(chunk, b);
            let a = JobView::fresh(text, config, size_a, padding_a).whole(Ok(sentences), model);
            let b = JobView::fresh(text, config, size_b, padding_b).whole(Ok(sentences), model);
            &&& a == b
            &&& text@.len() > 0 ==> a == stream_output(
                delivered_all(config, sentence_results(sentences.len(), chunk)),
            )
        }),
{
    lemma_whole_job(text, sentences, config, chunk, size_a, padding_a);
    lemma_whole_job(text, sentences, config, chunk, size_b, padding_b);
}

/// The realtime stream yields all that its job sends, in the order in which
/// it was sent. With a model that makes the same audio of a sentence
/// whatever stands in a batch with it, and a channel that hands out what it
/// was given in the order in which it was given: the stream yields the audio
/// of the sentences as bytes, in the order of the text, up to the first
/// failure and with it, whatever the chunk size.
pub proof fn lemma_realtime_delivers_in_order(
    text: String,
    sentences: Seq<String>,
    config: Option<AudioOutputConfig>,
    chunk: spec_fn(int) -> AudioView,
    chunk_size: nat,
    chunk_padding: nat,
)
    requires
        chunk_size > 0,
        text@.len() > 0,
    ensures
        ({
            let sent = JobView::fresh(text, config, chunk_size, chunk_padding).whole(
                Ok(sentences),
                |b: BatchView| per_sentence(chunk, b),
            );
            let expected = stream_output(
                delivered_all(config, sentence_results(sentences.len(), chunk)),
            );
            &&& sent == expected
            &&& consumed_all(false, sent) == Seq::new(expected.len(), |i: int| as_bytes(expected[i]))
        }),
{
    lemma_whole_job(text, sentences, config, chunk, chunk_size, chunk_padding);
    let expected = stream_output(delivered_all(config, sentence_results(sentences.len(), chunk)));
    lemma_consumed_in_order(expected);
    lemma_output_is_whole(delivered_all(config, sentence_results(sentences.len(), chunk)));
}

/// With a model that makes one chunk of each sentence, a job sends the
/// items of the sentences in the order of the text, up to the first
/// failure; nothing for an empty text.
proof fn lemma_whole_job(
    text: String,
    sentences: Seq<String>,
    config: Option<AudioOutputConfig>,
    chunk: spec_fn(int) -> AudioView,
    chunk_size: nat,
    chunk_padding: nat,
)
    requires
        chunk_size > 0,
    ensures
        ({
            let model = |b: BatchView| per_sentence(chunk, b);
            let sent = JobView::fresh(text, config, chunk_size, chunk_padding).whole(
                Ok(sentences),
                model,
            );
            &&& text@.len() == 0 ==> sent == Seq::<ItemView>::empty()
            &&& text@.len() > 0 ==> sent == stream_output(
                delivered_all(config, sentence_results(sentences.len(), chunk)),
            )
        }),
{
    let model = |b: BatchView| per_sentence(chunk, b);
    let job = JobView::fresh(text, config, chunk_size, chunk_padding);
    let (started, items) = job.begin(Ok(sentences));
    let output = stream_output(delivered_all(config, sentence_results(sentences.len(), chunk)));
    if text@.len() == 0 {
        assert(job.whole(Ok(sentences), model) =~= Seq::empty());
    } else {
        lemma_job_run_from(started, chunk);
        assert(output.skip(0) =~= output);
        assert(job.whole(Ok(sentences), model) =~= output);
    }
}

} // verus!
