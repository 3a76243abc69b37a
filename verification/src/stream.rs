//! What all streams have in common: the item that a stream yields for a
//! sentence, and the output of a stream as a whole.

use vstd::prelude::*;
use crate::audio::{
    append_silence, silence_fits, silence_overflow, with_silence, AudioInfo, AudioOutputConfig,
    AudioView, WaveSamples,
};
use crate::error::{ErrorView, SonataError};

verus! {

/// One item of a stream as contracts see it: audio, or the failure that ends
/// the stream.
pub type ItemView = Result<AudioView, ErrorView>;

/// What contracts see of an item.
pub open spec fn item_view(item: Result<WaveSamples, SonataError>) -> ItemView {
    match item {
        Ok(audio) => Ok(audio@),
        Err(e) => Err(e@),
    }
}

/// What contracts see of an item that may be absent.
pub open spec fn yield_view(item: Option<Result<WaveSamples, SonataError>>) -> Option<ItemView> {
    match item {
        Some(item) => Some(item_view(item)),
        None => None,
    }
}

/// What contracts see of a list of items.
pub open spec fn items_view(items: Seq<Result<WaveSamples, SonataError>>) -> Seq<ItemView> {
    Seq::new(items.len(), |i: int| item_view(items[i]))
}

/// The item that a stream yields for what the model made of one sentence:
/// the audio with the requested silence behind it, or the failure.
pub open spec fn delivered(config: Option<AudioOutputConfig>, synthesized: ItemView) -> ItemView {
    match synthesized {
        Ok(audio) => if silence_fits(config, audio) {
            Ok(with_silence(config, audio))
        } else {
            Err(silence_overflow())
        },
        Err(e) => Err(e),
    }
}

/// The items for the model's results of all sentences, each in its place.
pub open spec fn delivered_all(config: Option<AudioOutputConfig>, synthesized: Seq<ItemView>) -> Seq<
    ItemView,
> {
    Seq::new(synthesized.len(), |i: int| delivered(config, synthesized[i]))
}

/// The place of the first failure among `items` at or after `from`; their
/// number where there is none.
pub open spec fn first_failure(items: Seq<ItemView>, from: nat) -> nat
    decreases items.len() - from,
{
    if from >= items.len() {
        items.len()
    } else if items[from as int].is_err() {
        from
    } else {
        first_failure(items, from + 1)
    }
}

/// How many of `items` a stream yields: those before the first failure, and
/// the failure itself.
pub open spec fn yield_count(items: Seq<ItemView>) -> nat {
    let failure = first_failure(items, 0);
    if failure < items.len() {
        failure + 1
    } else {
        items.len()
    }
}

/// What a stream yields when the sentences give `items`, in the order of the
/// sentences: every item up to the first failure, that failure, and no more.
pub open spec fn stream_output(items: Seq<ItemView>) -> Seq<ItemView> {
    items.take(yield_count(items) as int)
}

/// Turns what the model made of one sentence into the item that the stream
/// yields for it.
pub fn deliver(config: &Option<AudioOutputConfig>, synthesized: Result<WaveSamples, SonataError>) -> (item:
    Result<WaveSamples, SonataError>)
    ensures
        item_view(item) == delivered(*config, item_view(synthesized)),
        synthesized.is_err() ==> item == synthesized,
{
    match synthesized {
        Ok(audio) => append_silence(config, audio),
        Err(e) => Err(e),
    }
}

/// The first failure lies at or after `from`, no item between `from` and it
/// is a failure, and it is one unless it lies behind the last item.
pub proof fn lemma_first_failure(items: Seq<ItemView>, from: nat)
    requires
        from <= items.len(),
    ensures
        from <= first_failure(items, from) <= items.len(),
        forall|i: int| from <= i < first_failure(items, from) ==> items[i].is_ok(),
        first_failure(items, from) < items.len() ==> items[first_failure(items, from) as int].is_err(),
    decreases items.len() - from,
{
    if from < items.len() && items[from as int].is_ok() {
        lemma_first_failure(items, from + 1);
    }
}

/// An item that fails, with none failing before it, is the first failure.
pub proof fn lemma_first_failure_is(items: Seq<ItemView>, from: nat, k: nat)
    requires
        from <= k <= items.len(),
        forall|i: int| from <= i < k ==> items[i].is_ok(),
        k < items.len() ==> items[k as int].is_err(),
    ensures
        first_failure(items, from) == k,
    decreases k - from,
{
    if from < k {
        lemma_first_failure_is(items, from + 1, k);
    }
}

/// The output of a stream is known from its first failure: with failure at
/// `k` it is the first `k` items and the failure; with none it is all items.
pub proof fn lemma_stream_output_is(items: Seq<ItemView>, k: nat)
    requires
        k <= items.len(),
        forall|i: int| 0 <= i < k ==> items[i].is_ok(),
        k < items.len() ==> items[k as int].is_err(),
    ensures
        k < items.len() ==> stream_output(items) == items.take(k as int + 1),
        k == items.len() ==> stream_output(items) == items,
{
    lemma_first_failure_is(items, 0, k);
    if k == items.len() {
        assert(items.take(items.len() as int) =~= items);
    }
}

/// A stream yields the items of the sentences in the order of the
/// sentences: the item in place `k` of the output is the item of sentence
/// `k`, and nothing in the output but its last item is a failure.
pub proof fn lemma_output_in_order(items: Seq<ItemView>)
    ensures
        stream_output(items).len() <= items.len(),
        forall|k: int| 0 <= k < stream_output(items).len() ==> stream_output(items)[k] == items[k],
        forall|k: int| 0 <= k < stream_output(items).len() - 1 ==> stream_output(items)[k].is_ok(),
        stream_output(items).len() < items.len() ==> stream_output(items).last().is_err(),
        stream_output(items).len() == 0 ==> items.len() == 0,
{
    lemma_first_failure(items, 0);
}

/// A failure ends the stream: when sentence `k` is the first whose item is
/// a failure, the stream yields the `k` items before it in order, then the
/// failure, and nothing behind it.
pub proof fn lemma_failure_ends_stream(items: Seq<ItemView>, k: nat)
    requires
        k < items.len(),
        forall|i: int| 0 <= i < k ==> items[i].is_ok(),
        items[k as int].is_err(),
    ensures
        stream_output(items).len() == k + 1,
        forall|i: int| 0 <= i < k ==> stream_output(items)[i] == items[i] && stream_output(items)[i].is_ok(),
        stream_output(items)[k as int] == items[k as int],
{
    lemma_stream_output_is(items, k);
}

/// Without a failure the stream yields the item of every sentence.
pub proof fn lemma_no_failure_yields_all(items: Seq<ItemView>)
    requires
        forall|i: int| 0 <= i < items.len() ==> items[i].is_ok(),
    ensures
        stream_output(items) == items,
{
    lemma_stream_output_is(items, items.len());
}

/// The samples of all audio among `items`, one chunk behind the other.
pub open spec fn concatenated(items: Seq<ItemView>) -> Seq<i16>
    decreases items.len(),
{
    if items.len() == 0 {
        Seq::empty()
    } else {
        concatenated(items.drop_last()) + match items.last() {
            Ok(audio) => audio.samples,
            Err(_) => Seq::empty(),
        }
    }
}

/// The items of a stream as one piece of audio in the format `info`: the
/// samples of all chunks, one behind the other, or the first failure among
/// the items.
pub open spec fn gathered(info: AudioInfo, items: Seq<ItemView>) -> ItemView {
    let failure = first_failure(items, 0);
    if failure < items.len() {
        Err(items[failure as int]->Err_0)
    } else {
        Ok(AudioView { samples: concatenated(items), info, inference_ms: None })
    }
}

/// Joins the items of a stream into one piece of audio in the format `info`,
/// or returns the first failure among them.
pub fn gather(info: AudioInfo, items: Vec<Result<WaveSamples, SonataError>>) -> (audio: Result<
    WaveSamples,
    SonataError,
>)
    ensures
        item_view(audio) == gathered(info, items_view(items@)),
{
    let ghost views = items_view(items@);
    let mut rest = items;
    let mut samples: Vec<i16> = Vec::new();
    let mut i: usize = 0;
    while i < rest.len()
        invariant
            i <= rest@.len(),
            rest@.len() == views.len(),
            views == items_view(items@),
            forall|k: int| i <= k < rest@.len() ==> item_view(rest@[k]) == views[k],
            forall|k: int| 0 <= k < i ==> views[k].is_ok(),
            samples@ == concatenated(views.take(i as int)),
        decreases rest@.len() - i,
    {
        let mut item: Result<WaveSamples, SonataError> = Err(SonataError::Operation(String::new()));
        core::mem::swap(&mut rest[i], &mut item);
        assert(item_view(item) == views[i as int]);
        match item {
            Err(e) => {
                proof {
                    lemma_first_failure_is(views, 0, i as nat);
                }
                return Err(e);
            },
            Ok(chunk) => {
                let mut chunk = chunk;
                proof {
                    assert(views.take(i as int + 1).drop_last() =~= views.take(i as int));
                    assert(views.take(i as int + 1).last() == views[i as int]);
                }
                samples.append(&mut chunk.samples);
            },
        }
        i = i + 1;
    }
    proof {
        lemma_first_failure_is(views, 0, i as nat);
        assert(views.take(i as int) =~= views);
    }
    Ok(WaveSamples::new(samples, info, None))
}

/// Whether two items hold the same audio: the same samples in the same
/// format, whatever time their inference took, or the same failure.
pub open spec fn same_content(a: ItemView, b: ItemView) -> bool {
    match (a, b) {
        (Ok(x), Ok(y)) => x.samples == y.samples && x.info == y.info,
        (Err(x), Err(y)) => x == y,
        _ => false,
    }
}

/// Whether two lists of items hold the same audio, item by item.
pub open spec fn same_contents(a: Seq<ItemView>, b: Seq<ItemView>) -> bool {
    &&& a.len() == b.len()
    &&& forall|i: int| 0 <= i < a.len() ==> same_content(#[trigger] a[i], b[i])
}

/// Items with the same audio give the same samples when they are joined.
pub proof fn lemma_same_contents_join(a: Seq<ItemView>, b: Seq<ItemView>)
    requires
        same_contents(a, b),
    ensures
        concatenated(a) == concatenated(b),
    decreases a.len(),
{
    if a.len() > 0 {
        assert(same_content(a[a.len() - 1], b[a.len() - 1]));
        assert forall|i: int| 0 <= i < a.drop_last().len() implies same_content(
            #[trigger] a.drop_last()[i],
            b.drop_last()[i],
        ) by {
            assert(same_content(a[i], b[i]));
        }
        lemma_same_contents_join(a.drop_last(), b.drop_last());
    }
}

/// The time that inference took changes nothing that is heard: when the
/// model's results for the sentences hold the same audio in two runs, the
/// two streams yield items with the same audio, as many in one as in the
/// other, and joined they are the same samples.
pub proof fn lemma_same_contents_same_output(
    config: Option<AudioOutputConfig>,
    a: Seq<ItemView>,
    b: Seq<ItemView>,
)
    requires
        same_contents(a, b),
    ensures
        same_contents(
            stream_output(delivered_all(config, a)),
            stream_output(delivered_all(config, b)),
        ),
        concatenated(stream_output(delivered_all(config, a))) == concatenated(
            stream_output(delivered_all(config, b)),
        ),
{
    let x = delivered_all(config, a);
    let y = delivered_all(config, b);
    assert forall|i: int| 0 <= i < x.len() implies same_content(#[trigger] x[i], y[i]) by {
        assert(same_content(a[i], b[i]));
    }
    lemma_first_failure(x, 0);
    let k = first_failure(x, 0);
    assert forall|i: int| 0 <= i < k implies y[i].is_ok() by {
        assert(same_content(x[i], y[i]));
    }
    if k < x.len() {
        assert(same_content(x[k as int], y[k as int]));
    }
    lemma_first_failure_is(y, 0, k);
    let p = stream_output(x);
    let q = stream_output(y);
    assert forall|i: int| 0 <= i < p.len() implies same_content(#[trigger] p[i], q[i]) by {
        assert(same_content(x[i], y[i]));
    }
    lemma_same_contents_join(p, q);
}

/// The output of a stream holds no failure but its last item: taken as the
/// items of a stream, it is that stream's whole output.
pub proof fn lemma_output_is_whole(items: Seq<ItemView>)
    ensures
        stream_output(stream_output(items)) == stream_output(items),
{
    lemma_first_failure(items, 0);
    let output = stream_output(items);
    let k = first_failure(items, 0);
    if k < items.len() {
        lemma_stream_output_is(output, k);
        assert(output.take(k as int + 1) =~= output);
    } else {
        lemma_stream_output_is(output, output.len());
    }
}

} // verus!
