//! The channel between a realtime job and its stream: the one-producer,
//! one-consumer channel of the standard library. What this file says of it
//! is taken on trust.

use vstd::prelude::*;
use std::sync::mpsc::{Receiver, Sender};
use crate::audio::WaveSamples;
use crate::error::SonataError;

verus! {

/// The sending end of a channel of the standard library. Nothing of its
/// state is visible to contracts.
#[verifier::external_type_specification]
#[verifier::external_body]
#[verifier::reject_recursive_types(T)]
pub struct ExSender<T>(Sender<T>);

/// The receiving end of a channel of the standard library. Nothing of its
/// state is visible to contracts.
#[verifier::external_type_specification]
#[verifier::external_body]
#[verifier::reject_recursive_types(T)]
pub struct ExReceiver<T>(Receiver<T>);

/// Calls `std::sync::mpsc::channel` and hands out the two ends of a new
/// channel. Nothing is claimed of them.
#[verifier::external_body]
pub(crate) fn open_channel() -> (ends: (
    Sender<Result<WaveSamples, SonataError>>,
    Receiver<Result<WaveSamples, SonataError>>,
)) {
    std::sync::mpsc::channel()
}

/// Calls `Sender::send` and says whether the channel took the item; it does
/// not once the receiving end is gone. Nothing is claimed of the answer.
#[verifier::external_body]
pub(crate) fn send_item(
    sender: &Sender<Result<WaveSamples, SonataError>>,
    item: Result<WaveSamples, SonataError>,
) -> (taken: bool) {
    sender.send(item).is_ok()
}

/// Calls `Receiver::recv`, which waits for the next item; `None` once the
/// channel is empty and its sending end is gone. Nothing is claimed of the
/// answer.
#[verifier::external_body]
pub(crate) fn receive_item(receiver: &Receiver<Result<WaveSamples, SonataError>>) -> (item: Option<
    Result<WaveSamples, SonataError>,
>) {
    receiver.recv().ok()
}

} // verus!
