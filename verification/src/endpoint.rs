//! The asynchronous endpoints of the `eventual` crate that the state
//! machines hold, and the calls on them that do not wait.
//!
//! A sink is the writable end of a back-pressured sequence, a source its
//! readable end. Nothing in this file is proved: each function makes one call
//! into `eventual`, and what comes back depends on what the other end has
//! done, so the contracts state no more than the shape of the result.

use bytes::Bytes;
use eventual::Async;
use vstd::prelude::*;

verus! {

#[verifier::external_type_specification]
#[verifier::external_body]
#[verifier::reject_recursive_types(T)]
#[verifier::reject_recursive_types(E)]
pub struct ExSender<T: Send + 'static, E: Send + 'static>(eventual::Sender<T, E>);

#[verifier::external_type_specification]
#[verifier::external_body]
#[verifier::reject_recursive_types(T)]
#[verifier::reject_recursive_types(E)]
pub struct ExBusySender<T: Send + 'static, E: Send + 'static>(eventual::BusySender<T, E>);

#[verifier::external_type_specification]
#[verifier::external_body]
#[verifier::reject_recursive_types(T)]
#[verifier::reject_recursive_types(E)]
pub struct ExStream<T: Send + 'static, E: Send + 'static>(eventual::Stream<T, E>);

/// The error that a failed sequence carries.
pub type Error = ();

/// The writable end of a sequence of `T`.
pub type Sink<T> = eventual::Sender<T, Error>;

/// A sink that has sent a value which the consumer has not yet followed up.
pub type Busy<T> = eventual::BusySender<T, Error>;

/// The readable end of a sequence of `T`.
pub type Source<T> = eventual::Stream<T, Error>;

/// The two ends that a caller holds of one connection: the sink it writes
/// to and the source it reads from.
pub type Pair<T> = (Sink<T>, Source<T>);

/// A sink that cannot take a value yet. It waits for its consumer.
#[verifier::reject_recursive_types(T)]
pub enum Parked<T: Send + 'static> {
    /// Nothing was sent through it since it last was ready.
    Idle(Sink<T>),
    /// A value was sent, and the consumer has not asked for the next one.
    Busy(Busy<T>),
}

/// What a poll of a sink found.
#[verifier::reject_recursive_types(T)]
pub enum Polled<T: Send + 'static> {
    /// The consumer has asked for the next value: the sink can take one.
    Ready(Sink<T>),
    /// The consumer has dropped its end.
    Dropped,
    /// The consumer has not asked yet.
    Pending(Parked<T>),
}

/// What a poll of a source of chunks found.
pub enum Supplied {
    /// The producer has sent a chunk; the source goes on behind it.
    Chunk(Bytes, Source<Bytes>),
    /// The producer has ended the sequence.
    End,
    /// The producer has failed.
    Failed,
    /// The producer has sent nothing yet.
    Pending(Source<Bytes>),
}

/// `Stream::pair`: a new sequence, as its sink and its source.
#[verifier::external_body]
pub(crate) fn pair<T: Send + 'static>() -> (ends: Pair<T>) {
    eventual::Stream::pair()
}

/// `Async::poll` on a `Sender`: whether the consumer has asked for the next
/// value, has gone, or has done neither. A sender that is not ready comes
/// back as it was, idle.
#[verifier::external_body]
pub(crate) fn poll_sink<T: Send + 'static>(tx: Sink<T>) -> (polled: Polled<T>)
    ensures
        polled matches Polled::Pending(parked) ==> parked is Idle,
{
    match tx.poll() {
        Ok(Ok(tx)) => Polled::Ready(tx),
        Ok(Err(_)) => Polled::Dropped,
        Err(tx) => Polled::Pending(Parked::Idle(tx)),
    }
}

/// `Async::poll` on a `BusySender`: whether the consumer has taken the value
/// and asked for the next one, has gone, or has done neither. A sender that
/// is not ready comes back as it was, busy.
#[verifier::external_body]
pub(crate) fn poll_busy<T: Send + 'static>(busy: Busy<T>) -> (polled: Polled<T>)
    ensures
        polled matches Polled::Pending(parked) ==> parked is Busy,
{
    match busy.poll() {
        Ok(Ok(tx)) => Polled::Ready(tx),
        Ok(Err(_)) => Polled::Dropped,
        Err(busy) => Polled::Pending(Parked::Busy(busy)),
    }
}

/// `Async::poll` on a `Stream`: the chunk that the producer has sent, the end
/// or the failure of the sequence, or the source as it was.
#[verifier::external_body]
pub(crate) fn poll_source(rx: Source<Bytes>) -> (supplied: Supplied) {
    match rx.poll() {
        Ok(Ok(Some((bytes, rest)))) => Supplied::Chunk(bytes, rest),
        Ok(Ok(None)) => Supplied::End,
        Ok(Err(_)) => Supplied::Failed,
        Err(rx) => Supplied::Pending(rx),
    }
}

/// `Sender::send`: hands `value` to the consumer. Every sender that safe code
/// can hold is new, or came out of a poll as ready or as it was, and
/// `eventual` accepts a value from each of these.
#[verifier::external_body]
pub(crate) fn send<T: Send + 'static>(tx: Sink<T>, value: T) -> (busy: Busy<T>) {
    tx.send(value)
}

/// `Sender::fail`: ends the sequence with an error.
#[verifier::external_body]
pub(crate) fn fail<T: Send + 'static>(tx: Sink<T>) {
    tx.fail(())
}

} // verus!
