use async_channel::{Receiver, TryRecvError};
use vstd::prelude::*;

use crate::channel::chunk::{with_received, Received};

verus! {

/// The receiving end of a async channel of sample chunks, with a record of the chunks it
/// has yielded, which only a receive attempt extends.
#[verifier::reject_recursive_types(T)]
pub struct AsyncChunkReceiver<T> {
    receiver: Receiver<Box<[T]>>,
    delivered: Ghost<Seq<Seq<T>>>,
}

impl<T> AsyncChunkReceiver<T> {
    /// The receiving end of the channel.
    pub closed spec fn receiver(&self) -> Receiver<Box<[T]>> {
        self.receiver
    }

    /// The chunks the channel has yielded through this end, in order.
    pub closed spec fn delivered(&self) -> Seq<Seq<T>> {
        self.delivered@
    }

    /// The end `receiver`, having yielded nothing yet.
    pub fn new(receiver: Receiver<Box<[T]>>) -> (c: Self)
        ensures
            c.receiver() == receiver,
            c.delivered() == Seq::<Seq<T>>::empty(),
    {
        AsyncChunkReceiver { receiver, delivered: Ghost(Seq::empty()) }
    }
}

/// Calls `async_channel::Receiver::try_recv` and tells its outcomes apart: a chunk, an
/// empty channel, a closed one. Which of them comes depends on the senders, so it
/// is not stated; a chunk that comes is added to the record of chunks yielded.
#[verifier::external_body]
pub(crate) fn try_recv_chunk<T>(channel: &mut AsyncChunkReceiver<T>) -> (r: Received<T>)
    ensures
        final(channel).receiver() == old(channel).receiver(),
        final(channel).delivered() == with_received(old(channel).delivered(), r),
{
    match channel.receiver.try_recv() {
        Ok(data) => Received::Data(data.into_vec()),
        Err(TryRecvError::Empty) => Received::Empty,
        Err(TryRecvError::Closed) => Received::Closed,
    }
}

} // verus!
