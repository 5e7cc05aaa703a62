use crossbeam_channel::Receiver;
use vstd::prelude::*;

use crate::channel::chunk::{received_items, source_step, with_received, PendingChunk, Received, SourceOutput};
use crate::channel::receiver::{try_recv_chunk, ChunkReceiver};

verus! {

#[verifier::external_type_specification]
#[verifier::external_body]
#[verifier::reject_recursive_types(T)]
pub struct ExCrossbeamReceiver<T>(crossbeam_channel::Receiver<T>);

/// Pulls chunks of samples from a crossbeam channel into a stream.
#[verifier::reject_recursive_types(T)]
pub struct CrossbeamSource<T> {
    channel: ChunkReceiver<T>,
    current: PendingChunk<T>,
}

impl<T: Copy> CrossbeamSource<T> {
    /// The samples of the last chunk received that are still to be handed out.
    pub closed spec fn pending(&self) -> Seq<T> {
        self.current.items()
    }

    /// The receiving end of the channel that the source reads from.
    pub closed spec fn receiver(&self) -> Receiver<Box<[T]>> {
        self.channel.receiver()
    }

    /// The chunks the channel has yielded to the source so far, in order.
    pub closed spec fn delivered(&self) -> Seq<Seq<T>> {
        self.channel.delivered()
    }

    /// A source reading from `receiver`, with no samples waiting.
    pub fn new(receiver: Receiver<Box<[T]>>) -> (s: Self)
        ensures
            s.pending() == Seq::<T>::empty(),
            s.receiver() == receiver,
            s.delivered() == Seq::<Seq<T>>::empty(),
    {
        CrossbeamSource { channel: ChunkReceiver::new(receiver), current: PendingChunk::new() }
    }

    /// Whether a new chunk is due from the channel.
    pub fn needs_chunk(&self) -> (b: bool)
        ensures
            b == (self.pending().len() == 0),
    {
        self.current.is_empty()
    }

    /// Hands out samples for an output with `cap` free places, given the outcome `received` of
    /// the receive attempt that is made exactly when no samples are waiting. Samples are
    /// neither lost nor repeated: those handed out, then those kept, are those that waited,
    /// then those received.
    pub fn step(&mut self, received: Option<Received<T>>, cap: usize) -> (r: SourceOutput<T>)
        requires
            cap > 0,
            received is Some <==> old(self).pending().len() == 0,
        ensures
            (r.items@, final(self).pending()) == source_step(old(self).pending(), received_items(received), cap as nat),
            r.call_again == (final(self).pending().len() == 0),
            r.finished == (received matches Some(Received::Closed)),
            final(self).receiver() == old(self).receiver(),
            final(self).delivered() == old(self).delivered(),
            r.items@ + final(self).pending() == old(self).pending() + received_items(received),
    {
        self.current.step(received, cap)
    }

    /// One call of the block for an output with `cap` free places: with no room nothing
    /// happens; otherwise, when no samples are waiting, one chunk is tried from the channel,
    /// and as many samples as fit are handed out.
    pub fn work(&mut self, cap: usize) -> (r: SourceOutput<T>)
        ensures
            cap == 0 ==> r.items@ == Seq::<T>::empty() && !r.call_again && !r.finished
                && final(self).pending() == old(self).pending(),
            cap > 0 ==> exists|got: Seq<T>| {
                &&& old(self).pending().len() > 0 ==> got.len() == 0
                &&& (r.items@, final(self).pending()) == #[trigger] source_step(old(self).pending(), got, cap as nat)
            },
            cap > 0 ==> r.call_again == (final(self).pending().len() == 0),
            r.finished ==> old(self).pending().len() == 0 && r.items@.len() == 0
                && final(self).pending().len() == 0,
            final(self).receiver() == old(self).receiver(),
            cap == 0 || old(self).pending().len() > 0 ==> final(self).delivered() == old(self).delivered(),
            old(self).delivered().len() <= final(self).delivered().len() <= old(self).delivered().len() + 1,
            final(self).delivered().take(old(self).delivered().len() as int) == old(self).delivered(),
            r.items@ + final(self).pending()
                == old(self).pending() + final(self).delivered().skip(old(self).delivered().len() as int).flatten(),
    {
        if cap == 0 {
            assert(self.delivered().skip(self.delivered().len() as int) =~= Seq::<Seq<T>>::empty());
            assert(Seq::<T>::empty() + self.pending() =~= self.pending() + Seq::<T>::empty());
            return SourceOutput { items: Vec::new(), call_again: false, finished: false };
        }
        let ghost log = self.delivered();
        let received = if self.needs_chunk() {
            Some(try_recv_chunk(&mut self.channel))
        } else {
            None
        };
        proof {
            if received is Some {
                assert(self.delivered() == with_received(log, received->0));
            }
            let fresh = self.delivered().skip(log.len() as int);
            assert(self.delivered().take(log.len() as int) =~= log);
            if self.delivered().len() > log.len() {
                assert(fresh =~= seq![self.delivered().last()]);
                fresh.lemma_flatten_one_element();
            } else {
                assert(fresh =~= Seq::<Seq<T>>::empty());
            }
            assert(fresh.flatten() == received_items(received));
        }
        let r = self.step(received, cap);
        proof {
            let all = old(self).pending() + received_items(received);
            let n = if all.len() <= cap { all.len() as int } else { cap as int };
            assert(all.take(n) + all.skip(n) =~= all);
        }
        r
    }
}

} // verus!
