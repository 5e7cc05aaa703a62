use crossbeam_channel::Sender;
use vstd::prelude::*;

use crate::channel::sender::{try_send_chunk, ChunkSender};

verus! {

#[verifier::external_type_specification]
#[verifier::external_body]
#[verifier::reject_recursive_types(T)]
pub struct ExCrossbeamSender<T>(crossbeam_channel::Sender<T>);

/// The chunks that one call offers to the channel for the samples `input`: one chunk of all
/// of them, in order, or none when there are none.
pub open spec fn offered_for<T>(input: Seq<T>) -> Seq<Seq<T>> {
    if input.len() > 0 {
        seq![input]
    } else {
        seq![]
    }
}

/// The chunk to offer for the samples `input`: all of them, in order, or none when there are
/// none.
pub fn chunk_of<T: Copy>(input: &[T]) -> (c: Option<Vec<T>>)
    ensures
        c is Some <==> input@.len() > 0,
        c matches Some(v) ==> v@ == input@,
{
    if input.len() == 0 {
        return None;
    }
    let mut v: Vec<T> = Vec::new();
    let mut i: usize = 0;
    while i < input.len()
        invariant
            i <= input@.len(),
            v@ == input@.take(i as int),
        decreases input@.len() - i,
    {
        v.push(input[i]);
        assert(input@.take(i + 1) =~= input@.take(i as int).push(input@[i as int]));
        i = i + 1;
    }
    assert(input@.take(i as int) =~= input@);
    Some(v)
}

/// Pushes the samples of a stream into a crossbeam channel, one chunk per call.
#[verifier::reject_recursive_types(T)]
pub struct CrossbeamSink<T> {
    channel: ChunkSender<T>,
}

impl<T: Copy> CrossbeamSink<T> {
    /// The sending end of the channel that the sink writes to.
    pub closed spec fn sender(&self) -> Sender<Box<[T]>> {
        self.channel.sender()
    }

    /// The chunks handed to the channel so far, in order, whether or not the channel took
    /// them.
    pub closed spec fn offered(&self) -> Seq<Seq<T>> {
        self.channel.handed()
    }

    /// A sink writing to `sender`, having offered nothing yet.
    pub fn new(sender: Sender<Box<[T]>>) -> (s: Self)
        ensures
            s.sender() == sender,
            s.offered() == Seq::<Seq<T>>::empty(),
    {
        CrossbeamSink { channel: ChunkSender::new(sender) }
    }

    /// Offers all of `input`, if it holds any sample, to the channel as one chunk, without
    /// waiting; a chunk the channel does not take is dropped. Returns the number of samples
    /// taken: all of them, whatever the channel answered.
    pub fn work(&mut self, input: &[T]) -> (consumed: usize)
        ensures
            consumed == input@.len(),
            final(self).sender() == old(self).sender(),
            final(self).offered() == old(self).offered() + offered_for(input@),
            input@.len() > 0 ==> final(self).offered() == old(self).offered().push(input@),
            input@.len() == 0 ==> final(self).offered() == old(self).offered(),
    {
        match chunk_of(input) {
            Some(chunk) => {
                let _sent = try_send_chunk(&mut self.channel, chunk);
            },
            None => {
                assert(old(self).offered() + offered_for(input@) =~= old(self).offered());
            },
        }
        input.len()
    }
}

} // verus!
