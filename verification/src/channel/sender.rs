use crossbeam_channel::Sender;
use vstd::prelude::*;

verus! {

/// The sending end of a crossbeam channel of sample chunks, with a record of the chunks handed
/// to it, which only a send extends.
#[verifier::reject_recursive_types(T)]
pub struct ChunkSender<T> {
    sender: Sender<Box<[T]>>,
    handed: Ghost<Seq<Seq<T>>>,
}

impl<T> ChunkSender<T> {
    /// The sending end of the channel.
    pub closed spec fn sender(&self) -> Sender<Box<[T]>> {
        self.sender
    }

    /// The chunks handed to the channel through this end, in order, whether or not the
    /// channel took them.
    pub closed spec fn handed(&self) -> Seq<Seq<T>> {
        self.handed@
    }

    /// The end `sender`, having handed nothing yet.
    pub fn new(sender: Sender<Box<[T]>>) -> (c: Self)
        ensures
            c.sender() == sender,
            c.handed() == Seq::<Seq<T>>::empty(),
    {
        ChunkSender { sender, handed: Ghost(Seq::empty()) }
    }
}

/// Calls `crossbeam_channel::Sender::try_send` with the samples of `chunk` as one boxed chunk,
/// which is added to the record of chunks handed, and tells whether the channel took it. That
/// depends on the channel's state, so it is not stated.
#[verifier::external_body]
pub(crate) fn try_send_chunk<T>(channel: &mut ChunkSender<T>, chunk: Vec<T>) -> (sent: bool)
    ensures
        final(channel).sender() == old(channel).sender(),
        final(channel).handed() == old(channel).handed().push(chunk@),
{
    channel.sender.try_send(chunk.into_boxed_slice()).is_ok()
}

} // verus!
