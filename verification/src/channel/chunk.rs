use vstd::prelude::*;

verus! {

/// What an attempt to take a chunk of samples from a channel found.
pub enum Received<T> {
    /// A chunk of samples.
    Data(Vec<T>),
    /// No chunk was waiting.
    Empty,
    /// No chunk was waiting and none will come.
    Closed,
}

/// The samples that a receive attempt brought: those of the chunk, if one came.
pub open spec fn received_items<T>(r: Option<Received<T>>) -> Seq<T> {
    match r {
        Some(Received::Data(d)) => d@,
        _ => Seq::empty(),
    }
}

/// The chunks a channel has yielded, after the receive attempt that found `r`: one more where
/// `r` is a chunk.
pub open spec fn with_received<T>(log: Seq<Seq<T>>, r: Received<T>) -> Seq<Seq<T>> {
    match r {
        Received::Data(d) => log.push(d@),
        _ => log,
    }
}

/// One call of a channel source, given the samples waiting `pending`, the samples `got` of the
/// chunk received, if any, and `cap` free output places: the samples handed out, and those
/// kept. As many as fit are handed out, in order, waiting ones first.
pub open spec fn source_step<T>(pending: Seq<T>, got: Seq<T>, cap: nat) -> (Seq<T>, Seq<T>) {
    let all = pending + got;
    let n = if all.len() <= cap { all.len() as int } else { cap as int };
    (all.take(n), all.skip(n))
}

/// Calls of a channel source one after the other, with the chunks `gots` received (empty where
/// none came) and the free places `caps`: all samples handed out, in order, and those kept at
/// the end.
pub open spec fn source_run<T>(pending: Seq<T>, gots: Seq<Seq<T>>, caps: Seq<nat>) -> (Seq<T>, Seq<T>)
    decreases gots.len(),
{
    if gots.len() == 0 || caps.len() == 0 {
        (seq![], pending)
    } else {
        let s = source_step(pending, gots[0], caps[0]);
        let r = source_run(s.1, gots.drop_first(), caps.drop_first());
        (s.0 + r.0, r.1)
    }
}

/// Over any number of calls, samples are neither lost, repeated nor reordered: those handed
/// out, then those still kept, are those that waited at first, then those of every chunk
/// received, in the order received.
pub proof fn lemma_source_run<T>(pending: Seq<T>, gots: Seq<Seq<T>>, caps: Seq<nat>)
    requires
        caps.len() == gots.len(),
    ensures
        source_run(pending, gots, caps).0 + source_run(pending, gots, caps).1 == pending + gots.flatten(),
    decreases gots.len(),
{
    if gots.len() == 0 {
        assert(gots.flatten() =~= Seq::<T>::empty());
        assert(Seq::<T>::empty() + pending =~= pending + Seq::<T>::empty());
    } else {
        let s = source_step(pending, gots[0], caps[0]);
        let all = pending + gots[0];
        assert(s.0 + s.1 =~= all);
        lemma_source_run(s.1, gots.drop_first(), caps.drop_first());
        let r = source_run(s.1, gots.drop_first(), caps.drop_first());
        assert(gots.flatten() == gots[0] + gots.drop_first().flatten());
        assert((s.0 + r.0) + r.1 =~= s.0 + (r.0 + r.1));
        assert(pending + (gots[0] + gots.drop_first().flatten()) =~= (pending + gots[0]) + gots.drop_first().flatten());
        assert(s.0 + (s.1 + gots.drop_first().flatten()) =~= (s.0 + s.1) + gots.drop_first().flatten());
    }
}

/// Conservation over calls of a channel source. If the samples handed out so far, then those
/// still waiting, are the chunks the channel has yielded so far, concatenated, and one more
/// call hands out `items` and keeps `pending2` while the channel's yield grows from
/// `delivered` to `delivered2`, taking out exactly what waited and what the new chunks hold,
/// then the samples handed out, then those waiting, are still all the chunks yielded. From a
/// fresh source (nothing handed out, waiting or yielded), by induction over calls: no sample
/// of a chunk is lost, repeated or reordered.
pub proof fn lemma_source_conservation<T>(
    out: Seq<T>,
    pending: Seq<T>,
    delivered: Seq<Seq<T>>,
    items: Seq<T>,
    pending2: Seq<T>,
    delivered2: Seq<Seq<T>>,
)
    requires
        out + pending == delivered.flatten(),
        delivered.len() <= delivered2.len(),
        delivered2.take(delivered.len() as int) == delivered,
        items + pending2 == pending + delivered2.skip(delivered.len() as int).flatten(),
    ensures
        (out + items) + pending2 == delivered2.flatten(),
{
    let fresh = delivered2.skip(delivered.len() as int);
    assert(delivered + fresh =~= delivered2);
    vstd::seq_lib::lemma_flatten_concat(delivered, fresh);
    assert((out + items) + pending2 =~= out + (items + pending2));
    assert(out + (pending + fresh.flatten()) =~= (out + pending) + fresh.flatten());
}

/// What one call of a channel source hands to its output.
pub struct SourceOutput<T> {
    /// Samples for the output, in order.
    pub items: Vec<T>,
    /// Whether the source wants to be called again at once, having no samples left over.
    pub call_again: bool,
    /// Whether the channel is closed and the source is done.
    pub finished: bool,
}

/// A chunk of samples taken from a channel, of which part may still be waiting for room in the
/// output.
pub struct PendingChunk<T> {
    current: Option<(Vec<T>, usize)>,
}

impl<T> PendingChunk<T> {
    /// A chunk is kept only while some of its samples are still to be handed out.
    #[verifier::type_invariant]
    closed spec fn inv(self) -> bool {
        match self.current {
            Some((d, i)) => i < d@.len(),
            None => true,
        }
    }
}

impl<T: Copy> PendingChunk<T> {
    /// The samples still to be handed out, in order.
    pub closed spec fn items(&self) -> Seq<T> {
        match self.current {
            Some((d, i)) => d@.skip(i as int),
            None => Seq::empty(),
        }
    }

    /// No samples waiting.
    pub fn new() -> (p: Self)
        ensures
            p.items() == Seq::<T>::empty(),
    {
        PendingChunk { current: None }
    }

    /// Whether no samples are waiting, so that a new chunk is to be taken from the channel.
    pub fn is_empty(&self) -> (b: bool)
        ensures
            b == (self.items().len() == 0),
    {
        proof { use_type_invariant(self); }
        self.current.is_none()
    }

    /// Hands out the waiting samples, or those of the chunk just received, as far as `cap`
    /// free output places allow, and keeps the rest. `received` is the outcome of the receive
    /// attempt, which is made exactly when no samples are waiting.
    pub fn step(&mut self, received: Option<Received<T>>, cap: usize) -> (r: SourceOutput<T>)
        requires
            cap > 0,
            received is Some <==> old(self).items().len() == 0,
        ensures
            (r.items@, final(self).items()) == source_step(old(self).items(), received_items(received), cap as nat),
            r.call_again == (final(self).items().len() == 0),
            r.finished == (received matches Some(Received::Closed)),
            r.items@ + final(self).items() == old(self).items() + received_items(received),
    {
        proof { use_type_invariant(&*self); }
        let ghost before = self.items();
        let mut finished = false;
        let mut cur: Option<(Vec<T>, usize)> = None;
        std::mem::swap(&mut cur, &mut self.current);
        match received {
            Some(Received::Data(d)) => {
                assert(before.len() == 0);
                cur = Some((d, 0));
            },
            Some(Received::Empty) => {},
            Some(Received::Closed) => {
                finished = true;
            },
            None => {},
        }
        let ghost all = before + received_items(received);
        let mut items: Vec<T> = Vec::new();
        match cur {
            Some((data, index)) => {
                assert(data@.skip(index as int) =~= all) by {
                    if received is Some {
                        assert(before =~= Seq::<T>::empty());
                        assert(data@.skip(0) =~= data@);
                    } else {
                        assert(received_items(received) =~= Seq::<T>::empty());
                    }
                }
                let avail = data.len() - index;
                let n = if avail <= cap { avail } else { cap };
                let mut j: usize = 0;
                while j < n
                    invariant
                        j <= n,
                        index + n <= data@.len(),
                        data@.len() <= usize::MAX,
                        items@ == data@.subrange(index as int, index + j),
                    decreases n - j,
                {
                    items.push(data[index + j]);
                    assert(data@.subrange(index as int, index + j + 1) =~= data@.subrange(index as int, index + j).push(data@[index + j]));
                    j = j + 1;
                }
                assert(items@ =~= all.take(n as int));
                if index + n < data.len() {
                    assert(data@.skip(index + n) =~= all.skip(n as int));
                    self.current = Some((data, index + n));
                } else {
                    assert(all.skip(n as int) =~= Seq::<T>::empty());
                }
            },
            None => {
                assert(all =~= Seq::<T>::empty());
                assert(items@ =~= all.take(0));
            },
        }
        proof {
            let n = if all.len() <= cap { all.len() as int } else { cap as int };
            assert(all.take(n) + all.skip(n) =~= all);
        }
        SourceOutput { items, call_again: self.current.is_none(), finished }
    }
}

} // verus!
