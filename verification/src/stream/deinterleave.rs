use vstd::prelude::*;

verus! {

/// Index offset, inside one pair of input items, of the item that goes to the first output.
pub open spec fn offset0(first: bool) -> int {
    if first { 0 } else { 1 }
}

/// How many of `n` items, dealt alternately and starting at the output chosen by `first`,
/// reach the first output.
pub open spec fn count0(first: bool, n: nat) -> nat {
    if first { ((n + 1) / 2) as nat } else { n / 2 }
}

/// How many of `n` items reach the second output.
pub open spec fn count1(first: bool, n: nat) -> nat {
    (n - count0(first, n)) as nat
}

/// Whether the item at index `i` of a dealt stream goes to the first output.
pub open spec fn to_lane0(first: bool, i: int) -> bool {
    (i % 2 == 0) == first
}

/// The items of `s` that reach the first output, in order.
pub open spec fn lane0<A>(first: bool, s: Seq<A>) -> Seq<A> {
    Seq::new(count0(first, s.len()), |k: int| s[2 * k + offset0(first)])
}

/// The items of `s` that reach the second output, in order.
pub open spec fn lane1<A>(first: bool, s: Seq<A>) -> Seq<A> {
    Seq::new(count1(first, s.len()), |k: int| s[2 * k + 1 - offset0(first)])
}

/// The output that the next item goes to, after `n` items were dealt starting from `first`.
pub open spec fn first_after(first: bool, n: nat) -> bool {
    first == (n % 2 == 0)
}

/// Splits one stream into two by dealing its items alternately to the two outputs.
/// Typically used to split an interleaved i/q stream into one stream of `i` and one of `q`.
pub struct Deinterleave<A> {
    first: bool,
    _items: core::marker::PhantomData<A>,
}

/// What one call of [`Deinterleave::work`] hands to the two outputs.
pub struct Deinterleaved<A> {
    /// Number of input items taken.
    pub consumed: usize,
    /// Items for the first output.
    pub out0: Vec<A>,
    /// Items for the second output.
    pub out1: Vec<A>,
}

impl<A: Copy> Deinterleave<A> {
    /// Whether the next input item goes to the first output.
    pub closed spec fn next_is_first(&self) -> bool {
        self.first
    }

    /// A deinterleaver whose first item goes to the first output.
    pub fn new() -> (d: Self)
        ensures
            d.next_is_first(),
    {
        Deinterleave { first: true, _items: core::marker::PhantomData }
    }

    /// Deals items of `input` alternately to the two outputs, as long as the output that is
    /// due has room: `cap0` and `cap1` are the free places of the two outputs.
    pub fn work(&mut self, input: &[A], cap0: usize, cap1: usize) -> (r: Deinterleaved<A>)
        ensures
            r.consumed <= input@.len(),
            r.out0@ == lane0(old(self).next_is_first(), input@.take(r.consumed as int)),
            r.out1@ == lane1(old(self).next_is_first(), input@.take(r.consumed as int)),
            r.out0@.len() <= cap0,
            r.out1@.len() <= cap1,
            r.consumed < input@.len() ==> if to_lane0(old(self).next_is_first(), r.consumed as int) {
                r.out0@.len() == cap0
            } else {
                r.out1@.len() == cap1
            },
            final(self).next_is_first() == first_after(old(self).next_is_first(), r.consumed as nat),
    {
        let ghost first0 = self.first;
        let mut out0: Vec<A> = Vec::new();
        let mut out1: Vec<A> = Vec::new();
        let mut i: usize = 0;
        while i < input.len()
            invariant
                i <= input@.len(),
                out0@ == lane0(first0, input@.take(i as int)),
                out1@ == lane1(first0, input@.take(i as int)),
                out0@.len() <= cap0,
                out1@.len() <= cap1,
                self.first == first_after(first0, i as nat),
            ensures
                i <= input@.len(),
                out0@ == lane0(first0, input@.take(i as int)),
                out1@ == lane1(first0, input@.take(i as int)),
                out0@.len() <= cap0,
                out1@.len() <= cap1,
                self.first == first_after(first0, i as nat),
                i < input@.len() ==> if to_lane0(first0, i as int) {
                    out0@.len() == cap0
                } else {
                    out1@.len() == cap1
                },
            decreases input@.len() - i,
        {
            proof {
                lemma_lanes_push(first0, input@.take(i as int), input@[i as int]);
                assert(input@.take(i as int).push(input@[i as int]) =~= input@.take(i + 1));
            }
            if self.first {
                if out0.len() < cap0 {
                    out0.push(input[i]);
                } else {
                    break;
                }
            } else {
                if out1.len() < cap1 {
                    out1.push(input[i]);
                } else {
                    break;
                }
            }
            self.first = !self.first;
            i = i + 1;
        }
        Deinterleaved { consumed: i, out0, out1 }
    }
}

impl<A: Copy> Default for Deinterleave<A> {
    fn default() -> (d: Self)
        ensures
            d.next_is_first(),
    {
        Self::new()
    }
}

/// Appending one item to a dealt stream appends it to the lane it is due to, and leaves the
/// other lane unchanged.
pub proof fn lemma_lanes_push<A>(first: bool, s: Seq<A>, x: A)
    ensures
        to_lane0(first, s.len() as int) ==> lane0(first, s.push(x)) == lane0(first, s).push(x)
            && lane1(first, s.push(x)) == lane1(first, s),
        !to_lane0(first, s.len() as int) ==> lane1(first, s.push(x)) == lane1(first, s).push(x)
            && lane0(first, s.push(x)) == lane0(first, s),
        to_lane0(first, s.len() as int) == first_after(first, s.len()),
{
    let t = s.push(x);
    if to_lane0(first, s.len() as int) {
        assert(lane0(first, t) =~= lane0(first, s).push(x));
        assert(lane1(first, t) =~= lane1(first, s));
    } else {
        assert(lane1(first, t) =~= lane1(first, s).push(x));
        assert(lane0(first, t) =~= lane0(first, s));
    }
}

/// Dealing in pieces is dealing at once: the lanes of `a + b` are those of `a` followed by
/// those of `b`, dealt from the output due after `a`. So two calls with enough room give what
/// one call on both inputs gives.
pub proof fn lemma_lanes_concat<A>(first: bool, a: Seq<A>, b: Seq<A>)
    ensures
        lane0(first, a + b) == lane0(first, a) + lane0(first_after(first, a.len()), b),
        lane1(first, a + b) == lane1(first, a) + lane1(first_after(first, a.len()), b),
{
    let f2 = first_after(first, a.len());
    let n = a.len();
    let s = a + b;
    let l0 = lane0(first, a) + lane0(f2, b);
    let l1 = lane1(first, a) + lane1(f2, b);
    assert(count0(first, s.len()) == count0(first, n) + count0(f2, b.len()));
    assert(count1(first, s.len()) == count1(first, n) + count1(f2, b.len()));
    assert forall|k: int| 0 <= k < count0(first, s.len()) implies #[trigger] lane0(first, s)[k] == l0[k] by {
        if k < count0(first, n) {
            assert(2 * k + offset0(first) < n);
        } else {
            let k2 = k - count0(first, n);
            assert(2 * k + offset0(first) - n == 2 * k2 + offset0(f2));
        }
    }
    assert forall|k: int| 0 <= k < count1(first, s.len()) implies #[trigger] lane1(first, s)[k] == l1[k] by {
        if k < count1(first, n) {
            assert(2 * k + 1 - offset0(first) < n);
        } else {
            let k2 = k - count1(first, n);
            assert(2 * k + 1 - offset0(first) - n == 2 * k2 + 1 - offset0(f2));
        }
    }
    assert(lane0(first, s) =~= l0);
    assert(lane1(first, s) =~= l1);
}

/// Nothing is lost or reordered: each item of a dealt stream is found in the lane it is due
/// to, at half its index.
pub proof fn lemma_lanes_rebuild<A>(first: bool, s: Seq<A>)
    ensures
        forall|i: int| 0 <= i < s.len() ==> s[i] == if to_lane0(first, i) {
            lane0(first, s)[i / 2]
        } else {
            lane1(first, s)[i / 2]
        },
        lane0(first, s).len() + lane1(first, s).len() == s.len(),
{
    assert forall|i: int| 0 <= i < s.len() implies s[i] == if to_lane0(first, i) {
        lane0(first, s)[i / 2]
    } else {
        lane1(first, s)[i / 2]
    } by {
        if to_lane0(first, i) {
            assert(i / 2 < count0(first, s.len()));
            assert(2 * (i / 2) + offset0(first) == i);
        } else {
            assert(i / 2 < count1(first, s.len()));
            assert(2 * (i / 2) + 1 - offset0(first) == i);
        }
    }
}

} // verus!
