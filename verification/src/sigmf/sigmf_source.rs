use vstd::prelude::*;

verus! {

/// Whether an annotation is taken out while reading the window of `n` samples that begins at
/// sample `start`: one without a start sample always is; one with a start sample is when that
/// sample lies in the window.
pub open spec fn taken(a: Option<usize>, start: int, n: int) -> bool {
    match a {
        Some(s) => start <= s < start + n,
        None => true,
    }
}

/// The tags for the annotations `starts` that have a start sample, in order: each as its
/// position in `starts` and the offset of its start sample from sample `start`.
pub open spec fn window_tags(starts: Seq<Option<usize>>, start: int) -> Seq<(usize, usize)>
    decreases starts.len(),
{
    if starts.len() == 0 {
        seq![]
    } else {
        let t = window_tags(starts.drop_last(), start);
        match starts.last() {
            Some(s) => t.push(((starts.len() - 1) as usize, (s - start) as usize)),
            None => t,
        }
    }
}

/// The tags of the annotations `starts`, all starting at or after sample `start`, are exactly
/// one per annotation that has a start sample: each such annotation `j`, starting at sample
/// `s`, gives the tag `(j, s - start)`; every tag is of that form; and tags come in the order of
/// the annotations, each once.
pub proof fn lemma_window_tags(starts: Seq<Option<usize>>, start: int)
    requires
        0 <= start,
        starts.len() <= usize::MAX,
        forall|j: int| 0 <= j < starts.len() && #[trigger] starts[j] is Some ==> start <= starts[j]->0,
    ensures
        forall|j: int| 0 <= j < starts.len() && #[trigger] starts[j] is Some ==> exists|k: int|
            0 <= k < window_tags(starts, start).len()
                && #[trigger] window_tags(starts, start)[k] == (j as usize, (starts[j]->0 - start) as usize),
        forall|k: int| 0 <= k < window_tags(starts, start).len() ==> {
            let t = #[trigger] window_tags(starts, start)[k];
            &&& t.0 < starts.len()
            &&& starts[t.0 as int] == Some((start + t.1) as usize)
        },
        forall|a: int, b: int| 0 <= a < b < window_tags(starts, start).len()
            ==> #[trigger] window_tags(starts, start)[a].0 < #[trigger] window_tags(starts, start)[b].0,
    decreases starts.len(),
{
    if starts.len() > 0 {
        let prev = starts.drop_last();
        assert forall|j: int| 0 <= j < prev.len() && #[trigger] prev[j] is Some implies start <= prev[j]->0 by {
            assert(prev[j] == starts[j]);
        }
        lemma_window_tags(prev, start);
        let t = window_tags(prev, start);
        let w = window_tags(starts, start);
        let last = starts.len() - 1;
        assert forall|j: int| 0 <= j < starts.len() && #[trigger] starts[j] is Some implies exists|k: int|
            0 <= k < w.len() && #[trigger] w[k] == (j as usize, (starts[j]->0 - start) as usize) by {
            if j < last {
                assert(prev[j] == starts[j]);
                let k = choose|k: int| 0 <= k < t.len() && #[trigger] t[k] == (j as usize, (prev[j]->0 - start) as usize);
                assert(w[k] == t[k]);
            } else {
                assert(w[t.len() as int] == (j as usize, (starts[j]->0 - start) as usize));
            }
        }
        assert forall|k: int| 0 <= k < w.len() implies {
            let tk = #[trigger] w[k];
            &&& tk.0 < starts.len()
            &&& starts[tk.0 as int] == Some((start + tk.1) as usize)
        } by {
            if k < t.len() {
                assert(w[k] == t[k]);
                assert(prev[t[k].0 as int] == starts[t[k].0 as int]);
            }
        }
        assert forall|a: int, b: int| 0 <= a < b < w.len() implies #[trigger] w[a].0 < #[trigger] w[b].0 by {
            assert(w[a] == t[a]);
            if b < t.len() {
                assert(w[b] == t[b]);
            } else {
                assert(t[a].0 < prev.len());
            }
        }
    }
}

/// Where the annotations at the front of a recording's list go after a read.
pub struct AnnotationTags {
    /// How many annotations leave the front of the list.
    pub removed: usize,
    /// For each annotation to be written as a tag: its position in the list and the offset in
    /// the samples just read.
    pub tags: Vec<(usize, usize)>,
}

/// For annotations with the start samples `starts`, ordered as in the recording, and a read of
/// `n_read` samples beginning at sample `sample_index`: takes annotations from the front of the
/// list while each either has no start sample, and is dropped, or starts inside the samples
/// read, and becomes a tag there; stops at the first that starts elsewhere.
pub fn annotation_tags(starts: &[Option<usize>], sample_index: usize, n_read: usize) -> (r: AnnotationTags)
    requires
        sample_index + n_read <= usize::MAX,
    ensures
        r.removed <= starts@.len(),
        forall|j: int| 0 <= j < r.removed ==> taken(#[trigger] starts@[j], sample_index as int, n_read as int),
        r.removed < starts@.len() ==> !taken(starts@[r.removed as int], sample_index as int, n_read as int),
        r.tags@ == window_tags(starts@.take(r.removed as int), sample_index as int),
        forall|j: int| 0 <= j < r.removed && #[trigger] starts@[j] is Some ==> exists|k: int|
            0 <= k < r.tags@.len() && #[trigger] r.tags@[k] == (j as usize, (starts@[j]->0 - sample_index) as usize),
        forall|k: int| 0 <= k < r.tags@.len() ==> {
            let t = #[trigger] r.tags@[k];
            &&& t.0 < r.removed
            &&& sample_index <= sample_index + t.1 < sample_index + n_read
            &&& starts@[t.0 as int] == Some((sample_index + t.1) as usize)
        },
        forall|a: int, b: int| 0 <= a < b < r.tags@.len() ==> #[trigger] r.tags@[a].0 < #[trigger] r.tags@[b].0,
{
    let upper = sample_index + n_read;
    let mut tags: Vec<(usize, usize)> = Vec::new();
    let mut k: usize = 0;
    while k < starts.len()
        invariant
            k <= starts@.len(),
            upper == sample_index + n_read,
            forall|j: int| 0 <= j < k ==> taken(#[trigger] starts@[j], sample_index as int, n_read as int),
            tags@ == window_tags(starts@.take(k as int), sample_index as int),
        ensures
            k <= starts@.len(),
            forall|j: int| 0 <= j < k ==> taken(#[trigger] starts@[j], sample_index as int, n_read as int),
            tags@ == window_tags(starts@.take(k as int), sample_index as int),
            k < starts@.len() ==> !taken(starts@[k as int], sample_index as int, n_read as int),
        decreases starts@.len() - k,
    {
        assert(starts@.take(k + 1).drop_last() =~= starts@.take(k as int));
        match starts[k] {
            Some(s) => {
                if sample_index <= s && s < upper {
                    tags.push((k, s - sample_index));
                } else {
                    break;
                }
            },
            None => {},
        }
        k = k + 1;
    }
    proof {
        let pre = starts@.take(k as int);
        assert forall|j: int| 0 <= j < pre.len() && #[trigger] pre[j] is Some implies sample_index <= pre[j]->0 by {
            assert(pre[j] == starts@[j]);
            assert(taken(starts@[j], sample_index as int, n_read as int));
        }
        lemma_window_tags(pre, sample_index as int);
        assert forall|j: int| 0 <= j < k && #[trigger] starts@[j] is Some implies exists|i: int|
            0 <= i < tags@.len() && #[trigger] tags@[i] == (j as usize, (starts@[j]->0 - sample_index) as usize) by {
            assert(pre[j] == starts@[j]);
            let i = choose|i: int| 0 <= i < tags@.len() && #[trigger] tags@[i] == (j as usize, (pre[j]->0 - sample_index) as usize);
            assert(tags@[i] == (j as usize, (starts@[j]->0 - sample_index) as usize));
        }
        assert forall|i: int| 0 <= i < tags@.len() implies {
            let t = #[trigger] tags@[i];
            &&& t.0 < k
            &&& sample_index <= sample_index + t.1 < sample_index + n_read
            &&& starts@[t.0 as int] == Some((sample_index + t.1) as usize)
        } by {
            let t = tags@[i];
            assert(pre[t.0 as int] == starts@[t.0 as int]);
            assert(taken(starts@[t.0 as int], sample_index as int, n_read as int));
        }
    }
    let r = AnnotationTags { removed: k, tags };
    assert(r.tags@ == tags@);
    r
}

} // verus!
