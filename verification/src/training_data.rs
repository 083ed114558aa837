//! Training examples and batches.
//!
//! A batch is an ordered, finite sequence of examples whose gradients are
//! accumulated together and applied as one averaged update. Chunking splits
//! a batch into mini-batches of a given maximum size, preserving order; the
//! model of it is [`chunks_spec`], and [`lemma_chunks_concat`] and
//! [`lemma_chunks_sizes`] state that the chunks concatenate back to the
//! source and that every chunk but a smaller last one is full.

use vstd::prelude::*;
use crate::node::copy_scalars;

verus! {

/// One training example: an input vector sized to the input layer and an
/// expected output vector sized to the last layer. Immutable once built.
#[derive(Debug, Clone)]
pub struct TrainingExample<S> {
    pub inputs: Vec<S>,
    pub expected: Vec<S>,
}

impl<S> View for TrainingExample<S> {
    type V = (Seq<S>, Seq<S>);

    open spec fn view(&self) -> (Seq<S>, Seq<S>) {
        (self.inputs@, self.expected@)
    }
}

impl<S: Copy> TrainingExample<S> {
    pub fn new(inputs: &Vec<S>, expected: &Vec<S>) -> (e: TrainingExample<S>)
        ensures
            e.inputs@ == inputs@,
            e.expected@ == expected@,
    {
        TrainingExample { inputs: copy_scalars(inputs), expected: copy_scalars(expected) }
    }
}

/// An ordered, finite batch of training examples.
#[derive(Debug, Clone)]
pub struct TrainingData<S>(pub Vec<TrainingExample<S>>);

impl<S> View for TrainingData<S> {
    type V = Seq<(Seq<S>, Seq<S>)>;

    open spec fn view(&self) -> Seq<(Seq<S>, Seq<S>)> {
        Seq::new(self.0@.len(), |i: int| self.0@[i]@)
    }
}

/// The chunking of a sequence at a maximum chunk size: full chunks in
/// order, the last chunk holding whatever remains.
pub open spec fn chunks_spec<T>(s: Seq<T>, size: int) -> Seq<Seq<T>>
    decreases s.len(),
{
    if size < 1 || s.len() == 0 {
        Seq::empty()
    } else if s.len() <= size {
        seq![s]
    } else {
        seq![s.subrange(0, size)] + chunks_spec(s.subrange(size, s.len() as int), size)
    }
}

/// The chunks of a sequence concatenate back to it: chunking loses nothing
/// and keeps the order, within and across chunks.
pub proof fn lemma_chunks_concat<T>(s: Seq<T>, size: int)
    requires
        size >= 1,
    ensures
        chunks_spec(s, size).flatten() == s,
    decreases s.len(),
{
    if s.len() == 0 {
        assert(chunks_spec(s, size).flatten() =~= s);
    } else if s.len() <= size {
        assert(chunks_spec(s, size) == seq![s]);
        seq![s].lemma_flatten_one_element();
    } else {
        let head = s.subrange(0, size);
        let tail = s.subrange(size, s.len() as int);
        lemma_chunks_concat(tail, size);
        assert(chunks_spec(s, size) == seq![head] + chunks_spec(tail, size));
        vstd::seq_lib::lemma_flatten_concat(seq![head], chunks_spec(tail, size));
        seq![head].lemma_flatten_one_element();
        assert(head + tail =~= s);
        assert(chunks_spec(s, size).flatten() =~= s);
    }
}

/// Every chunk is full, except that the last may be smaller; none is empty.
pub proof fn lemma_chunks_sizes<T>(s: Seq<T>, size: int)
    requires
        size >= 1,
    ensures
        forall|c: int|
            0 <= c < chunks_spec(s, size).len() ==> {
                let ch = #[trigger] chunks_spec(s, size)[c];
                &&& 0 < ch.len() <= size
                &&& (c < chunks_spec(s, size).len() - 1 ==> ch.len() == size)
            },
    decreases s.len(),
{
    if s.len() > size {
        let head = s.subrange(0, size);
        let tail = s.subrange(size, s.len() as int);
        lemma_chunks_sizes(tail, size);
        let rest = chunks_spec(tail, size);
        assert(rest.len() >= 1);
        assert(chunks_spec(s, size) == seq![head] + rest);
        assert forall|c: int|
            0 <= c < chunks_spec(s, size).len() implies {
            let ch = #[trigger] chunks_spec(s, size)[c];
            &&& 0 < ch.len() <= size
            &&& (c < chunks_spec(s, size).len() - 1 ==> ch.len() == size)
        } by {
            if c >= 1 {
                assert(chunks_spec(s, size)[c] == rest[c - 1]);
            }
        }
    }
}

impl<S: Copy> TrainingData<S> {
    /// Splits the batch into mini-batches of at most `size` examples,
    /// preserving order and leaving the batch itself untouched; the last
    /// chunk may be smaller. A maximum size of zero yields no chunking at
    /// all, so it is ruled out.
    #[verifier::loop_isolation(false)]
    pub fn chunks(&self, size: usize) -> (r: Vec<TrainingData<S>>)
        requires
            size > 0,
        ensures
            r@.len() == chunks_spec(self@, size as int).len(),
            forall|c: int|
                0 <= c < r@.len() ==> (#[trigger] r@[c])@ == chunks_spec(self@, size as int)[c],
    {
        let mut r: Vec<TrainingData<S>> = Vec::new();
        let mut i: usize = 0;
        proof {
            assert(self@.subrange(0, self@.len() as int) =~= self@);
        }
        while i < self.0.len()
            invariant
                i <= self.0@.len(),
                i < self.0@.len() ==> Seq::new(r@.len(), |c: int| r@[c]@) + chunks_spec(
                    self@.subrange(i as int, self@.len() as int),
                    size as int,
                ) =~= chunks_spec(self@, size as int),
                i == self.0@.len() ==> Seq::new(r@.len(), |c: int| r@[c]@) =~= chunks_spec(
                    self@,
                    size as int,
                ),
            decreases self.0@.len() - i,
        {
            let remaining = self.0.len() - i;
            let end = if remaining <= size {
                self.0.len()
            } else {
                i + size
            };
            let mut chunk: Vec<TrainingExample<S>> = Vec::new();
            let mut j = i;
            while j < end
                invariant
                    i <= j <= end <= self.0@.len(),
                    chunk@.len() == j - i,
                    forall|k: int| 0 <= k < chunk@.len() ==> #[trigger] chunk@[k]@ == self.0@[i + k]@,
                decreases end - j,
            {
                let e = &self.0[j];
                chunk.push(TrainingExample::new(&e.inputs, &e.expected));
                j += 1;
            }
            let ghost old_r = r@;
            let ghost old_i = i as int;
            let data = TrainingData(chunk);
            proof {
                assert(data@ =~= self@.subrange(old_i, end as int));
            }
            r.push(data);
            i = end;
            proof {
                let whole = chunks_spec(self@, size as int);
                let before = self@.subrange(old_i, self@.len() as int);
                if end < self.0@.len() {
                    assert(before.subrange(size as int, before.len() as int) =~= self@.subrange(
                        i as int,
                        self@.len() as int,
                    ));
                    assert(before.subrange(0, size as int) =~= self@.subrange(old_i, end as int));
                    assert(Seq::new(r@.len(), |c: int| r@[c]@) =~= Seq::new(
                        old_r.len(),
                        |c: int| old_r[c]@,
                    ) + seq![self@.subrange(old_i, end as int)]);
                } else {
                    assert(before.len() <= size as int);
                    assert(chunks_spec(before, size as int) == seq![before]);
                    assert(Seq::new(r@.len(), |c: int| r@[c]@) =~= Seq::new(
                        old_r.len(),
                        |c: int| old_r[c]@,
                    ) + seq![before]);
                }
            }
        }
        proof {
            if self.0@.len() == 0 {
                assert(Seq::new(r@.len(), |c: int| r@[c]@) =~= chunks_spec(self@, size as int));
            }
            assert forall|c: int| 0 <= c < r@.len() implies (#[trigger] r@[c])@ == chunks_spec(
                self@,
                size as int,
            )[c] by {
                assert(Seq::new(r@.len(), |cc: int| r@[cc]@)[c] == r@[c]@);
            }
        }
        r
    }
}

} // verus!
