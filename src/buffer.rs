use std::collections::VecDeque;
use vstd::prelude::*;

verus! {

/// The last `cap` elements of `s`, or all of `s` when it is not longer than `cap`.
pub open spec fn keep_latest<T>(s: Seq<T>, cap: nat) -> Seq<T> {
    if s.len() <= cap {
        s
    } else {
        s.subrange(s.len() - cap, s.len() as int)
    }
}

/// Everything pushed, oldest batch first.
pub open spec fn history<T>(batches: Seq<Seq<T>>) -> Seq<T>
    decreases batches.len(),
{
    if batches.len() == 0 {
        Seq::empty()
    } else {
        history(batches.drop_last()) + batches.last()
    }
}

/// Contents of a buffer of capacity `cap`, created empty, after pushing each
/// of `batches` in turn.
pub open spec fn replay<T>(cap: nat, batches: Seq<Seq<T>>) -> Seq<T>
    decreases batches.len(),
{
    if batches.len() == 0 {
        Seq::empty()
    } else {
        keep_latest(replay(cap, batches.drop_last()) + batches.last(), cap)
    }
}

/// Trimming to the latest `cap` before appending changes nothing once the
/// result is trimmed again.
proof fn lemma_keep_latest_absorbs<T>(a: Seq<T>, b: Seq<T>, cap: nat)
    ensures
        keep_latest(keep_latest(a, cap) + b, cap) == keep_latest(a + b, cap),
{
    let k = keep_latest(a, cap);
    if a.len() > cap {
        let ab = a + b;
        let kb = k + b;
        if kb.len() <= cap {
            assert(b.len() == 0 || cap >= kb.len());
            assert(kb =~= ab.subrange(ab.len() - cap, ab.len() as int)) by {
                assert(b.len() == 0);
            }
        } else {
            assert(kb.subrange(kb.len() - cap, kb.len() as int) =~= ab.subrange(ab.len() - cap, ab.len() as int));
        }
    }
}

/// Whatever is pushed, a buffer never holds more than its capacity, and what
/// it holds is exactly the latest part of everything pushed so far, in the
/// order pushed: the last `cap` samples of the history, or all of it while
/// it is shorter.
pub proof fn pushes_keep_latest_history<T>(cap: nat, batches: Seq<Seq<T>>)
    ensures
        replay(cap, batches).len() <= cap,
        replay(cap, batches) == keep_latest(history(batches), cap),
        replay(cap, batches) == history(batches).subrange(
            history(batches).len() - replay(cap, batches).len(),
            history(batches).len() as int,
        ),
    decreases batches.len(),
{
    let h = history(batches);
    if batches.len() > 0 {
        pushes_keep_latest_history(cap, batches.drop_last());
        lemma_keep_latest_absorbs(history(batches.drop_last()), batches.last(), cap);
    }
    assert(h.subrange(0, h.len() as int) =~= h);
}

/// A snapshot of the latest `n` samples is available exactly when `n` is at
/// most the capacity and at most the number of samples ever pushed; it then
/// holds the `n` most recently pushed samples, in the order pushed, however
/// the pushes were split into batches.
pub proof fn snapshot_is_latest_pushed<T>(cap: nat, batches: Seq<Seq<T>>, n: nat)
    ensures
        n <= replay(cap, batches).len() <==> (n <= cap && n <= history(batches).len()),
        n <= replay(cap, batches).len() ==> replay(cap, batches).subrange(
            replay(cap, batches).len() - n,
            replay(cap, batches).len() as int,
        ) == history(batches).subrange(history(batches).len() - n, history(batches).len() as int),
{
    pushes_keep_latest_history(cap, batches);
    let r = replay(cap, batches);
    let h = history(batches);
    if n <= r.len() {
        assert(r.subrange(r.len() - n, r.len() as int) =~= h.subrange(h.len() - n, h.len() as int));
    }
}

/// Bounded, chronologically ordered history of mono samples.
///
/// Appending never lets the length exceed the capacity: the oldest samples
/// are evicted first.
pub struct SampleBuffer<T> {
    samples: VecDeque<T>,
    capacity: usize,
}

impl<T> View for SampleBuffer<T> {
    type V = Seq<T>;

    closed spec fn view(&self) -> Seq<T> {
        self.samples@
    }
}

impl<T: Copy> SampleBuffer<T> {
    pub closed spec fn spec_capacity(&self) -> nat {
        self.capacity as nat
    }

    pub closed spec fn wf(&self) -> bool {
        self.samples@.len() <= self.capacity
    }

    /// An empty history that keeps at most `capacity` samples.
    pub fn new(capacity: usize) -> (r: Self)
        ensures
            r.wf(),
            r@ == Seq::<T>::empty(),
            r.spec_capacity() == capacity,
    {
        SampleBuffer { samples: VecDeque::with_capacity(capacity), capacity }
    }

    pub fn capacity(&self) -> (r: usize)
        ensures
            r == self.spec_capacity(),
    {
        self.capacity
    }

    pub fn len(&self) -> (r: usize)
        ensures
            r == self@.len(),
    {
        self.samples.len()
    }

    pub fn is_empty(&self) -> (r: bool)
        ensures
            r == (self@.len() == 0),
    {
        self.samples.len() == 0
    }

    /// Drops the oldest samples until the length is within capacity.
    fn evict_overflow(&mut self)
        ensures
            final(self).wf(),
            final(self)@ == keep_latest(old(self)@, old(self).spec_capacity()),
            final(self).spec_capacity() == old(self).spec_capacity(),
    {
        let ghost start = self.samples@;
        while self.samples.len() > self.capacity
            invariant
                self.capacity == old(self).capacity,
                start == old(self)@,
                start.len() >= self.samples@.len(),
                self.samples@ == start.subrange(start.len() - self.samples@.len(), start.len() as int),
                self.samples@.len() >= self.capacity || start.len() == self.samples@.len(),
            decreases self.samples@.len(),
        {
            self.samples.pop_front();
        }
        assert(self.samples@ =~= keep_latest(start, self.capacity as nat));
    }

    /// Appends mono samples in order, then evicts from the front until the
    /// length is within capacity.
    pub fn push(&mut self, mono: &[T])
        requires
            old(self).wf(),
        ensures
            final(self).wf(),
            final(self)@ == keep_latest(old(self)@ + mono@, old(self).spec_capacity()),
            final(self).spec_capacity() == old(self).spec_capacity(),
    {
        let ghost start = self.samples@;
        let mut i: usize = 0;
        while i < mono.len()
            invariant
                self.capacity == old(self).capacity,
                start == old(self)@,
                i <= mono@.len(),
                self.samples@ == start + mono@.subrange(0, i as int),
            decreases mono@.len() - i,
        {
            self.samples.push_back(mono[i]);
            i = i + 1;
            assert(self.samples@ =~= start + mono@.subrange(0, i as int));
        }
        assert(mono@.subrange(0, i as int) =~= mono@);
        self.evict_overflow();
    }

    /// The most recent `n` samples in chronological order, or `None` when
    /// fewer than `n` are held. The history is left unchanged.
    pub fn snapshot_latest(&self, n: usize) -> (r: Option<Vec<T>>)
        ensures
            r is None <==> n > self@.len(),
            r matches Some(v) ==> v@ == self@.subrange(self@.len() - n, self@.len() as int),
    {
        let len = self.samples.len();
        if n > len {
            return None;
        }
        let first = len - n;
        let mut out: Vec<T> = Vec::with_capacity(n);
        let mut i: usize = first;
        while i < len
            invariant
                len == self@.len(),
                first == len - n,
                first <= i <= len,
                out@ == self@.subrange(first as int, i as int),
            decreases len - i,
        {
            out.push(self.samples[i]);
            i = i + 1;
            assert(out@ =~= self@.subrange(first as int, i as int));
        }
        Some(out)
    }
}

} // verus!
