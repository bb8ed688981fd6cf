use vstd::prelude::*;

verus! {

/// The last `n` items of `s` (all of `s` when it holds no more than `n`).
pub open spec fn keep_last<T>(s: Seq<T>, n: nat) -> Seq<T> {
    if s.len() <= n {
        s
    } else {
        s.subrange(s.len() - n, s.len() as int)
    }
}

/// Fixed-capacity circular buffer for oscilloscope sample storage.
/// One buffer per channel. Storage is reserved on creation, so pushing never
/// allocates beyond it.
///
/// Its contents, oldest first, are its view: pushing appends and, once
/// `capacity` items are held, drops the oldest.
pub struct RingBuffer<T> {
    data: Vec<T>,
    capacity: usize,
    write_pos: usize,
    count: usize,
}

impl<T> RingBuffer<T> {
    /// Physical slot of the first (oldest) item.
    spec fn start(&self) -> nat {
        if self.count < self.capacity {
            0
        } else {
            self.write_pos as nat
        }
    }

    /// Physical slot of logical position `i`, for `i < capacity`.
    spec fn slot(&self, i: int) -> int {
        if self.start() + i < self.capacity {
            self.start() + i
        } else {
            self.start() + i - self.capacity
        }
    }

    #[verifier::type_invariant]
    spec fn wf(&self) -> bool {
        &&& self.data.len() <= self.capacity
        &&& self.count <= self.capacity
        &&& self.write_pos <= self.data.len()
        &&& self.count < self.capacity ==> self.write_pos == self.count
        &&& self.count == self.capacity ==> self.data.len() == self.capacity
        &&& self.capacity > 0 ==> self.write_pos < self.capacity
    }

    /// The number of items the buffer holds at most.
    pub closed spec fn spec_capacity(&self) -> nat {
        self.capacity as nat
    }

    proof fn lemma_slot_in_range(&self, i: int)
        requires
            self.wf(),
            0 <= i < self.count,
        ensures
            0 <= self.slot(i) < self.data.len(),
    {
    }
}

impl<T> View for RingBuffer<T> {
    type V = Seq<T>;

    closed spec fn view(&self) -> Seq<T> {
        Seq::new(self.count as nat, |i: int| self.data@[self.slot(i)])
    }
}

/// A sequence that fits is kept whole.
pub proof fn lemma_keep_last_of_fitting<T>(s: Seq<T>, n: nat)
    requires
        s.len() <= n,
    ensures
        keep_last(s, n) == s,
{
}

/// Trimming to the last `n` items before or after an append gives the same
/// result: the buffer never needs to remember more than `n` items.
pub proof fn lemma_keep_last_push<T>(s: Seq<T>, x: T, n: nat)
    requires
        n > 0,
    ensures
        keep_last(keep_last(s, n).push(x), n) == keep_last(s.push(x), n),
{
    let k = keep_last(s, n);
    if s.len() <= n {
    } else {
        assert(keep_last(k.push(x), n) =~= keep_last(s.push(x), n));
    }
}

/// After a push the newest sample is the one pushed, the others keep their
/// order, and the buffer grows by one until it is full.
pub proof fn lemma_push_newest<T>(s: Seq<T>, x: T, n: nat)
    requires
        n > 0,
        s.len() <= n,
    ensures
        keep_last(s.push(x), n).last() == x,
        keep_last(s.push(x), n).len() == (if s.len() < n {
            s.len() + 1
        } else {
            n
        }),
        forall|i: int|
            0 <= i < keep_last(s.push(x), n).len() - 1 ==> #[trigger] keep_last(s.push(x), n)[i]
                == s[i + s.len() + 1 - keep_last(s.push(x), n).len()],
{
}

/// Index `start + idx` taken modulo `cap`, without overflow, for `start < cap`
/// and `idx < cap`.
fn wrap_add(start: usize, idx: usize, cap: usize) -> (r: usize)
    requires
        start < cap,
        idx < cap,
    ensures
        r == (start + idx) % (cap as int),
        r == (if start + idx < cap { start + idx } else { start + idx - cap }),
{
    proof {
        if start + idx < cap {
            vstd::arithmetic::div_mod::lemma_fundamental_div_mod_converse(
                start + idx,
                cap as int,
                0,
                start + idx,
            );
        } else {
            vstd::arithmetic::div_mod::lemma_fundamental_div_mod_converse(
                start + idx,
                cap as int,
                1,
                start + idx - cap,
            );
        }
    }
    if idx < cap - start {
        start + idx
    } else {
        idx - (cap - start)
    }
}

impl<T: Copy> RingBuffer<T> {
    /// An empty buffer that holds at most `capacity` samples.
    pub fn new(capacity: usize) -> (rb: Self)
        ensures
            rb@ == Seq::<T>::empty(),
            rb.spec_capacity() == capacity,
    {
        RingBuffer { data: Vec::with_capacity(capacity), capacity, write_pos: 0, count: 0 }
    }

    /// Appends `sample`; when the buffer is full the oldest sample is dropped.
    pub fn push(&mut self, sample: T)
        requires
            old(self).spec_capacity() > 0,
        ensures
            final(self).spec_capacity() == old(self).spec_capacity(),
            final(self)@ == keep_last(old(self)@.push(sample), old(self).spec_capacity()),
            final(self)@.last() == sample,
            final(self)@.len() == (if old(self)@.len() < old(self).spec_capacity() {
                old(self)@.len() + 1
            } else {
                old(self).spec_capacity()
            }),
            forall|i: int|
                0 <= i < final(self)@.len() - 1 ==> #[trigger] final(self)@[i] == old(self)@[i
                    + old(self)@.len() + 1 - final(self)@.len()],
    {
        proof {
            use_type_invariant(&*self);
            lemma_push_newest(self@, sample, self.spec_capacity());
        }
        let ghost old_view = self@;
        let ghost old_self = *self;
        // Take the buffer apart, update its fields, and put it back together,
        // so that its invariant only needs to hold of the result.
        let mut taken = RingBuffer::<T>::new(0);
        std::mem::swap(self, &mut taken);
        let RingBuffer { mut data, capacity, write_pos, count } = taken;
        if write_pos < data.len() {
            data.set(write_pos, sample);
        } else {
            data.push(sample);
        }
        let next: usize = if write_pos + 1 < capacity {
            write_pos + 1
        } else {
            0
        };
        proof {
            if write_pos + 1 < capacity {
                vstd::arithmetic::div_mod::lemma_small_mod((write_pos + 1) as nat, capacity as nat);
            } else {
                vstd::arithmetic::div_mod::lemma_mod_self_0(capacity as int);
            }
        }
        let new_count: usize = if count < capacity {
            count + 1
        } else {
            count
        };
        *self = RingBuffer { data, capacity, write_pos: next, count: new_count };
        proof {
            let new_view = self@;
            let expected = keep_last(old_view.push(sample), old_self.capacity as nat);
            if old_self.count < old_self.capacity {
                assert(new_view.len() == expected.len());
                assert forall|i: int| 0 <= i < new_view.len() implies new_view[i] == expected[i] by {
                    assert(self.slot(i) == i);
                    if i < old_self.count {
                        assert(old_self.slot(i) == i);
                    }
                }
                assert(new_view =~= expected);
            } else {
                let cap: int = old_self.capacity as int;
                let wp: int = old_self.write_pos as int;
                assert(expected.len() == cap);
                assert forall|i: int| 0 <= i < cap implies new_view[i] == expected[i] by {
                    if i < cap - 1 {
                        assert(expected[i] == old_view[i + 1]);
                        assert(old_view[i + 1] == old_self.data@[old_self.slot(i + 1)]);
                        assert(self.slot(i) == old_self.slot(i + 1));
                        assert(self.slot(i) != wp);
                    } else {
                        assert(self.slot(i) == wp);
                    }
                }
                assert(new_view =~= expected);
            }
        }
    }

    /// Appends each sample of `samples` in order.
    pub fn push_slice(&mut self, samples: &[T])
        requires
            old(self).spec_capacity() > 0 || samples@.len() == 0,
        ensures
            final(self).spec_capacity() == old(self).spec_capacity(),
            final(self)@ == keep_last(old(self)@ + samples@, old(self).spec_capacity()),
    {
        proof {
            use_type_invariant(&*self);
        }
        let ghost s0 = self@;
        let ghost cap = self.spec_capacity();
        proof {
            lemma_keep_last_of_fitting(s0, cap);
            assert(s0 + samples@.subrange(0, 0) =~= s0);
        }
        let mut i: usize = 0;
        while i < samples.len()
            invariant
                self.spec_capacity() == cap,
                cap > 0 || samples@.len() == 0,
                i <= samples@.len(),
                self@ == keep_last(s0 + samples@.subrange(0, i as int), cap),
            decreases samples@.len() - i,
        {
            let ghost before = s0 + samples@.subrange(0, i as int);
            self.push(samples[i]);
            proof {
                lemma_keep_last_push(before, samples@[i as int], cap);
                assert(before.push(samples@[i as int]) =~= s0 + samples@.subrange(0, i + 1));
            }
            i += 1;
        }
        assert(samples@.subrange(0, samples@.len() as int) =~= samples@);
    }

    /// Sample at logical index `logical_idx`: 0 is the oldest, `len() - 1` the newest.
    pub fn get(&self, logical_idx: usize) -> (r: Option<T>)
        ensures
            r == (if logical_idx < self@.len() {
                Some(self@[logical_idx as int])
            } else {
                None::<T>
            }),
    {
        proof {
            use_type_invariant(self);
        }
        if logical_idx >= self.count {
            return None;
        }
        let start: usize = if self.count < self.capacity {
            0
        } else {
            self.write_pos
        };
        let physical: usize = wrap_add(start, logical_idx, self.capacity);
        proof {
            self.lemma_slot_in_range(logical_idx as int);
        }
        Some(self.data[physical])
    }

    /// Copies the samples from logical index `start` on into `out`, as many as
    /// fit and exist; the rest of `out` is left as it was. Returns how many
    /// were written.
    pub fn read_window(&self, start: usize, out: &mut [T]) -> (written: usize)
        ensures
            written == (if start < self@.len() {
                vstd::math::min(old(out)@.len() as int, self@.len() - start)
            } else {
                0
            }),
            final(out)@.len() == old(out)@.len(),
            forall|k: int|
                0 <= k < written ==> #[trigger] final(out)@[k] == self@[start + k],
            forall|k: int|
                written <= k < old(out)@.len() ==> #[trigger] final(out)@[k] == old(out)@[k],
    {
        let mut written: usize = 0;
        let n: usize = out.len();
        while written < n
            invariant
                n == out@.len(),
                out@.len() == old(out)@.len(),
                written <= n,
                written > 0 ==> start + written <= self@.len(),
                forall|k: int| 0 <= k < written ==> #[trigger] out@[k] == self@[start + k],
                forall|k: int| written <= k < n ==> #[trigger] out@[k] == old(out)@[k],
            ensures
                written == (if start < self@.len() {
                    vstd::math::min(n as int, self@.len() - start)
                } else {
                    0
                }),
                out@.len() == old(out)@.len(),
                forall|k: int| 0 <= k < written ==> #[trigger] out@[k] == self@[start + k],
                forall|k: int| written <= k < n ==> #[trigger] out@[k] == old(out)@[k],
            decreases n - written,
        {
            if start >= self.count || written >= self.count - start {
                break;
            }
            match self.get(start + written) {
                Some(v) => {
                    out[written] = v;
                    written += 1;
                },
                None => {
                    break;
                },
            }
        }
        written
    }

    /// Number of samples held.
    pub fn len(&self) -> (n: usize)
        ensures
            n == self@.len(),
            n <= self.spec_capacity(),
    {
        proof {
            use_type_invariant(self);
        }
        self.count
    }

    pub fn is_empty(&self) -> (b: bool)
        ensures
            b == (self@.len() == 0),
    {
        self.count == 0
    }

    pub fn capacity(&self) -> (c: usize)
        ensures
            c == self.spec_capacity(),
    {
        self.capacity
    }

    /// Forgets all samples; the capacity stays.
    pub fn clear(&mut self)
        ensures
            final(self)@ == Seq::<T>::empty(),
            final(self).spec_capacity() == old(self).spec_capacity(),
    {
        proof {
            use_type_invariant(&*self);
        }
        let mut taken = RingBuffer::<T>::new(0);
        std::mem::swap(self, &mut taken);
        let RingBuffer { data, capacity, write_pos: _, count: _ } = taken;
        *self = RingBuffer { data, capacity, write_pos: 0, count: 0 };
        assert(self@ =~= Seq::<T>::empty());
    }
}

/// Walks the samples of a [`RingBuffer`] from oldest to newest.
pub struct RingBufferIter<'a, T> {
    buf: &'a RingBuffer<T>,
    pos: usize,
}

impl<'a, T: Copy> RingBuffer<T> {
    /// An iterator over all samples, oldest first.
    pub fn iter(&'a self) -> (it: RingBufferIter<'a, T>)
        ensures
            it.items() == self@,
            it.position() == 0,
    {
        RingBufferIter { buf: self, pos: 0 }
    }
}

impl<'a, T: Copy> RingBufferIter<'a, T> {
    /// All samples of the buffer being walked.
    pub closed spec fn items(&self) -> Seq<T> {
        self.buf@
    }

    /// How many samples have been handed out.
    pub closed spec fn position(&self) -> nat {
        self.pos as nat
    }

    /// The next sample, or `None` once all have been handed out.
    pub fn next(&mut self) -> (r: Option<T>)
        ensures
            final(self).items() == old(self).items(),
            old(self).position() < old(self).items().len() ==> {
                &&& r == Some(old(self).items()[old(self).position() as int])
                &&& final(self).position() == old(self).position() + 1
            },
            old(self).position() >= old(self).items().len() ==> {
                &&& r == None::<T>
                &&& final(self).position() == old(self).position()
            },
    {
        let val = self.buf.get(self.pos);
        match val {
            Some(v) => {
                self.pos += 1;
                Some(v)
            },
            None => None,
        }
    }

    /// Number of samples still to come, as lower and upper bound.
    pub fn size_hint(&self) -> (r: (usize, Option<usize>))
        ensures
            r.0 == (if self.position() < self.items().len() {
                self.items().len() - self.position()
            } else {
                0
            }),
            r.1 == Some(r.0),
    {
        let remaining: usize = self.buf.count.saturating_sub(self.pos);
        (remaining, Some(remaining))
    }
}

} // verus!
