use vstd::prelude::*;

verus! {

/// One push into a ring of capacity `cap`: append the sample, evicting the
/// oldest one when the ring is already full.
pub open spec fn ring_push_model(c: Seq<i16>, cap: int, s: i16) -> Seq<i16> {
    if c.len() < cap {
        c.push(s)
    } else {
        c.subrange(1, c.len() as int).push(s)
    }
}

/// The contents after pushing `xs` in order into a ring holding `c`.
pub open spec fn ring_pushes_model(c: Seq<i16>, cap: int, xs: Seq<i16>) -> Seq<i16>
    decreases xs.len(),
{
    if xs.len() == 0 {
        c
    } else {
        ring_pushes_model(ring_push_model(c, cap, xs[0]), cap, xs.drop_first())
    }
}

/// A fixed-capacity circular audio-sample buffer bridging a real-time
/// producer and a per-frame consumer.
///
/// The producer side never blocks and never fails: when the ring is full a
/// push overwrites the oldest sample, degrading detection rather than the
/// capture thread. One instance belongs to one producer and one consumer;
/// it is an owned value handed around by the caller, not shared state.
pub struct SampleRing {
    buf: Vec<i16>,
    ptr: usize,
    count: usize,
}

impl SampleRing {
    /// Capacity in samples: one detection window.
    pub closed spec fn cap(self) -> int {
        self.buf.len() as int
    }

    /// The write cursor sits where the count says it must: on the next free
    /// slot while filling, anywhere once the ring has wrapped.
    pub closed spec fn wf(self) -> bool {
        &&& 1 <= self.buf.len()
        &&& self.ptr < self.buf.len()
        &&& self.count <= self.buf.len()
        &&& (self.count < self.buf.len() ==> self.ptr == self.count)
    }

    /// The samples currently held, oldest first.
    pub closed spec fn contents(self) -> Seq<i16> {
        if self.count < self.buf.len() {
            self.buf@.subrange(0, self.count as int)
        } else {
            self.buf@.subrange(self.ptr as int, self.buf.len() as int) + self.buf@.subrange(
                0,
                self.ptr as int,
            )
        }
    }

    /// An empty ring of the given capacity.
    pub fn new(capacity: usize) -> (r: SampleRing)
        requires
            1 <= capacity,
        ensures
            r.wf(),
            r.cap() == capacity,
            r.contents() == Seq::<i16>::empty(),
    {
        let mut buf: Vec<i16> = Vec::new();
        let mut i: usize = 0;
        while i < capacity
            invariant
                buf@.len() == i,
                i <= capacity,
            decreases capacity - i,
        {
            buf.push(0);
            i = i + 1;
        }
        let r = SampleRing { buf, ptr: 0, count: 0 };
        proof {
            assert(r.contents() =~= Seq::<i16>::empty());
        }
        r
    }

    /// Number of samples currently held.
    pub fn len(&self) -> (r: usize)
        requires
            self.wf(),
        ensures
            r == self.contents().len(),
    {
        self.count
    }

    /// Capacity in samples.
    pub fn capacity(&self) -> (r: usize)
        requires
            self.wf(),
        ensures
            r == self.cap(),
    {
        self.buf.len()
    }

    /// Append one sample; when full, the oldest sample is overwritten.
    /// Never blocks and never fails, as the capture path demands.
    pub fn push(&mut self, s: i16)
        requires
            old(self).wf(),
        ensures
            final(self).wf(),
            final(self).cap() == old(self).cap(),
            final(self).contents() == ring_push_model(old(self).contents(), old(self).cap(), s),
    {
        let cap = self.buf.len();
        let ghost ob = old(self).buf@;
        let ghost optr = old(self).ptr as int;
        let ghost oc = old(self).contents();
        self.buf[self.ptr] = s;
        self.ptr = if self.ptr + 1 == cap {
            0
        } else {
            self.ptr + 1
        };
        if self.count < cap {
            self.count = self.count + 1;
        }
        proof {
            let nb = self.buf@;
            let c = cap as int;
            assert(nb == ob.update(optr, s));
            if oc.len() < c {
                assert(self.contents() =~= oc.push(s));
            } else {
                assert(oc.len() == c);
                let target = oc.subrange(1, c).push(s);
                assert(self.contents().len() == c);
                assert(target.len() == c);
                assert forall|i: int| 0 <= i < c implies self.contents()[i] == target[i] by {
                    if i < c - 1 {
                        assert(target[i] == oc[i + 1]);
                    }
                }
                assert(self.contents() =~= target);
            }
        }
    }

    /// Copy the ring into `dest` in linear oldest-to-newest order, replacing
    /// whatever `dest` held.
    pub fn drain_into(&self, dest: &mut Vec<i16>)
        requires
            self.wf(),
        ensures
            final(dest)@ == self.contents(),
    {
        dest.clear();
        if self.count < self.buf.len() {
            let mut i: usize = 0;
            while i < self.count
                invariant
                    self.wf(),
                    self.count < self.buf.len(),
                    i <= self.count,
                    dest@ =~= self.buf@.subrange(0, i as int),
                decreases self.count - i,
            {
                let v = self.buf[i];
                dest.push(v);
                i = i + 1;
            }
            proof {
                assert(dest@ =~= self.contents());
            }
        } else {
            let cap = self.buf.len();
            let mut i: usize = self.ptr;
            while i < cap
                invariant
                    self.wf(),
                    self.count == self.buf.len(),
                    cap == self.buf.len(),
                    self.ptr <= i <= cap,
                    dest@ =~= self.buf@.subrange(self.ptr as int, i as int),
                decreases cap - i,
            {
                let v = self.buf[i];
                dest.push(v);
                i = i + 1;
            }
            let mut j: usize = 0;
            while j < self.ptr
                invariant
                    self.wf(),
                    self.count == self.buf.len(),
                    cap == self.buf.len(),
                    j <= self.ptr,
                    dest@ =~= self.buf@.subrange(self.ptr as int, cap as int) + self.buf@.subrange(
                        0,
                        j as int,
                    ),
                decreases self.ptr - j,
            {
                let v = self.buf[j];
                dest.push(v);
                j = j + 1;
            }
            proof {
                assert(dest@ =~= self.contents());
            }
        }
    }
}

/// What a run of pushes leaves behind: the last `cap` of the pushed values,
/// or everything when fewer were pushed. This is the general law behind the
/// ring: draining after `cap` pushes returns them in push order, and pushing
/// more first evicts the oldest.
pub proof fn lemma_ring_pushes(c: Seq<i16>, cap: int, xs: Seq<i16>)
    requires
        1 <= cap,
        c.len() <= cap,
    ensures
        ring_pushes_model(c, cap, xs) == (c + xs).subrange(
            if c.len() + xs.len() <= cap {
                0
            } else {
                c.len() + xs.len() - cap
            },
            c.len() + xs.len() as int,
        ),
    decreases xs.len(),
{
    let total = c.len() + xs.len();
    if xs.len() == 0 {
        assert(c + xs =~= c);
        assert((c + xs).subrange(0, total as int) =~= c);
    } else {
        let x0 = xs[0];
        let rest = xs.drop_first();
        let c1 = ring_push_model(c, cap, x0);
        lemma_ring_pushes(c1, cap, rest);
        if c.len() < cap {
            assert(c1 =~= c.push(x0));
            assert(c1 + rest =~= c + xs);
            assert(ring_pushes_model(c, cap, xs) == ring_pushes_model(c1, cap, rest));
        } else {
            assert(c.len() == cap);
            assert(c1 =~= c.subrange(1, cap).push(x0));
            assert(c1 + rest =~= (c + xs).subrange(1, total as int));
            let start1 = if c1.len() + rest.len() <= cap {
                0int
            } else {
                c1.len() + rest.len() - cap
            };
            let target1 = (c1 + rest).subrange(start1, c1.len() + rest.len() as int);
            let start = if total <= cap {
                0int
            } else {
                total - cap
            };
            assert(target1 =~= (c + xs).subrange(start, total as int));
        }
    }
}

/// Draining after pushing exactly `cap` values into an empty ring returns
/// them in push order, oldest first.
pub proof fn lemma_ring_push_order(cap: int, xs: Seq<i16>)
    requires
        1 <= cap,
        xs.len() == cap,
    ensures
        ring_pushes_model(Seq::<i16>::empty(), cap, xs) == xs,
{
    lemma_ring_pushes(Seq::<i16>::empty(), cap, xs);
    assert(Seq::<i16>::empty() + xs =~= xs);
    assert(xs.subrange(0, cap) =~= xs);
}

/// Pushing `cap + k` values into an empty ring evicts exactly the first `k`:
/// what remains is the last `cap` values in push order.
pub proof fn lemma_ring_eviction(cap: int, k: int, xs: Seq<i16>)
    requires
        1 <= cap,
        0 <= k,
        xs.len() == cap + k,
    ensures
        ring_pushes_model(Seq::<i16>::empty(), cap, xs) == xs.subrange(k, xs.len() as int),
{
    lemma_ring_pushes(Seq::<i16>::empty(), cap, xs);
    assert(Seq::<i16>::empty() + xs =~= xs);
    if k == 0 {
        assert(xs.subrange(0, cap) =~= xs);
    }
}

} // verus!
