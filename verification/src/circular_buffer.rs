use crate::bytes::seq_views;
use crate::error::ShellError;
use vstd::prelude::*;

verus! {

/// One step of the ring's eviction policy: appending to a ring that is below
/// capacity keeps every entry; appending to a full ring evicts exactly the
/// oldest entry.
pub open spec fn spec_ring_push<T>(s: Seq<T>, cap: int, entry: T) -> Seq<T>
    recommends
        1 <= cap,
        s.len() <= cap,
{
    if s.len() < cap {
        s.push(entry)
    } else {
        s.drop_first().push(entry)
    }
}

/// The contents of a ring of capacity `cap` after pushing `pushes` in order
/// into an empty ring.
pub open spec fn ring_after<T>(pushes: Seq<T>, cap: int) -> Seq<T>
    decreases pushes.len(),
{
    if pushes.len() == 0 {
        Seq::empty()
    } else {
        spec_ring_push(ring_after(pushes.drop_last(), cap), cap, pushes.last())
    }
}

/// Fixed-capacity store of past command lines.  Insertion is O(1) and never
/// fails: once the ring is full, each insertion overwrites exactly the oldest
/// live entry.  The view is the sequence of live entries, oldest first.
pub struct CircularBuffer<T> {
    buffer: Vec<T>,
    start: usize,
    capacity: usize,
}

impl<T> View for CircularBuffer<T> {
    type V = Seq<T>;

    /// The live entries in insertion order, oldest first.
    closed spec fn view(&self) -> Seq<T> {
        if self.buffer.len() < self.capacity {
            self.buffer@
        } else {
            self.buffer@.subrange(self.start as int, self.buffer.len() as int)
                + self.buffer@.subrange(0, self.start as int)
        }
    }
}

impl<T> CircularBuffer<T> {
    /// Until the ring is full the backing vector only grows at its end; once
    /// full, `start` rotates over the fixed storage.
    #[verifier::type_invariant]
    spec fn wf(self) -> bool {
        &&& 1 <= self.capacity
        &&& self.buffer.len() <= self.capacity
        &&& if self.buffer.len() < self.capacity {
            self.start == 0
        } else {
            self.start < self.capacity
        }
    }

    /// The fixed capacity the ring was created with.
    pub closed spec fn spec_capacity(&self) -> int {
        self.capacity as int
    }

    /// Creating a ring fails exactly on capacity zero.
    pub fn new(capacity: usize) -> (r: Result<Self, ShellError>)
        ensures
            match r {
                Ok(b) => {
                    &&& capacity >= 1
                    &&& b@ == Seq::<T>::empty()
                    &&& b.spec_capacity() == capacity
                },
                Err(e) => capacity == 0 && e == ShellError::InvalidCapacity,
            },
    {
        if capacity == 0 {
            Err(ShellError::InvalidCapacity)
        } else {
            let b = CircularBuffer { buffer: Vec::new(), start: 0, capacity };
            proof {
                assert(b@ == Seq::<T>::empty());
            }
            Ok(b)
        }
    }

    /// The capacity, with the bounds every ring maintains.
    pub fn capacity(&self) -> (c: usize)
        ensures
            c as int == self.spec_capacity(),
            1 <= c,
            self@.len() <= c,
    {
        proof {
            use_type_invariant(self);
        }
        self.capacity
    }

    /// O(1) insertion with oldest-overwrite eviction; never fails.
    pub fn push(&mut self, entry: T)
        ensures
            final(self)@ == spec_ring_push(old(self)@, old(self).spec_capacity(), entry),
            final(self).spec_capacity() == old(self).spec_capacity(),
            final(self)@.len() <= final(self).spec_capacity(),
            final(self)@.len() > 0,
    {
        proof {
            use_type_invariant(&*self);
        }
        let ghost prev = self@;
        let old_start = self.start;
        let mut buf: Vec<T> = Vec::new();
        self.start = 0;
        std::mem::swap(&mut buf, &mut self.buffer);
        if buf.len() < self.capacity {
            buf.push(entry);
            self.buffer = buf;
            proof {
                assert(self@ =~= prev.push(entry));
            }
        } else {
            buf.set(old_start, entry);
            self.buffer = buf;
            self.start = if old_start + 1 == self.capacity {
                0
            } else {
                old_start + 1
            };
            proof {
                assert(self@ =~= prev.drop_first().push(entry));
            }
        }
    }

    /// A fresh oldest-first traversal of the live entries.
    pub fn iter<'a>(&'a self) -> (it: CircularBufferIter<'a, T>)
        ensures
            it.source() == self@,
            it.pending() == self@,
    {
        proof {
            use_type_invariant(self);
        }
        let it = CircularBufferIter { buffer: self, position: 0 };
        proof {
            assert(it.pending() =~= self@);
        }
        it
    }

    /// A fresh newest-first traversal of the live entries.
    pub fn iter_rev<'a>(&'a self) -> (it: CircularBufferIterRev<'a, T>)
        ensures
            it.source() == self@,
            it.pending() == self@.reverse(),
    {
        proof {
            use_type_invariant(self);
        }
        let n = self.buffer.len();
        let it = CircularBufferIterRev { buffer: self, position: n };
        proof {
            assert(self@.len() == n);
            assert(it.pending() =~= self@.reverse());
        }
        it
    }

    /// The most recently inserted entry; nothing exactly when the ring is
    /// empty.
    pub fn tail(&self) -> (r: Option<&T>)
        ensures
            match r {
                None => self@.len() == 0,
                Some(x) => self@.len() > 0 && *x == self@.last(),
            },
    {
        proof {
            use_type_invariant(self);
        }
        if self.buffer.len() == 0 {
            None
        } else if self.buffer.len() < self.capacity {
            Some(&self.buffer[self.buffer.len() - 1])
        } else {
            let idx = if self.start == 0 {
                self.capacity - 1
            } else {
                self.start - 1
            };
            proof {
                assert(self@.last() == self.buffer@[idx as int]);
            }
            Some(&self.buffer[idx])
        }
    }

    /// The oldest live entry; nothing exactly when the ring is empty.
    pub fn head(&self) -> (r: Option<&T>)
        ensures
            match r {
                None => self@.len() == 0,
                Some(x) => self@.len() > 0 && *x == self@.first(),
            },
    {
        proof {
            use_type_invariant(self);
        }
        if self.buffer.len() == 0 {
            None
        } else {
            proof {
                assert(self@.first() == self.buffer@[self.start as int]);
            }
            Some(&self.buffer[self.start])
        }
    }
}

/// Oldest-first traversal.  `pending()` is the suffix of the ring's view not
/// yet yielded; each `next` yields its first element.
pub struct CircularBufferIter<'a, T> {
    buffer: &'a CircularBuffer<T>,
    position: usize,
}

impl<'a, T> CircularBufferIter<'a, T> {
    #[verifier::type_invariant]
    spec fn wf(self) -> bool {
        &&& self.position <= self.buffer@.len()
        &&& self.buffer.wf()
    }

    /// The ring contents this traversal walks, oldest first.
    pub closed spec fn source(&self) -> Seq<T> {
        self.buffer@
    }

    /// The entries not yet yielded, in the order they will come.
    pub closed spec fn pending(&self) -> Seq<T> {
        self.buffer@.skip(self.position as int)
    }

    /// Yields the next entry, oldest first; nothing once all live entries
    /// have been yielded.
    pub fn next(&mut self) -> (r: Option<&'a T>)
        ensures
            final(self).source() == old(self).source(),
            old(self).pending().len() == 0 ==> r is None && final(self).pending()
                == old(self).pending(),
            old(self).pending().len() > 0 ==> (r matches Some(x) && *x == old(
                self,
            ).pending().first() && final(self).pending() == old(self).pending().drop_first()),
    {
        proof {
            use_type_invariant(&*self);
        }
        let buf_len = self.buffer.buffer.len();
        if self.position == buf_len {
            None
        } else {
            let idx = if self.buffer.buffer.len() < self.buffer.capacity {
                self.position
            } else {
                let room = self.buffer.capacity - self.buffer.start;
                if self.position < room {
                    self.buffer.start + self.position
                } else {
                    self.position - room
                }
            };
            let ghost p = self.position as int;
            self.position = self.position + 1;
            proof {
                assert(self.buffer@[p] == self.buffer.buffer@[idx as int]);
                assert(final(self).pending() =~= old(self).pending().drop_first());
            }
            Some(&self.buffer.buffer[idx])
        }
    }
}

/// Newest-first traversal.  `pending()` is what is not yet yielded, in the
/// order it will come: the exact reverse of the oldest-first order.
pub struct CircularBufferIterRev<'a, T> {
    buffer: &'a CircularBuffer<T>,
    position: usize,
}

impl<'a, T> CircularBufferIterRev<'a, T> {
    #[verifier::type_invariant]
    spec fn wf(self) -> bool {
        &&& self.position <= self.buffer@.len()
        &&& self.buffer.wf()
    }

    /// The ring contents this traversal walks, oldest first.
    pub closed spec fn source(&self) -> Seq<T> {
        self.buffer@
    }

    /// The entries not yet yielded, in the order they will come.
    pub closed spec fn pending(&self) -> Seq<T> {
        self.buffer@.take(self.position as int).reverse()
    }

    /// Yields the next entry, newest first; nothing once all live entries
    /// have been yielded.
    pub fn next(&mut self) -> (r: Option<&'a T>)
        ensures
            final(self).source() == old(self).source(),
            old(self).pending().len() == 0 ==> r is None && final(self).pending()
                == old(self).pending(),
            old(self).pending().len() > 0 ==> (r matches Some(x) && *x == old(
                self,
            ).pending().first() && final(self).pending() == old(self).pending().drop_first()),
    {
        proof {
            use_type_invariant(&*self);
        }
        if self.position == 0 {
            None
        } else {
            let ghost p = self.position as int;
            self.position = self.position - 1;
            let idx = if self.buffer.buffer.len() < self.buffer.capacity {
                self.position
            } else {
                let room = self.buffer.capacity - self.buffer.start;
                if self.position < room {
                    self.buffer.start + self.position
                } else {
                    self.position - room
                }
            };
            proof {
                assert(self.buffer@[p - 1] == self.buffer.buffer@[idx as int]);
                assert(old(self).pending().first() == self.buffer@[p - 1]);
                assert(final(self).pending() =~= old(self).pending().drop_first());
            }
            Some(&self.buffer.buffer[idx])
        }
    }
}

/// For every capacity `N >= 1` and any sequence of pushes into an initially
/// empty ring, the ring holds exactly the last `min(M, N)` pushed values, in
/// insertion order, where `M` is the number of pushes.
pub proof fn lemma_ring_retains_latest<T>(pushes: Seq<T>, cap: int)
    requires
        1 <= cap,
    ensures
        ring_after(pushes, cap).len() == if pushes.len() <= cap {
            pushes.len() as int
        } else {
            cap
        },
        ring_after(pushes, cap) == pushes.skip(
            if pushes.len() <= cap {
                0
            } else {
                pushes.len() - cap
            },
        ),
    decreases pushes.len(),
{
    if pushes.len() == 0 {
        assert(ring_after(pushes, cap) =~= pushes.skip(0));
    } else {
        let rest = pushes.drop_last();
        lemma_ring_retains_latest(rest, cap);
        let prev = ring_after(rest, cap);
        if rest.len() < cap {
            assert(prev.push(pushes.last()) =~= pushes.skip(0));
        } else {
            let k = rest.len() - cap;
            assert(prev.drop_first() =~= rest.skip(k + 1));
            assert(rest.skip(k + 1).push(pushes.last()) =~= pushes.skip(k + 1));
        }
    }
}

/// After any push, the newest entry of the ring is the value just pushed.
pub proof fn lemma_tail_after_push<T>(s: Seq<T>, cap: int, entry: T)
    requires
        1 <= cap,
        s.len() <= cap,
    ensures
        spec_ring_push(s, cap, entry).len() > 0,
        spec_ring_push(s, cap, entry).last() == entry,
{
}

/// Pushing a byte buffer into a ring and taking views commute.
pub proof fn lemma_seq_views_ring_push(s: Seq<Vec<u8>>, cap: int, v: Vec<u8>)
    requires
        1 <= cap,
    ensures
        seq_views(spec_ring_push(s, cap, v)) == spec_ring_push(seq_views(s), cap, v@),
{
    if s.len() < cap {
        assert(seq_views(s.push(v)) =~= seq_views(s).push(v@));
    } else {
        assert(seq_views(s.drop_first().push(v)) =~= seq_views(s).drop_first().push(v@));
    }
}

/// An oldest-first traversal and a newest-first traversal of the same ring
/// state yield exact reverses of each other: `iter` pends the ring's view and
/// `iter_rev` pends its reverse.
pub proof fn lemma_traversals_are_reverses<T>(contents: Seq<T>, forward: Seq<T>, backward: Seq<T>)
    requires
        forward == contents,
        backward == contents.reverse(),
    ensures
        forward == backward.reverse(),
        backward == forward.reverse(),
{
    assert(contents.reverse().reverse() =~= contents);
}

} // verus!
