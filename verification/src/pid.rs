//! Process-id allocation.
//!
//! A monotonic counter plus a free list of returned ids.  The live set of
//! ids is the counter range minus the free list.  A `PidHandle` is a
//! one-shot token for one id: releasing it returns the id exactly once;
//! returning an id that is not live is a kernel bug and is excluded by
//! contract, while `is_live` lets a caller detect it first.

use vstd::prelude::*;

verus! {

/// A monotonic id counter with a LIFO free list of returned ids.
pub struct RecycleAllocator {
    /// The lowest id never yet handed out.
    pub current: u64,
    /// Returned ids, reused LIFO from the back.
    pub recycled: Vec<u64>,
}

impl RecycleAllocator {
    /// Every recycled id was handed out, and no id appears twice.
    pub open spec fn wf(self) -> bool {
        &&& forall|i: int| 0 <= i < self.recycled.len() ==> #[trigger] self.recycled[i] < self.current
        &&& forall|i: int, j: int|
            0 <= i < j < self.recycled.len() ==> self.recycled[i] != self.recycled[j]
    }

    /// Whether `id` is handed out and not yet returned.
    pub open spec fn is_allocated(self, id: int) -> bool {
        0 <= id < self.current
            && !(exists|i: int| 0 <= i < self.recycled.len() && self.recycled[i] == id)
    }

    /// A fresh allocator; the first id handed out is 0.
    pub fn new() -> (r: Self)
        ensures
            r.wf(),
            r.current == 0,
            r.recycled@ =~= Seq::<u64>::empty(),
            forall|id: int| !r.is_allocated(id),
    {
        RecycleAllocator { current: 0, recycled: Vec::new() }
    }

    /// Hand out an id: the most recently returned one, else a fresh one.
    pub fn allocate(&mut self) -> (r: u64)
        requires
            old(self).wf(),
            old(self).current < u64::MAX,
        ensures
            final(self).wf(),
            !old(self).is_allocated(r as int),
            final(self).is_allocated(r as int),
            forall|id: int| id != r as int
                ==> (final(self).is_allocated(id) <==> old(self).is_allocated(id)),
            if old(self).recycled.len() > 0 {
                final(self).recycled@ == old(self).recycled@.drop_last()
                    && r == old(self).recycled@.last()
                    && final(self).current == old(self).current
            } else {
                final(self).recycled@ == old(self).recycled@
                    && r == old(self).current
                    && final(self).current == old(self).current + 1
            },
    {
        match self.recycled.pop() {
            Some(id) => {
                proof {
                    let pre = *old(self);
                    let post = *self;
                    let n = pre.recycled.len() as int;
                    assert(pre.recycled[n - 1] == id);
                    assert forall|q: int| 0 <= q < post.recycled.len()
                        implies #[trigger] post.recycled[q] == pre.recycled[q] by {};
                    assert(post.is_allocated(id as int));
                    assert forall|q: int| q != id as int
                        implies (post.is_allocated(q) <==> pre.is_allocated(q)) by {
                        if exists|i: int| 0 <= i < pre.recycled.len() && pre.recycled[i] == q {
                            let i = choose|i: int|
                                0 <= i < pre.recycled.len() && pre.recycled[i] == q;
                            if i < n - 1 {
                                assert(post.recycled[i] == q);
                            }
                        }
                    };
                }
                id
            },
            None => {
                let id = self.current;
                self.current = self.current + 1;
                id
            },
        }
    }

    /// Return an id that is live.  Returning a dead id is a
    /// reference-counting bug and is excluded here.
    pub fn dealloc(&mut self, id: u64)
        requires
            old(self).wf(),
            old(self).is_allocated(id as int),
        ensures
            final(self).wf(),
            final(self).current == old(self).current,
            final(self).recycled@ == old(self).recycled@.push(id),
            !final(self).is_allocated(id as int),
            forall|q: int| q != id as int
                ==> (final(self).is_allocated(q) <==> old(self).is_allocated(q)),
    {
        self.recycled.push(id);
        proof {
            let pre = *old(self);
            let post = *self;
            let n = pre.recycled.len() as int;
            assert(post.recycled[n] == id);
            assert forall|q: int| q != id as int
                implies (post.is_allocated(q) <==> pre.is_allocated(q)) by {
                if exists|i: int| 0 <= i < post.recycled.len() && post.recycled[i] == q {
                    let i = choose|i: int|
                        0 <= i < post.recycled.len() && post.recycled[i] == q;
                    assert(i < n);
                    assert(pre.recycled[i] == q);
                }
                if exists|i: int| 0 <= i < pre.recycled.len() && pre.recycled[i] == q {
                    let i = choose|i: int|
                        0 <= i < pre.recycled.len() && pre.recycled[i] == q;
                    assert(post.recycled[i] == q);
                }
            };
        }
    }

    /// Whether `id` is handed out and not yet returned; lets a caller
    /// detect a double free before it happens.
    pub fn is_live(&self, id: u64) -> (r: bool)
        requires
            self.wf(),
        ensures
            r == self.is_allocated(id as int),
    {
        if id >= self.current {
            return false;
        }
        let mut i: usize = 0;
        while i < self.recycled.len()
            invariant
                self.wf(),
                i <= self.recycled.len(),
                id < self.current,
                forall|j: int| 0 <= j < i ==> self.recycled[j] != id,
            decreases self.recycled.len() - i,
        {
            if self.recycled[i] == id {
                proof {
                    assert(self.recycled[i as int] == id);
                }
                return false;
            }
            i = i + 1;
        }
        true
    }
}

/// A one-shot token for one process id.
pub struct PidHandle(pub u64);

/// Hand out a process id from the process-wide allocator.
pub fn pid_alloc(pa: &mut RecycleAllocator) -> (r: PidHandle)
    requires
        old(pa).wf(),
        old(pa).current < u64::MAX,
    ensures
        final(pa).wf(),
        !old(pa).is_allocated(r.0 as int),
        final(pa).is_allocated(r.0 as int),
        forall|id: int| id != r.0 as int
            ==> (final(pa).is_allocated(id) <==> old(pa).is_allocated(id)),
{
    PidHandle(pa.allocate())
}

impl PidHandle {
    /// Release the id, exactly once: the handle is consumed.
    pub fn release(self, pa: &mut RecycleAllocator)
        requires
            old(pa).wf(),
            old(pa).is_allocated(self.0 as int),
        ensures
            final(pa).wf(),
            !final(pa).is_allocated(self.0 as int),
            forall|q: int| q != self.0 as int
                ==> (final(pa).is_allocated(q) <==> old(pa).is_allocated(q)),
    {
        pa.dealloc(self.0);
    }
}

} // verus!
