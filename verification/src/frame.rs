//! The physical frame allocator.
//!
//! Seeded with a contiguous range of page numbers at boot, it hands out
//! frames in LIFO order from a free list of reclaimed frames, falling back
//! to the next never-used frame.  Frames are not zeroed here; callers that
//! need zeroed pages do it themselves.

use vstd::prelude::*;
use crate::addr::PhysPageNum;
use crate::config::PPN_LIMIT;

verus! {

/// Hands out and reclaims 4 KiB physical frames from `[first, end)`.
pub struct FrameAllocator {
    /// The first frame of the managed range.
    pub start: u64,
    /// The lowest frame never yet handed out.
    pub current: u64,
    /// One past the last frame the allocator may hand out.
    pub end: u64,
    /// Reclaimed frames, reused LIFO from the back.
    pub recycled: Vec<u64>,
}

impl FrameAllocator {
    /// The recycled list holds allocated-then-freed frames: each is below
    /// `current`, and no frame appears twice.
    pub open spec fn wf(self) -> bool {
        &&& self.start <= self.current <= self.end <= PPN_LIMIT
        &&& forall|i: int| 0 <= i < self.recycled.len() ==> #[trigger] self.recycled[i] >= self.start
        &&& forall|i: int| 0 <= i < self.recycled.len() ==> #[trigger] self.recycled[i] < self.current
        &&& forall|i: int, j: int|
            0 <= i < j < self.recycled.len() ==> self.recycled[i] != self.recycled[j]
    }

    /// The set of frames the allocator can still hand out.
    pub open spec fn free_set(self) -> Set<int> {
        Set::new(|p: int|
            (self.current <= p < self.end)
            || (exists|i: int| 0 <= i < self.recycled.len() && self.recycled[i] == p))
    }

    /// How many frames the allocator can still hand out.
    pub open spec fn free_count(self) -> int {
        self.recycled.len() + self.end - self.current
    }

    /// Whether `p` was handed out and not yet reclaimed.
    pub open spec fn is_allocated(self, p: int) -> bool {
        self.start <= p < self.current
            && !(exists|i: int| 0 <= i < self.recycled.len() && self.recycled[i] == p)
    }

    /// A fresh allocator over the frames `[first, end)`.
    pub fn new(first: u64, end: u64) -> (r: Self)
        requires
            first <= end <= PPN_LIMIT,
        ensures
            r.wf(),
            r.start == first,
            r.current == first,
            r.end == end,
            r.recycled@ =~= Seq::<u64>::empty(),
            r.free_count() == end - first,
            forall|p: int| r.free_set().contains(p) <==> first <= p < end,
            forall|p: int| !r.is_allocated(p),
    {
        FrameAllocator { start: first, current: first, end, recycled: Vec::new() }
    }

    /// Hand out one frame, LIFO from the free list first; `None` exactly
    /// when every frame is taken.
    pub fn allocate(&mut self) -> (r: Option<PhysPageNum>)
        requires
            old(self).wf(),
        ensures
            final(self).wf(),
            final(self).start == old(self).start,
            final(self).end == old(self).end,
            match r {
                Some(p) => {
                    &&& old(self).free_set().contains(p.0 as int)
                    &&& final(self).free_set() =~= old(self).free_set().remove(p.0 as int)
                    &&& final(self).free_count() == old(self).free_count() - 1
                    &&& final(self).is_allocated(p.0 as int)
                    &&& !old(self).is_allocated(p.0 as int)
                    &&& forall|q: int| q != p.0 as int
                        ==> (final(self).is_allocated(q) <==> old(self).is_allocated(q))
                    &&& p.0 < old(self).end
                    &&& if old(self).recycled.len() > 0 {
                        final(self).recycled@ == old(self).recycled@.drop_last()
                            && p.0 == old(self).recycled@.last()
                            && final(self).current == old(self).current
                    } else {
                        final(self).recycled@ == old(self).recycled@
                            && p.0 == old(self).current
                            && final(self).current == old(self).current + 1
                    }
                },
                None => {
                    &&& old(self).free_count() == 0
                    &&& final(self).current == old(self).current
                    &&& final(self).recycled@ == old(self).recycled@
                },
            },
            r is None <==> old(self).free_count() == 0,
    {
        match self.recycled.pop() {
            Some(p) => {
                proof {
                    let pre = *old(self);
                    let post = *self;
                    let n = pre.recycled.len() as int;
                    assert forall|q: int| post.free_set().contains(q)
                        implies pre.free_set().contains(q) && q != p as int by {
                        if !(post.current <= q < post.end) {
                            let i = choose|i: int|
                                0 <= i < post.recycled.len() && post.recycled[i] == q;
                            assert(pre.recycled[i] == q);
                            assert(pre.recycled[n - 1] == p);
                        }
                    };
                    assert forall|q: int| pre.free_set().contains(q) && q != p as int
                        implies post.free_set().contains(q) by {
                        if !(pre.current <= q < pre.end) {
                            let i = choose|i: int|
                                0 <= i < pre.recycled.len() && pre.recycled[i] == q;
                            assert(pre.recycled[n - 1] == p);
                            assert(i != n - 1);
                            assert(post.recycled[i] == q);
                        }
                    };
                    assert(post.free_set() =~= pre.free_set().remove(p as int));
                    assert(pre.free_set().contains(p as int)) by {
                        assert(pre.recycled[n - 1] == p);
                    };
                    assert(post.is_allocated(p as int)) by {
                        assert forall|i: int| 0 <= i < post.recycled.len()
                            implies post.recycled[i] != p by {
                            assert(pre.recycled[i] == post.recycled[i]);
                            assert(pre.recycled[n - 1] == p);
                        };
                    };
                    assert forall|q: int| q != p as int
                        implies (post.is_allocated(q) <==> pre.is_allocated(q)) by {
                        if exists|i: int| 0 <= i < pre.recycled.len() && pre.recycled[i] == q {
                            let i = choose|i: int|
                                0 <= i < pre.recycled.len() && pre.recycled[i] == q;
                            if i < n - 1 {
                                assert(post.recycled[i] == q);
                            }
                        }
                    };
                }
                Some(PhysPageNum(p))
            },
            None => {
                if self.current == self.end {
                    None
                } else {
                    let p = self.current;
                    self.current = self.current + 1;
                    assert(self.free_set() =~= old(self).free_set().remove(p as int));
                    Some(PhysPageNum(p))
                }
            },
        }
    }

    /// Reclaim a frame that was handed out.  Freeing a frame that is not
    /// allocated is a kernel bug and is excluded here; `checked_dealloc`
    /// detects it instead.
    pub fn dealloc(&mut self, ppn: PhysPageNum)
        requires
            old(self).wf(),
            old(self).is_allocated(ppn.0 as int),
        ensures
            final(self).wf(),
            final(self).start == old(self).start,
            final(self).current == old(self).current,
            final(self).end == old(self).end,
            final(self).recycled@ == old(self).recycled@.push(ppn.0),
            final(self).free_set() =~= old(self).free_set().insert(ppn.0 as int),
            final(self).free_count() == old(self).free_count() + 1,
            !final(self).is_allocated(ppn.0 as int),
            forall|q: int| q != ppn.0 as int
                ==> (final(self).is_allocated(q) <==> old(self).is_allocated(q)),
    {
        self.recycled.push(ppn.0);
        proof {
            let pre = *old(self);
            let post = *self;
            let n = pre.recycled.len() as int;
            assert forall|q: int| post.free_set().contains(q)
                implies pre.free_set().contains(q) || q == ppn.0 as int by {
                if !(post.current <= q < post.end) {
                    let i = choose|i: int|
                        0 <= i < post.recycled.len() && post.recycled[i] == q;
                    if i < n {
                        assert(pre.recycled[i] == q);
                    } else {
                        assert(post.recycled[n] == ppn.0);
                    }
                }
            };
            assert forall|q: int| pre.free_set().contains(q) || q == ppn.0 as int
                implies post.free_set().contains(q) by {
                if q == ppn.0 as int {
                    assert(post.recycled[n] == ppn.0);
                } else if !(pre.current <= q < pre.end) {
                    let i = choose|i: int|
                        0 <= i < pre.recycled.len() && pre.recycled[i] == q;
                    assert(post.recycled[i] == q);
                }
            };
            assert(post.free_set() =~= pre.free_set().insert(ppn.0 as int));
            assert(post.recycled[n] == ppn.0);
            assert forall|q: int| q != ppn.0 as int
                implies (post.is_allocated(q) <==> pre.is_allocated(q)) by {
                if exists|i: int| 0 <= i < post.recycled.len() && post.recycled[i] == q {
                    let i = choose|i: int|
                        0 <= i < post.recycled.len() && post.recycled[i] == q;
                    assert(i < n);
                    assert(pre.recycled[i] == q);
                }
                if exists|i: int| 0 <= i < pre.recycled.len() && pre.recycled[i] == q {
                    let i = choose|i: int|
                        0 <= i < pre.recycled.len() && pre.recycled[i] == q;
                    assert(post.recycled[i] == q);
                }
            };
        }
    }

    /// Reclaim `ppn` if it is currently allocated; report whether it was.
    /// A `false` answer exposes a double free or a stray frame.
    pub fn checked_dealloc(&mut self, ppn: PhysPageNum) -> (r: bool)
        requires
            old(self).wf(),
        ensures
            final(self).wf(),
            r == old(self).is_allocated(ppn.0 as int),
            r ==> final(self).recycled@ == old(self).recycled@.push(ppn.0)
                && final(self).free_set() =~= old(self).free_set().insert(ppn.0 as int)
                && final(self).start == old(self).start
                && final(self).current == old(self).current
                && final(self).end == old(self).end,
            !r ==> *final(self) == *old(self),
    {
        if ppn.0 < self.start || ppn.0 >= self.current {
            return false;
        }
        let mut i: usize = 0;
        while i < self.recycled.len()
            invariant
                old(self).wf(),
                *self == *old(self),
                i <= self.recycled.len(),
                forall|j: int| 0 <= j < i ==> self.recycled[j] != ppn.0,
            decreases self.recycled.len() - i,
        {
            if self.recycled[i] == ppn.0 {
                proof {
                    assert(old(self).recycled[i as int] == ppn.0);
                }
                return false;
            }
            i = i + 1;
        }
        self.dealloc(ppn);
        true
    }
}

/// Allocating a frame and then reclaiming that same frame leaves the
/// allocator with its prior free set: churn leaks nothing.  When the frame
/// came off the recycled list, the whole allocator state is restored.
pub proof fn lemma_alloc_dealloc_restores(
    pre: FrameAllocator,
    mid: FrameAllocator,
    post: FrameAllocator,
    p: PhysPageNum,
)
    requires
        pre.wf(),
        pre.free_count() > 0,
        // what `allocate` ensures of the state it leaves and the frame it returns
        mid.free_set() == pre.free_set().remove(p.0 as int),
        pre.free_set().contains(p.0 as int),
        // what `dealloc` of that same frame ensures
        post.free_set() == mid.free_set().insert(p.0 as int),
    ensures
        post.free_set() =~= pre.free_set(),
{
}

} // verus!
