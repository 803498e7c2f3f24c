//! The physical frame allocator: a bump pointer over the free range, and a
//! stack of frames that were handed back.
use vstd::prelude::*;
use crate::mm::address::{PhysAddr, PhysPageNum};
use crate::mm::page_table::{PhysMemory, clear_frame_words, frame_cleared};

verus! {

/// A frame that the kernel owns.
pub struct FrameWrapper {
    pub ppn: PhysPageNum,
}

impl FrameWrapper {
    /// Wraps frame `page`.
    pub fn new(page: PhysPageNum) -> (r: Self)
        ensures
            r.ppn == page,
    {
        Self { ppn: page }
    }

    /// Zeroes the frame, as a page table must be before it is used.
    pub fn clear_frame(&self, m: &mut PhysMemory)
        requires
            old(m).has_frame(self.ppn.0),
        ensures
            frame_cleared(*old(m), *final(m), self.ppn.0),
    {
        clear_frame_words(m, self.ppn.0);
    }
}

/// Hands out frames `cur_ppn..last_ppn` in order, and prefers frames that
/// were handed back, newest first.
pub struct StackFrameAllocator {
    pub cur_ppn: u64,
    pub last_ppn: u64,
    pub unused_ppns: Vec<u64>,
}

/// The page number that the allocator makes of a stored number.
pub open spec fn as_ppn(v: u64) -> PhysPageNum {
    PhysPageNum(v & 0x0000_0FFF_FFFF_FFFF)
}

impl StackFrameAllocator {
    /// The frames that the allocator can still hand out.
    pub open spec fn free_frames(&self) -> Set<u64> {
        self.unused_ppns@.to_set() + Set::new(|p: u64| self.cur_ppn <= p < self.last_ppn)
    }

    /// How many frames the allocator can still hand out.
    pub open spec fn free_count(&self) -> nat {
        (self.unused_ppns@.len() + (self.last_ppn - self.cur_ppn)) as nat
    }

    /// The invariant under which no frame is handed out twice: the range is
    /// in order, and every handed-back frame lies below the range and appears
    /// once.
    pub open spec fn wf(&self) -> bool {
        &&& self.cur_ppn <= self.last_ppn
        &&& self.unused_ppns@.no_duplicates()
        &&& forall|i: int|
            0 <= i < self.unused_ppns@.len() ==> #[trigger] self.unused_ppns@[i] < self.cur_ppn
    }

    /// An allocator with nothing to hand out.
    pub fn new() -> (r: Self)
        ensures
            r.cur_ppn == 0 && r.last_ppn == 0,
            r.unused_ppns@ == Seq::<u64>::empty(),
            r.wf(),
    {
        Self { cur_ppn: 0, last_ppn: 0, unused_ppns: Vec::new() }
    }

    /// Sets the range of frames to hand out to `cur..last`.
    pub fn init(&mut self, cur: PhysPageNum, last: PhysPageNum)
        ensures
            final(self).cur_ppn == cur.0,
            final(self).last_ppn == last.0,
            final(self).unused_ppns@ == old(self).unused_ppns@,
    {
        self.cur_ppn = cur.0;
        self.last_ppn = last.0;
    }

    /// Hands out a frame: the last one handed back if there is one, else the
    /// next one of the range, else none.
    pub fn alloc_frame(&mut self) -> (r: Option<PhysPageNum>)
        requires
            old(self).cur_ppn <= old(self).last_ppn,
        ensures
            old(self).unused_ppns@.len() > 0 ==> {
                &&& r == Some(as_ppn(old(self).unused_ppns@.last()))
                &&& final(self).unused_ppns@ == old(self).unused_ppns@.drop_last()
                &&& final(self).cur_ppn == old(self).cur_ppn
            },
            old(self).unused_ppns@.len() == 0 && old(self).cur_ppn == old(self).last_ppn ==> {
                &&& r.is_none()
                &&& final(self).unused_ppns@ == old(self).unused_ppns@
                &&& final(self).cur_ppn == old(self).cur_ppn
            },
            old(self).unused_ppns@.len() == 0 && old(self).cur_ppn < old(self).last_ppn ==> {
                &&& r == Some(as_ppn(old(self).cur_ppn))
                &&& final(self).unused_ppns@ == old(self).unused_ppns@
                &&& final(self).cur_ppn == old(self).cur_ppn + 1
            },
            final(self).last_ppn == old(self).last_ppn,
            final(self).cur_ppn <= final(self).last_ppn,
    {
        if let Some(ppn) = self.unused_ppns.pop() {
            Some(PhysPageNum::from(ppn))
        } else if self.cur_ppn == self.last_ppn {
            None
        } else {
            self.cur_ppn = self.cur_ppn + 1;
            Some(PhysPageNum::from(self.cur_ppn - 1))
        }
    }

    /// Whether frame `ppn` is out: below the range and not handed back, so
    /// that it can be handed back.
    pub fn holds_out(&self, ppn: u64) -> (r: bool)
        ensures
            r == (ppn < self.cur_ppn && !self.unused_ppns@.contains(ppn)),
    {
        if ppn >= self.cur_ppn {
            return false;
        }
        let mut i: usize = 0;
        while i < self.unused_ppns.len()
            invariant
                0 <= i <= self.unused_ppns@.len(),
                forall|k: int| 0 <= k < i ==> self.unused_ppns@[k] != ppn,
            decreases self.unused_ppns@.len() - i,
        {
            if self.unused_ppns[i] == ppn {
                return false;
            }
            i = i + 1;
        }
        true
    }

    /// Whether at least `n` frames can still be handed out.
    pub fn has_free_frames(&self, n: u64) -> (r: bool)
        requires
            self.cur_ppn <= self.last_ppn,
        ensures
            r == (self.free_count() >= n),
    {
        let range: u64 = self.last_ppn - self.cur_ppn;
        if n <= range {
            true
        } else {
            n - range <= self.unused_ppns.len() as u64
        }
    }

    /// Takes frame `ppn` back. The frame must lie at or below the range's
    /// start and must not have been handed back already.
    pub fn dealloc(&mut self, ppn: PhysPageNum)
        requires
            ppn.0 <= old(self).cur_ppn,
            !old(self).unused_ppns@.contains(ppn.0),
        ensures
            final(self).unused_ppns@ == old(self).unused_ppns@.push(ppn.0),
            final(self).cur_ppn == old(self).cur_ppn,
            final(self).last_ppn == old(self).last_ppn,
    {
        let mut i: usize = 0;
        let mut found = false;
        while i < self.unused_ppns.len()
            invariant
                0 <= i <= self.unused_ppns@.len(),
                found == exists|k: int| 0 <= k < i && self.unused_ppns@[k] == ppn.0,
            decreases self.unused_ppns@.len() - i,
        {
            if self.unused_ppns[i] == ppn.0 {
                found = true;
            }
            i = i + 1;
        }
        assert(!found);
        self.unused_ppns.push(ppn.0);
    }
}

/// A frame that the allocator hands out was free, and is free no longer.
pub proof fn lemma_alloc_takes_free_frame(
    a: StackFrameAllocator,
    b: StackFrameAllocator,
    r: Option<PhysPageNum>,
)
    requires
        a.wf(),
        a.last_ppn < 0x1000_0000_0000,
        b.last_ppn == a.last_ppn,
        a.unused_ppns@.len() > 0 ==> {
            &&& r == Some(as_ppn(a.unused_ppns@.last()))
            &&& b.unused_ppns@ == a.unused_ppns@.drop_last()
            &&& b.cur_ppn == a.cur_ppn
        },
        a.unused_ppns@.len() == 0 && a.cur_ppn == a.last_ppn ==> {
            &&& r.is_none()
            &&& b.unused_ppns@ == a.unused_ppns@
            &&& b.cur_ppn == a.cur_ppn
        },
        a.unused_ppns@.len() == 0 && a.cur_ppn < a.last_ppn ==> {
            &&& r == Some(as_ppn(a.cur_ppn))
            &&& b.unused_ppns@ == a.unused_ppns@
            &&& b.cur_ppn == a.cur_ppn + 1
        },
    ensures
        b.wf(),
        r.is_none() <==> a.free_count() == 0,
        r.is_some() ==> {
            &&& a.free_frames().contains(r.unwrap().0)
            &&& !b.free_frames().contains(r.unwrap().0)
            &&& b.free_frames() == a.free_frames().remove(r.unwrap().0)
            &&& b.free_count() + 1 == a.free_count()
        },
{
    if a.unused_ppns@.len() > 0 {
        let p = a.unused_ppns@.last();
        assert(p < a.cur_ppn);
        assert(p & 0x0000_0FFF_FFFF_FFFF == p) by (bit_vector)
            requires
                p < 0x1000_0000_0000,
        ;
        let s = a.unused_ppns@;
        assert(s =~= s.drop_last().push(p));
        assert(!s.drop_last().contains(p)) by {
            if s.drop_last().contains(p) {
                let k = choose|k: int| 0 <= k < s.drop_last().len() && s.drop_last()[k] == p;
                assert(s[k] == s[s.len() - 1]);
            }
        }
        assert(b.free_frames() =~= a.free_frames().remove(p)) by {
            assert forall|x: u64| a.unused_ppns@.to_set().contains(x) && x != p implies b.unused_ppns@.to_set().contains(
                x,
            ) by {
                let k = choose|k: int| 0 <= k < s.len() && s[k] == x;
                assert(k != s.len() - 1);
                assert(b.unused_ppns@[k] == x);
            }
            assert forall|x: u64| b.unused_ppns@.to_set().contains(x) implies a.unused_ppns@.to_set().contains(
                x,
            ) && x != p by {
                let k = choose|k: int| 0 <= k < b.unused_ppns@.len() && b.unused_ppns@[k] == x;
                assert(s[k] == x);
            }
            assert(a.unused_ppns@.to_set().contains(p)) by {
                assert(s[s.len() - 1] == p);
            }
        }
        assert(b.unused_ppns@.len() + 1 == a.unused_ppns@.len());
    } else if a.cur_ppn == a.last_ppn {
    } else {
        let p = a.cur_ppn;
        assert(p & 0x0000_0FFF_FFFF_FFFF == p) by (bit_vector)
            requires
                p < 0x1000_0000_0000,
        ;
        assert(a.unused_ppns@.to_set() =~= Set::<u64>::empty());
        assert(b.unused_ppns@.to_set() =~= Set::<u64>::empty());
        assert(b.free_frames() =~= a.free_frames().remove(p));
    }
}

/// Handing a frame back and then asking for one gives the same frame back.
pub proof fn lemma_dealloc_then_alloc(
    a: StackFrameAllocator,
    b: StackFrameAllocator,
    p: PhysPageNum,
)
    requires
        p.0 < 0x1000_0000_0000,
        b.unused_ppns@ == a.unused_ppns@.push(p.0),
    ensures
        b.unused_ppns@.len() > 0,
        as_ppn(b.unused_ppns@.last()) == p,
        b.unused_ppns@.drop_last() == a.unused_ppns@,
{
    let v = p.0;
    assert(v & 0x0000_0FFF_FFFF_FFFF == v) by (bit_vector)
        requires
            v < 0x1000_0000_0000,
    ;
    assert(b.unused_ppns@.drop_last() =~= a.unused_ppns@);
}

/// The frame allocator of the kernel: the frames from the one holding
/// `ekernel`, the end of the kernel image, up to the end of memory.
pub fn init_frame_allocator(ekernel: u64) -> (r: StackFrameAllocator)
    ensures
        r.cur_ppn == (ekernel & 0x00FF_FFFF_FFFF_FFFF) >> 12u64,
        r.last_ppn == 0x84000,
        r.unused_ppns@ == Seq::<u64>::empty(),
{
    let mut a = StackFrameAllocator::new();
    let end = crate::mm::address::round_down_in_4k(crate::config::AVALIABLE_MEMORY_END as u64);
    assert(end == 0x8400_0000);
    proof {
        crate::mm::address::lemma_masks(end);
        crate::mm::address::lemma_page_unshift(end);
        assert(end & 0x00FF_FFFF_FFFF_FFFF == end);
    }
    a.init(PhysPageNum::from(PhysAddr::from(ekernel)), PhysPageNum::from(PhysAddr::from(end)));
    a
}

} // verus!
