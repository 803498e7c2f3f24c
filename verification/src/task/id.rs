//! A store of small ids that are handed out and recycled.
use vstd::prelude::*;

verus! {

/// Ids `0..max_id` that are not in `avalible` are in use. When no id is
/// free the store doubles `max_id`.
pub struct IdStore {
    pub max_id: usize,
    pub avalible: Vec<usize>,
}

/// The ids of `lo..hi`, smallest last, as `init` and `enlarge` push them
/// onto the stack of free ids.
pub open spec fn ids_rev(lo: int, hi: int) -> Seq<usize>
    decreases hi - lo,
{
    if hi <= lo {
        Seq::empty()
    } else {
        seq![(hi - 1) as usize] + ids_rev(lo, hi - 1)
    }
}

/// The ids of `lo..hi`, smallest first.
pub open spec fn ids_up(lo: int, hi: int) -> Seq<usize> {
    Seq::new((if hi > lo { hi - lo } else { 0 }) as nat, |i: int| (lo + i) as usize)
}

/// What handing out `r` does to the store: the most recently freed id goes
/// out, or, with none free, the range doubles and its largest new id goes
/// out.
pub open spec fn alloc_post(a: IdStore, b: IdStore, r: usize) -> bool {
    &&& a.avalible@.len() > 0 ==> {
        &&& r == a.avalible@.last()
        &&& b.avalible@ == a.avalible@.drop_last()
        &&& b.max_id == a.max_id
    }
    &&& a.avalible@.len() == 0 ==> {
        &&& r == a.max_id * 2 - 1
        &&& b.avalible@ == ids_up(a.max_id as int, a.max_id * 2 - 1)
        &&& b.max_id == a.max_id * 2
    }
}

impl IdStore {
    /// An id can be handed out: one is free, or the range can double.
    pub open spec fn can_alloc(&self) -> bool {
        self.avalible@.len() > 0 || (0 < self.max_id && self.max_id * 2 <= usize::MAX)
    }

    /// The id that the next `alloc_avaliabe_id` hands out.
    pub open spec fn next_id(&self) -> usize {
        if self.avalible@.len() > 0 {
            self.avalible@.last()
        } else {
            (self.max_id * 2 - 1) as usize
        }
    }

    /// The ids that are in use.
    pub open spec fn in_use(&self) -> Set<usize> {
        Set::new(|id: usize| id < self.max_id && !self.avalible@.contains(id))
    }

    /// The invariant under which no id is handed out twice: every free id is
    /// below `max_id` and is listed once.
    pub open spec fn wf(&self) -> bool {
        &&& self.avalible@.no_duplicates()
        &&& forall|i: int|
            0 <= i < self.avalible@.len() ==> #[trigger] self.avalible@[i] < self.max_id
    }

    /// An empty store.
    pub fn new() -> (r: Self)
        ensures
            r.max_id == 0,
            r.avalible@ == Seq::<usize>::empty(),
            r.wf(),
    {
        Self { max_id: 0, avalible: Vec::new() }
    }

    /// Puts ids 3, 2, 1, 0 on the free stack, so that 0 comes out first,
    /// and sets `max_id` to 4.
    pub fn init(&mut self)
        ensures
            final(self).avalible@ == old(self).avalible@ + seq![3usize, 2, 1, 0],
            final(self).max_id == 4,
    {
        let ghost start = self.avalible@;
        let mut i: usize = 4;
        while i > 0
            invariant
                i <= 4,
                self.avalible@ == start + ids_rev(i as int, 4),
            decreases i,
        {
            i = i - 1;
            self.avalible.push(i);
            proof {
                assert(ids_rev(i as int, 4) =~= ids_rev(i as int + 1, 4) + seq![i]) by {
                    lemma_ids_rev_split(i as int, 4);
                }
            }
        }
        assert(ids_rev(0, 4) =~= seq![3usize, 2, 1, 0]) by {
            reveal_with_fuel(ids_rev, 5);
        }
        self.max_id = 4;
    }

    fn enlarge(&mut self)
        requires
            old(self).max_id * 2 <= usize::MAX,
        ensures
            final(self).max_id == old(self).max_id * 2,
            final(self).avalible@ == old(self).avalible@ + ids_up(
                old(self).max_id as int,
                old(self).max_id * 2,
            ),
    {
        let cur = self.max_id;
        self.max_id = cur * 2;
        let ghost start = self.avalible@;
        let mut i: usize = cur;
        while i < self.max_id
            invariant
                cur <= i <= self.max_id,
                self.max_id == cur * 2,
                self.avalible@ == start + ids_up(cur as int, i as int),
            decreases self.max_id - i,
        {
            self.avalible.push(i);
            proof {
                assert(ids_up(cur as int, i + 1) =~= ids_up(cur as int, i as int).push(i));
            }
            i = i + 1;
        }
    }

    /// Gives `id` back.
    pub fn recycle(&mut self, id: usize)
        ensures
            final(self).avalible@ == old(self).avalible@.push(id),
            final(self).max_id == old(self).max_id,
    {
        self.avalible.push(id)
    }

    /// Hands out the most recently freed id; when none is free, doubles the
    /// range first and hands out its largest new id.
    pub fn alloc_avaliabe_id(&mut self) -> (r: usize)
        requires
            old(self).can_alloc(),
        ensures
            r == old(self).next_id(),
            alloc_post(*old(self), *final(self), r),
    {
        if self.avalible.len() == 0 {
            self.enlarge();
            proof {
                let m = old(self).max_id as int;
                assert(self.avalible@ =~= ids_up(m, 2 * m));
                assert(ids_up(m, 2 * m).drop_last() =~= ids_up(m, 2 * m - 1));
            }
        }
        self.avalible.pop().unwrap()
    }
}

/// Splitting off the smallest id of a descending run.
pub proof fn lemma_ids_rev_split(lo: int, hi: int)
    requires
        lo < hi,
    ensures
        ids_rev(lo, hi) == ids_rev(lo + 1, hi) + seq![lo as usize],
    decreases hi - lo,
{
    if lo + 1 == hi {
        assert(ids_rev(lo + 1, hi) =~= Seq::<usize>::empty());
        assert(ids_rev(lo, lo) =~= Seq::<usize>::empty());
        assert(ids_rev(lo, hi) =~= seq![lo as usize]);
    } else {
        lemma_ids_rev_split(lo, hi - 1);
        assert(ids_rev(lo, hi) =~= seq![(hi - 1) as usize] + ids_rev(lo, hi - 1));
        assert(ids_rev(lo + 1, hi) =~= seq![(hi - 1) as usize] + ids_rev(lo + 1, hi - 1));
    }
}

/// An id handed out by a well-formed store was not in use before and is in
/// use after, and the store stays well formed.
pub proof fn lemma_alloc_fresh(a: IdStore, b: IdStore, r: usize)
    requires
        a.wf(),
        a.avalible@.len() > 0 ==> {
            &&& r == a.avalible@.last()
            &&& b.avalible@ == a.avalible@.drop_last()
            &&& b.max_id == a.max_id
        },
        a.avalible@.len() == 0 ==> {
            &&& 0 < a.max_id
            &&& r == a.max_id * 2 - 1
            &&& b.avalible@ == ids_up(a.max_id as int, a.max_id * 2 - 1)
            &&& b.max_id == a.max_id * 2
        },
    ensures
        b.wf(),
        !a.in_use().contains(r),
        b.in_use() == a.in_use().insert(r),
{
    let s = a.avalible@;
    if s.len() > 0 {
        assert(s =~= s.drop_last().push(r));
        assert(!s.drop_last().contains(r)) by {
            if s.drop_last().contains(r) {
                let k = choose|k: int| 0 <= k < s.drop_last().len() && s.drop_last()[k] == r;
                assert(s[k] == s[s.len() - 1]);
            }
        }
        assert(s[s.len() - 1] == r);
        assert forall|id: usize| b.in_use().contains(id) == a.in_use().insert(r).contains(id) by {
            if id != r {
                if s.contains(id) {
                    let k = choose|k: int| 0 <= k < s.len() && s[k] == id;
                    assert(b.avalible@[k] == id);
                }
                if b.avalible@.contains(id) {
                    let k = choose|k: int| 0 <= k < b.avalible@.len() && b.avalible@[k] == id;
                    assert(s[k] == id);
                }
            }
        }
        assert(b.in_use() =~= a.in_use().insert(r));
    } else {
        let m = a.max_id as int;
        assert forall|id: usize| b.in_use().contains(id) == a.in_use().insert(r).contains(id) by {
            if m <= id < 2 * m - 1 {
                assert(b.avalible@[id - m] == id);
            }
            if b.avalible@.contains(id) {
                let k = choose|k: int| 0 <= k < b.avalible@.len() && b.avalible@[k] == id;
            }
        }
        assert(b.in_use() =~= a.in_use().insert(r));
    }
}

/// Recycling an id that is in use frees it again, undoing its allocation.
pub proof fn lemma_recycle_frees(a: IdStore, b: IdStore, id: usize)
    requires
        a.wf(),
        a.in_use().contains(id),
        b.avalible@ == a.avalible@.push(id),
        b.max_id == a.max_id,
    ensures
        b.wf(),
        b.in_use() == a.in_use().remove(id),
{
    assert forall|x: usize| b.avalible@.contains(x) == (a.avalible@.contains(x) || x == id) by {
        if a.avalible@.contains(x) {
            let k = choose|k: int| 0 <= k < a.avalible@.len() && a.avalible@[k] == x;
            assert(b.avalible@[k] == x);
        }
        if b.avalible@.contains(x) {
            let k = choose|k: int| 0 <= k < b.avalible@.len() && b.avalible@[k] == x;
            if k < a.avalible@.len() {
                assert(a.avalible@[k] == x);
            }
        }
        if x == id {
            assert(b.avalible@[a.avalible@.len() as int] == id);
        }
    }
    assert(b.in_use() =~= a.in_use().remove(id));
}

/// A wrapper around a process id; dropping it returns the id to the pid
/// store.
pub struct IdWrapper {
    pub id: usize,
}

impl IdWrapper {
    /// Wraps `value`.
    pub fn new(value: usize) -> (r: Self)
        ensures
            r.id == value,
    {
        Self { id: value }
    }
}

} // verus!
