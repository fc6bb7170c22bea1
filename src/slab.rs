use vstd::arithmetic::mul::lemma_mul_inequality;
use vstd::arithmetic::div_mod::lemma_div_multiples_vanish;
use vstd::prelude::*;

verus! {

/// The slots `first .. first + count`.
pub open spec fn slot_range(first: int, count: int) -> Set<int> {
    Set::new(|x: int| first <= x < first + count)
}

/// A fixed-capacity allocator of equally sized elements over one region of
/// the heap. Each execution context owns its own value, so no two contexts
/// ever share a free slot.
pub struct Slab {
    element_size: u32,
    base: u32,
    capacity: u32,
    next: u32,
    free: Vec<(u32, u32)>,
    live: Ghost<Set<int>>,
}

#[derive(Clone, Copy, Debug, PartialEq, Eq)]
pub enum SlabError {
    /// Elements must occupy at least one byte.
    ZeroElementSize,
    /// The region would reach past the 32-bit address space.
    RegionTooLarge,
}

impl Slab {
    /// Heap address of the region's first byte.
    pub closed spec fn spec_base(&self) -> int {
        self.base as int
    }

    /// Size in bytes of one element.
    pub closed spec fn spec_element_size(&self) -> int {
        self.element_size as int
    }

    /// Number of elements the region holds.
    pub closed spec fn spec_capacity(&self) -> int {
        self.capacity as int
    }

    /// Number of slots ever handed out fresh: slots from here on have never
    /// been used.
    pub closed spec fn spec_next(&self) -> int {
        self.next as int
    }

    /// The runs given back and not yet reused, as (first slot, length).
    pub closed spec fn free_runs(&self) -> Seq<(u32, u32)> {
        self.free@
    }

    /// One past the last byte of the region.
    pub open spec fn region_end(&self) -> int {
        self.spec_base() + self.spec_capacity() * self.spec_element_size()
    }

    /// The slots handed out and not yet returned.
    pub closed spec fn live(&self) -> Set<int> {
        self.live@
    }

    /// Heap address of slot `slot`.
    pub open spec fn slot_address(&self, slot: int) -> int {
        self.spec_base() + slot * self.spec_element_size()
    }

    pub closed spec fn wf(&self) -> bool {
        &&& self.element_size > 0
        &&& self.base as int + self.capacity as int * self.element_size as int <= u32::MAX
        &&& self.next <= self.capacity
        &&& forall|k: int|
            0 <= k < self.free@.len() ==> #[trigger] self.free@[k].1 > 0 && self.free@[k].0 as int
                + self.free@[k].1 as int <= self.next as int
        &&& forall|k1: int, k2: int|
            0 <= k1 < self.free@.len() && 0 <= k2 < self.free@.len() && k1 != k2 ==> apart(
                #[trigger] self.free@[k1],
                #[trigger] self.free@[k2],
            )
        &&& forall|k: int, x: int|
            0 <= k < self.free@.len() && #[trigger] in_run(self.free@[k], x)
                ==> !self.live@.contains(x)
        &&& forall|x: int| #[trigger] self.live@.contains(x) ==> 0 <= x < self.next
    }
}

/// Slot `x` lies in the run of `r.1` slots that starts at slot `r.0`.
pub open spec fn in_run(r: (u32, u32), x: int) -> bool {
    r.0 <= x < r.0 + r.1
}

/// The two runs share no slot.
pub open spec fn apart(a: (u32, u32), b: (u32, u32)) -> bool {
    a.0 + a.1 <= b.0 || b.0 + b.1 <= a.0
}

/// A slab over `capacity` elements of `element_size` bytes each, starting at
/// heap address `base`, with nothing handed out yet.
pub fn derive_slab_allocated(element_size: u32, base: u32, capacity: u32) -> (r: Result<
    Slab,
    SlabError,
>)
    ensures
        match r {
            Ok(s) => {
                &&& element_size > 0
                &&& base as int + capacity as int * element_size as int <= u32::MAX
                &&& s.wf()
                &&& s.spec_base() == base
                &&& s.spec_element_size() == element_size
                &&& s.spec_capacity() == capacity
                &&& s.live() == Set::<int>::empty()
            },
            Err(SlabError::ZeroElementSize) => element_size == 0,
            Err(SlabError::RegionTooLarge) => element_size > 0 && base as int + capacity as int
                * element_size as int > u32::MAX,
        },
{
    if element_size == 0 {
        return Err(SlabError::ZeroElementSize);
    }
    proof {
        assert(capacity as int * element_size as int <= 0xffff_ffff * 0xffff_ffff) by (nonlinear_arith)
            requires
                capacity <= 0xffff_ffffu32,
                element_size <= 0xffff_ffffu32,
        ;
    }
    let bytes: u64 = capacity as u64 * element_size as u64;
    if base as u64 + bytes > u32::MAX as u64 {
        return Err(SlabError::RegionTooLarge);
    }
    Ok(
        Slab {
            element_size,
            base,
            capacity,
            next: 0,
            free: Vec::new(),
            live: Ghost(Set::empty()),
        },
    )
}

/// Isolation: two slabs over regions that do not overlap, such as the slabs
/// that separate execution contexts own, never hand out overlapping bytes: an
/// element live in one and an element live in the other are apart.
pub proof fn lemma_disjoint_regions_isolated(a: Slab, b: Slab, x: int, y: int)
    requires
        a.wf(),
        b.wf(),
        a.region_end() <= b.spec_base() || b.region_end() <= a.spec_base(),
        a.live().contains(x),
        b.live().contains(y),
    ensures
        a.slot_address(x) + a.spec_element_size() <= b.slot_address(y) || b.slot_address(y)
            + b.spec_element_size() <= a.slot_address(x),
{
    lemma_slot_in_region(a, x);
    lemma_slot_in_region(b, y);
}

/// A live element lies wholly within its slab's region.
pub proof fn lemma_slot_in_region(s: Slab, x: int)
    requires
        s.wf(),
        s.live().contains(x),
    ensures
        s.spec_base() <= s.slot_address(x),
        s.slot_address(x) + s.spec_element_size() <= s.region_end(),
{
    let e = s.spec_element_size();
    let c = s.spec_capacity();
    assert(0 <= x < c);
    assert(0 <= x * e && x * e + e <= c * e) by (nonlinear_arith)
        requires
            0 <= x < c,
            e > 0,
    ;
}

/// Distinct slots of one slab start at least one element apart, so the bytes
/// of two different elements never overlap.
pub proof fn lemma_slots_apart(slab: Slab, a: int, b: int)
    requires
        slab.spec_element_size() > 0,
        a < b,
    ensures
        slab.slot_address(a) + slab.spec_element_size() <= slab.slot_address(b),
{
    let e = slab.spec_element_size();
    assert(a * e + e <= b * e) by (nonlinear_arith)
        requires
            a < b,
            e > 0,
    ;
}

impl Slab {
    fn address(&self, slot: u32) -> (r: u32)
        requires
            self.wf(),
            slot <= self.capacity,
        ensures
            r == self.slot_address(slot as int),
    {
        proof {
            lemma_mul_inequality(slot as int, self.capacity as int, self.element_size as int);
        }
        (self.base as u64 + slot as u64 * self.element_size as u64) as u32
    }

    /// Reserves `count` contiguous elements and returns the heap address of
    /// the first; a run given back earlier is reused before fresh slots.
    /// Returns `None` for a count of zero or where no run of that length is
    /// left. The run never overlaps one that is still handed out.
    pub fn allocate(&mut self, count: u32) -> (r: Option<u32>)
        requires
            old(self).wf(),
        ensures
            final(self).wf(),
            final(self).spec_base() == old(self).spec_base(),
            final(self).spec_element_size() == old(self).spec_element_size(),
            final(self).spec_capacity() == old(self).spec_capacity(),
            match r {
                Some(addr) => exists|s: int|
                    {
                        &&& 0 <= s
                        &&& s + count <= old(self).spec_capacity()
                        &&& addr == old(self).slot_address(s)
                        &&& count > 0
                        &&& slot_range(s, count as int).disjoint(old(self).live())
                        &&& final(self).live() == old(self).live().union(slot_range(s, count as int))
                    },
                None => {
                    &&& final(self).live() == old(self).live()
                    &&& count == 0 || ((forall|k: int|
                        0 <= k < old(self).free_runs().len() ==> #[trigger] old(
                            self,
                        ).free_runs()[k].1 < count) && old(self).spec_capacity() - old(
                        self,
                    ).spec_next() < count)
                },
            },
    {
        if count == 0 {
            return None;
        }
        let n = self.free.len();
        let mut k: usize = 0;
        while k < n
            invariant
                n == self.free@.len(),
                k <= n,
                *self == *old(self),
                old(self).wf(),
                count > 0,
                forall|j: int| 0 <= j < k ==> #[trigger] old(self).free@[j].1 < count,
            decreases n - k,
        {
            let (first, avail) = self.free[k];
            if avail >= count {
                let ghost of = self.free@;
                let ghost run = of[k as int];
                proof {
                    assert(old(self).wf());
                    assert(of == old(self).free@);
                    assert(run.1 > 0);
                }
                let ghost range = slot_range(first as int, count as int);
                if avail == count {
                    self.free.remove(k);
                } else {
                    self.free.set(k, (first + count, avail - count));
                }
                self.live = Ghost(self.live@.union(range));
                proof {
                    let fr = self.free@;
                    assert forall|j: int, x: int|
                        0 <= j < fr.len() && #[trigger] in_run(fr[j], x) implies !self.live@.contains(x) by {
                        let jj = if avail == count && j >= k { j + 1 } else { j };
                        if jj != k {
                            assert(of[jj] == old(self).free@[jj]);
                            assert(apart(old(self).free@[jj], old(self).free@[k as int]));
                            assert(in_run(of[jj], x));
                        } else {
                            assert(in_run(of[k as int], x));
                        }
                    }
                    assert forall|j1: int, j2: int|
                        0 <= j1 < fr.len() && 0 <= j2 < fr.len() && j1 != j2 implies apart(
                        #[trigger] fr[j1], #[trigger] fr[j2]) by {
                        let i1 = if avail == count && j1 >= k { j1 + 1 } else { j1 };
                        let i2 = if avail == count && j2 >= k { j2 + 1 } else { j2 };
                        assert(apart(old(self).free@[i1], old(self).free@[i2]));
                    }
                    assert forall|x: int| #[trigger] self.live@.contains(x) implies 0 <= x < self.next by {
                        if range.contains(x) {
                            assert(in_run(run, x));
                        }
                    }
                    assert forall|x: int| range.contains(x) implies !old(self).live@.contains(x) by {
                        assert(in_run(of[k as int], x));
                    }
                    assert(range.disjoint(old(self).live@));
                }
                let addr = self.address(first);
                proof {
                    assert(addr == old(self).slot_address(first as int));
                    assert(first as int + count <= old(self).spec_capacity());
                }
                return Some(addr);
            }
            k = k + 1;
        }
        if count <= self.capacity - self.next {
            let first = self.next;
            let ghost range = slot_range(first as int, count as int);
            self.next = self.next + count;
            self.live = Ghost(self.live@.union(range));
            proof {
                assert(range.disjoint(old(self).live@));
                assert forall|j: int, x: int|
                    0 <= j < self.free@.len() && #[trigger] in_run(self.free@[j], x) implies !self.live@.contains(x) by {
                    assert(in_run(old(self).free@[j], x));
                }
            }
            let addr = self.address(first);
            proof {
                assert(addr == old(self).slot_address(first as int));
            }
            Some(addr)
        } else {
            None
        }
    }

    /// Gives back the run of `count` elements whose first element is at heap
    /// address `addr`, so that a later allocation may reuse it. The run must
    /// be one that is handed out: a double release is not detected.
    pub fn deallocate(&mut self, addr: u32, count: u32)
        requires
            old(self).wf(),
            exists|s: int|
                0 <= s && addr == old(self).slot_address(s) && #[trigger] slot_range(
                    s,
                    count as int,
                ).subset_of(old(self).live()),
        ensures
            final(self).wf(),
            final(self).spec_base() == old(self).spec_base(),
            final(self).spec_element_size() == old(self).spec_element_size(),
            final(self).spec_capacity() == old(self).spec_capacity(),
            forall|s: int|
                0 <= s && addr == old(self).slot_address(s) ==> final(self).live() == old(
                    self,
                ).live().difference(#[trigger] slot_range(s, count as int)),
    {
        let ghost s = choose|s: int|
            0 <= s && addr == old(self).slot_address(s) && #[trigger] slot_range(
                s,
                count as int,
            ).subset_of(old(self).live());
        proof {
            lemma_div_multiples_vanish(s, self.element_size as int);
            assert(forall|t: int|
                0 <= t && addr == old(self).slot_address(t) ==> t == s) by {
                assert forall|t: int| 0 <= t && addr == old(self).slot_address(t) implies t == s by {
                    lemma_div_multiples_vanish(t, self.element_size as int);
                    assert(t * self.element_size == self.element_size * t) by (nonlinear_arith);
                    assert(s * self.element_size == self.element_size * s) by (nonlinear_arith);
                }
            }
        }
        if count == 0 {
            proof {
                assert(old(self).live().difference(slot_range(s, 0)) =~= old(self).live());
            }
            return;
        }
        let first = (addr - self.base) / self.element_size;
        proof {
            assert(s * self.element_size == self.element_size * s) by (nonlinear_arith);
            assert(first == s);
            assert(slot_range(s, count as int).contains(s + count - 1));
            assert(old(self).live@.contains(s + count - 1));
        }
        let ghost range = slot_range(s, count as int);
        self.free.push((first, count));
        self.live = Ghost(self.live@.difference(range));
        proof {
            let fr = self.free@;
            let of = old(self).free@;
            assert forall|k1: int, k2: int|
                0 <= k1 < fr.len() && 0 <= k2 < fr.len() && k1 != k2 implies apart(
                #[trigger] fr[k1], #[trigger] fr[k2]) by {
                if k1 < of.len() && k2 < of.len() {
                    assert(fr[k1] == of[k1] && fr[k2] == of[k2]);
                } else {
                    let o = if k1 < of.len() { k1 } else { k2 };
                    let r = of[o];
                    assert(r.1 > 0);
                    if !apart(r, (first, count)) {
                        let x = if r.0 >= first { r.0 as int } else { first as int };
                        assert(in_run(r, x));
                        assert(range.contains(x));
                    }
                }
            }
            assert forall|k: int, x: int|
                0 <= k < fr.len() && #[trigger] in_run(fr[k], x) implies !self.live@.contains(x) by {
                if k < of.len() {
                    assert(fr[k] == of[k]);
                    assert(in_run(of[k], x));
                } else {
                    assert(range.contains(x));
                }
            }
        }
    }
}

} // verus!
