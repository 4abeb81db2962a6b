//! The heap allocator: first fit on the free list, bump allocation from the
//! region tail otherwise; deallocation returns the range to the free list,
//! which is kept ordered and coalesced. At all times the live allocations
//! and the free ranges of one region are pairwise disjoint.

use vstd::prelude::*;
use crate::vm::{covers, range_disjoint, range_in_region, MemRange, QuarkVM, ADDRESS_SPACE};
use crate::word::PointerType;

verus! {

/// Some free range of the region fits a request of `size` units.
pub open spec fn some_free_range_fits(pre: QuarkVM, size: u16, rg: PointerType) -> bool {
    exists|i: int|
        0 <= i < pre.free_list@.len() && (#[trigger] pre.free_list@[i]).region == rg
            && pre.free_list@[i].size >= size
}

/// The allocation was carved from the front of free range `fi`, the
/// earliest of the region that fits, and neither region grew.
pub open spec fn carved_from(
    pre: QuarkVM,
    post: QuarkVM,
    base: u16,
    size: u16,
    rg: PointerType,
    fi: int,
) -> bool {
    &&& 0 <= fi < pre.free_list@.len()
    &&& pre.free_list@[fi].region == rg
    &&& pre.free_list@[fi].size >= size
    &&& forall|k: int|
        0 <= k < fi ==> !((#[trigger] pre.free_list@[k]).region == rg && pre.free_list@[k].size
            >= size)
    &&& base == pre.free_list@[fi].base
    &&& post.free_list@ == (if pre.free_list@[fi].size == size {
        pre.free_list@.remove(fi)
    } else {
        pre.free_list@.update(
            fi,
            MemRange {
                base: (pre.free_list@[fi].base + size) as u16,
                size: (pre.free_list@[fi].size - size) as u16,
                region: rg,
            },
        )
    })
    &&& post.memory == pre.memory
    &&& post.heap == pre.heap
}

/// The region grew by exactly `size` zeroed units at its tail, whose old
/// length is the returned base, and the free list is untouched.
pub open spec fn bump_grown(
    pre: QuarkVM,
    post: QuarkVM,
    base: u16,
    size: u16,
    rg: PointerType,
) -> bool {
    &&& base as int == pre.region_len(rg)
    &&& post.free_list == pre.free_list
    &&& post.region_len(rg) == pre.region_len(rg) + size
    &&& (rg == PointerType::RawPointer ==> forall|j: int|
        pre.memory@.len() <= j < post.memory@.len() ==> (#[trigger] post.memory@[j]) == 0)
    &&& (rg == PointerType::StackValuesPointer ==> forall|j: int|
        pre.heap@.len() <= j < post.heap@.len() ==> (#[trigger] post.heap@[j])
            == crate::word::StackValues::U16(0))
}

/// The allocator's policy: first fit on the free list, carving the request
/// from the front of the earliest fitting range; bump growth at the
/// region's tail only when no free range fits.
pub open spec fn alloc_policy(
    pre: QuarkVM,
    post: QuarkVM,
    base: u16,
    size: u16,
    rg: PointerType,
) -> bool {
    if some_free_range_fits(pre, size, rg) {
        exists|fi: int| carved_from(pre, post, base, size, rg, fi)
    } else {
        bump_grown(pre, post, base, size, rg)
    }
}

impl QuarkVM {
    /// How far a region has grown, in its own units.
    pub open spec fn region_len(self, region: PointerType) -> int {
        match region {
            PointerType::RawPointer => self.memory@.len() as int,
            PointerType::StackValuesPointer => self.heap@.len() as int,
        }
    }

    /// An allocation request can be met: some free range of the region is
    /// large enough, or the region can still grow by `size` units.
    pub open spec fn can_allocate(self, size: u16, region: PointerType) -> bool {
        ||| exists|i: int|
            0 <= i < self.free_list@.len() && (#[trigger] self.free_list@[i]).region == region
                && self.free_list@[i].size >= size
        ||| self.region_len(region) + size <= ADDRESS_SPACE
    }

    /// Fields never touched by the allocator.
    pub open spec fn non_heap_fields_unchanged(self, other: Self) -> bool {
        &&& self.stack == other.stack
        &&& self.constant_pools == other.constant_pools
        &&& self.call_stack == other.call_stack
        &&& self.pc == other.pc
        &&& self.running == other.running
        &&& self.instructions == other.instructions
        &&& self.fd_table == other.fd_table
        &&& self.dll_count == other.dll_count
    }

    /// Allocate `size` units in the given region: the first free range that
    /// fits is carved from the front, and failing that the region grows at
    /// its tail. The new allocation is recorded in the allocation table and
    /// its base returned; the request fails only when no free range fits and
    /// the region's 16-bit address space is exhausted.
    #[verifier::rlimit(50)]
    pub fn allocate(&mut self, size: u16, pointer_type: PointerType) -> (r: Result<u16, ()>)
        requires
            old(self).wf(),
            size >= 1,
        ensures
            final(self).wf(),
            final(self).non_heap_fields_unchanged(*old(self)),
            old(self).memory@.is_prefix_of(final(self).memory@),
            old(self).heap@.is_prefix_of(final(self).heap@),
            pointer_type == PointerType::RawPointer ==> final(self).heap == old(self).heap,
            pointer_type == PointerType::StackValuesPointer ==> final(self).memory == old(
                self,
            ).memory,
            r is Ok <==> old(self).can_allocate(size, pointer_type),
            match r {
                Ok(base) => {
                    &&& final(self).allocated_memory@ == old(self).allocated_memory@.push(
                        MemRange { base, size, region: pointer_type },
                    )
                    &&& base + size <= final(self).region_len(pointer_type)
                    &&& forall|a: int, rg: PointerType|
                        covers(final(self).free_list@, a, rg) ==> covers(
                            old(self).free_list@,
                            a,
                            rg,
                        )
                    &&& alloc_policy(*old(self), *final(self), base, size, pointer_type)
                },
                Err(()) => {
                    &&& final(self).allocated_memory == old(self).allocated_memory
                    &&& final(self).free_list == old(self).free_list
                    &&& final(self).memory == old(self).memory
                    &&& final(self).heap == old(self).heap
                },
            },
    {
        let ghost pre = *self;
        let mut i: usize = 0;
        while i < self.free_list.len()
            invariant
                *self == pre,
                pre == *old(self),
                pre.wf(),
                size >= 1,
                i <= pre.free_list@.len(),
                forall|k: int|
                    0 <= k < i ==> !((#[trigger] pre.free_list@[k]).region == pointer_type
                        && pre.free_list@[k].size >= size),
            decreases pre.free_list@.len() - i,
        {
            let e = self.free_list[i];
            if e.region == pointer_type && e.size >= size {
                let base = e.base;
                proof {
                    let na = pre.allocated_memory@.len() as int;
                    assert(pre.entries()[na + i] == e);
                    assert(range_in_region(pre.entries()[na + i], pre.memory@.len() as int, pre.heap@.len() as int));
                    assert(base + e.size <= ADDRESS_SPACE);
                }
                let ghost newr = MemRange { base, size, region: pointer_type };
                if e.size == size {
                    self.free_list.remove(i);
                } else {
                    self.free_list[i] = MemRange {
                        base: base + size,
                        size: e.size - size,
                        region: pointer_type,
                    };
                }
                self.allocated_memory.push(MemRange { base, size, region: pointer_type });
                proof {
                    let post = *self;
                    let oldent = pre.entries();
                    let newent = post.entries();
                    let na = pre.allocated_memory@.len() as int;
                    let fi = i as int;
                    // Each new entry lies within some old entry's range.
                    assert forall|k: int| 0 <= k < newent.len() implies range_in_region(
                        #[trigger] newent[k],
                        post.memory@.len() as int,
                        post.heap@.len() as int,
                    ) && newent[k].size >= 1 by {
                        if k < na {
                            assert(newent[k] == oldent[k]);
                        } else if k == na {
                            assert(newent[k] == newr);
                            assert(range_in_region(oldent[na + fi], pre.memory@.len() as int, pre.heap@.len() as int));
                        } else {
                            if pre.free_list@[fi].size == size {
                                let kk = if k - na - 1 < fi { k - na - 1 } else { k - na };
                                assert(newent[k] == oldent[na + kk]);
                            } else {
                                if k - na - 1 == fi {
                                    assert(range_in_region(oldent[na + fi], pre.memory@.len() as int, pre.heap@.len() as int));
                                } else {
                                    assert(newent[k] == oldent[k - 1]);
                                }
                            }
                        }
                    }
                    // Map each new entry to the old range that contains it.
                    assert forall|k: int, l: int| 0 <= k < l < newent.len() implies range_disjoint(
                        #[trigger] newent[k],
                        #[trigger] newent[l],
                    ) by {
                        lemma_alloc_entry_containment(pre, post, newr, fi, k);
                        lemma_alloc_entry_containment(pre, post, newr, fi, l);
                        let ko = alloc_entry_origin(pre, newr, fi, k);
                        let lo = alloc_entry_origin(pre, newr, fi, l);
                        if ko != lo {
                            assert(range_disjoint(oldent[ko], oldent[lo]));
                        }
                    }
                    assert(post.mem_wf()) by {
                        assert forall|k: int, l: int|
                            0 <= k < l < post.free_list@.len() && (#[trigger] post.free_list@[k]).region
                                == (#[trigger] post.free_list@[l]).region implies post.free_list@[k].base
                            + post.free_list@[k].size <= post.free_list@[l].base by {
                            lemma_free_order_after_carve(pre, post, fi, size, k, l);
                        }
                    }
                    assert forall|a: int, rg: PointerType|
                        covers(post.free_list@, a, rg) implies covers(pre.free_list@, a, rg) by {
                        let k = choose|k: int|
                            0 <= k < post.free_list@.len() && (#[trigger] post.free_list@[k]).region == rg
                                && post.free_list@[k].base <= a < post.free_list@[k].base
                                + post.free_list@[k].size;
                        if pre.free_list@[fi].size == size {
                            let kk = if k < fi { k } else { k + 1 };
                            assert(pre.free_list@[kk].region == rg && pre.free_list@[kk].base <= a
                                < pre.free_list@[kk].base + pre.free_list@[kk].size);
                        } else {
                            if k == fi {
                                assert(pre.free_list@[fi].region == rg && pre.free_list@[fi].base <= a
                                    < pre.free_list@[fi].base + pre.free_list@[fi].size);
                            } else {
                                assert(pre.free_list@[k].region == rg && pre.free_list@[k].base <= a
                                    < pre.free_list@[k].base + pre.free_list@[k].size);
                            }
                        }
                    }
                }
                proof {
                    let fi = i as int;
                    if pre.free_list@[fi].size == size {
                        assert(self.free_list@ =~= pre.free_list@.remove(fi));
                    } else {
                        assert(self.free_list@ =~= pre.free_list@.update(
                            fi,
                            MemRange {
                                base: (pre.free_list@[fi].base + size) as u16,
                                size: (pre.free_list@[fi].size - size) as u16,
                                region: pointer_type,
                            },
                        ));
                    }
                    assert(carved_from(pre, *self, base, size, pointer_type, fi));
                    assert(alloc_policy(pre, *self, base, size, pointer_type));
                }
                return Ok(base);
            }
            i = i + 1;
        }
        let start: usize = match pointer_type {
            PointerType::RawPointer => self.memory.len(),
            PointerType::StackValuesPointer => self.heap.len(),
        };
        if ADDRESS_SPACE - start < size as usize {
            return Err(());
        }
        let mut j: u16 = 0;
        match pointer_type {
            PointerType::RawPointer => {
                while j < size
                    invariant
                        j <= size,
                        self.memory@.len() == start + j,
                        start + size <= ADDRESS_SPACE,
                        self.heap == pre.heap,
                        self.free_list == pre.free_list,
                        self.allocated_memory == pre.allocated_memory,
                        self.non_heap_fields_unchanged(pre),
                        self.byte_code_file == pre.byte_code_file,
                        pre.memory@.is_prefix_of(self.memory@),
                        forall|m: int|
                            start <= m < self.memory@.len() ==> (#[trigger] self.memory@[m]) == 0,
                    decreases size - j,
                {
                    self.memory.push(0);
                    j = j + 1;
                }
            },
            PointerType::StackValuesPointer => {
                while j < size
                    invariant
                        j <= size,
                        self.heap@.len() == start + j,
                        start + size <= ADDRESS_SPACE,
                        self.memory == pre.memory,
                        self.free_list == pre.free_list,
                        self.allocated_memory == pre.allocated_memory,
                        self.non_heap_fields_unchanged(pre),
                        self.byte_code_file == pre.byte_code_file,
                        pre.heap@.is_prefix_of(self.heap@),
                        forall|m: int|
                            start <= m < self.heap@.len() ==> (#[trigger] self.heap@[m])
                                == crate::word::StackValues::U16(0),
                    decreases size - j,
                {
                    self.heap.push(crate::word::StackValues::U16(0));
                    j = j + 1;
                }
            },
        }
        let base = start as u16;
        let ghost newr = MemRange { base, size, region: pointer_type };
        self.allocated_memory.push(MemRange { base, size, region: pointer_type });
        proof {
            let post = *self;
            let oldent = pre.entries();
            let newent = post.entries();
            let na = pre.allocated_memory@.len() as int;
            assert(newent =~= oldent.insert(na, newr));
            assert forall|k: int| 0 <= k < newent.len() implies range_in_region(
                #[trigger] newent[k],
                post.memory@.len() as int,
                post.heap@.len() as int,
            ) && newent[k].size >= 1 by {
                if k != na {
                    let ko = if k < na { k } else { k - 1 };
                    assert(newent[k] == oldent[ko]);
                    assert(range_in_region(oldent[ko], pre.memory@.len() as int, pre.heap@.len() as int));
                }
            }
            assert forall|k: int, l: int| 0 <= k < l < newent.len() implies range_disjoint(
                #[trigger] newent[k],
                #[trigger] newent[l],
            ) by {
                if k == na || l == na {
                    let other = if k == na { l } else { k };
                    let oo = if other < na { other } else { other - 1 };
                    assert(newent[other] == oldent[oo]);
                    assert(range_in_region(oldent[oo], pre.memory@.len() as int, pre.heap@.len() as int));
                } else {
                    let ko = if k < na { k } else { k - 1 };
                    let lo = if l < na { l } else { l - 1 };
                    assert(newent[k] == oldent[ko]);
                    assert(newent[l] == oldent[lo]);
                    assert(range_disjoint(oldent[ko], oldent[lo]));
                }
            }
            assert(post.free_list@ == pre.free_list@);
            assert(!some_free_range_fits(pre, size, pointer_type));
            assert(bump_grown(pre, post, base, size, pointer_type));
            assert(alloc_policy(pre, post, base, size, pointer_type));
        }
        Ok(base)
    }

    /// Return the freed range to the free list, inserted at its ordered
    /// place within its region.
    #[verifier::rlimit(50)]
    fn insert_free_range(&mut self, e: MemRange)
        requires
            old(self).wf(),
            e.size >= 1,
            range_in_region(e, old(self).memory@.len() as int, old(self).heap@.len() as int),
            forall|k: int|
                0 <= k < old(self).entries().len() ==> range_disjoint(
                    #[trigger] old(self).entries()[k],
                    e,
                ),
        ensures
            final(self).wf(),
            final(self).non_heap_fields_unchanged(*old(self)),
            final(self).memory == old(self).memory,
            final(self).heap == old(self).heap,
            final(self).allocated_memory == old(self).allocated_memory,
            forall|a: int, rg: PointerType|
                covers(final(self).free_list@, a, rg) <==> covers(old(self).free_list@, a, rg)
                    || (rg == e.region && e.base <= a < e.base + e.size),
    {
        let ghost pre = *self;
        let mut j: usize = 0;
        let mut stop = false;
        while j < self.free_list.len() && !stop
            invariant
                *self == pre,
                pre == *old(self),
                pre.wf(),
                j <= pre.free_list@.len(),
                forall|k: int|
                    0 <= k < j ==> !((#[trigger] pre.free_list@[k]).region == e.region
                        && pre.free_list@[k].base > e.base),
                stop ==> j < pre.free_list@.len() && pre.free_list@[j as int].region == e.region
                    && pre.free_list@[j as int].base > e.base,
            decreases pre.free_list@.len() - j + (if stop { 0int } else { 1int }),
        {
            let f = self.free_list[j];
            if f.region == e.region && f.base > e.base {
                stop = true;
            } else {
                j = j + 1;
            }
        }
        self.free_list.insert(j, e);
        proof {
            lemma_insert_free_wf(pre, *self, e, j as int);
            let post = *self;
            assert forall|a: int, rg: PointerType|
                covers(post.free_list@, a, rg) <==> covers(pre.free_list@, a, rg) || (rg
                    == e.region && e.base <= a < e.base + e.size) by {
                let jj = j as int;
                if covers(post.free_list@, a, rg) {
                    let k = choose|k: int|
                        0 <= k < post.free_list@.len() && (#[trigger] post.free_list@[k]).region
                            == rg && post.free_list@[k].base <= a < post.free_list@[k].base
                            + post.free_list@[k].size;
                    if k != jj {
                        let ko = if k < jj { k } else { k - 1 };
                        assert(post.free_list@[k] == pre.free_list@[ko]);
                        assert(covers(pre.free_list@, a, rg));
                    }
                }
                if covers(pre.free_list@, a, rg) {
                    let k = choose|k: int|
                        0 <= k < pre.free_list@.len() && (#[trigger] pre.free_list@[k]).region
                            == rg && pre.free_list@[k].base <= a < pre.free_list@[k].base
                            + pre.free_list@[k].size;
                    let kn = if k < jj { k } else { k + 1 };
                    assert(post.free_list@[kn] == pre.free_list@[k]);
                    assert(covers(post.free_list@, a, rg));
                }
                if rg == e.region && e.base <= a < e.base + e.size {
                    assert(post.free_list@[jj] == e);
                    assert(covers(post.free_list@, a, rg));
                }
            }
        }
    }

    /// Merge list-adjacent free ranges of one region whose ends meet. The
    /// set of free addresses is unchanged, and no overlap can arise.
    #[verifier::rlimit(50)]
    fn coalesce_free_list(&mut self)
        requires
            old(self).wf(),
        ensures
            final(self).wf(),
            final(self).non_heap_fields_unchanged(*old(self)),
            final(self).memory == old(self).memory,
            final(self).heap == old(self).heap,
            final(self).allocated_memory == old(self).allocated_memory,
            forall|a: int, rg: PointerType|
                covers(final(self).free_list@, a, rg) <==> covers(old(self).free_list@, a, rg),
    {
        let ghost pre = *self;
        let ghost free0 = pre.free_list@;
        let mut out: Vec<MemRange> = Vec::new();
        let mut i: usize = 0;
        while i < self.free_list.len()
            invariant
                *self == pre,
                pre == *old(self),
                pre.wf(),
                i <= free0.len(),
                free0 == pre.free_list@,
                forall|a: int, rg: PointerType|
                    covers(out@, a, rg) <==> covers(free0.take(i as int), a, rg),
                forall|k: int|
                    0 <= k < out@.len() ==> (#[trigger] out@[k]).size >= 1 && range_in_region(
                        out@[k],
                        pre.memory@.len() as int,
                        pre.heap@.len() as int,
                    ),
                forall|k: int, l: int|
                    0 <= k < l < out@.len() ==> range_disjoint(
                        #[trigger] out@[k],
                        #[trigger] out@[l],
                    ),
                forall|k: int, l: int|
                    0 <= k < l < out@.len() && (#[trigger] out@[k]).region == (
                    #[trigger] out@[l]).region ==> out@[k].base + out@[k].size <= out@[l].base,
                forall|k: int, jj: int|
                    0 <= k < out@.len() && i <= jj < free0.len() && (#[trigger] out@[k]).region
                        == (#[trigger] free0[jj]).region ==> out@[k].base + out@[k].size
                        <= free0[jj].base,
            decreases free0.len() - i,
        {
            let e = self.free_list[i];
            let merged: bool = if i + 1 < self.free_list.len() {
                let f = self.free_list[i + 1];
                f.region == e.region && e.base as usize + e.size as usize == f.base as usize
            } else {
                false
            };
            proof {
                let na = pre.allocated_memory@.len() as int;
                assert(pre.entries()[na + i] == free0[i as int]);
                assert(range_in_region(pre.entries()[na + i], pre.memory@.len() as int, pre.heap@.len() as int));
                if i + 1 < free0.len() {
                    assert(pre.entries()[na + i + 1] == free0[i as int + 1]);
                    assert(range_in_region(pre.entries()[na + i + 1], pre.memory@.len() as int, pre.heap@.len() as int));
                }
            }
            let ghost out0 = out@;
            let ghost iold = i as int;
            if merged {
                let f = self.free_list[i + 1];
                let m = MemRange { base: e.base, size: e.size + f.size, region: e.region };
                out.push(m);
                proof {
                    lemma_coalesce_step(pre, free0, out0, iold, m, 2);
                    assert(out@ == out0.push(m));
                }
                i = i + 2;
            } else {
                out.push(e);
                proof {
                    lemma_coalesce_step(pre, free0, out0, iold, e, 1);
                    assert(out@ == out0.push(e));
                }
                i = i + 1;
            }
        }
        self.free_list = out;
        proof {
            assert(free0.take(free0.len() as int) =~= free0);
            let post = *self;
            let ghost na0 = pre.allocated_memory@.len() as int;
            assert forall|k: int| 0 <= k < post.entries().len() implies range_in_region(
                #[trigger] post.entries()[k],
                post.memory@.len() as int,
                post.heap@.len() as int,
            ) && post.entries()[k].size >= 1 by {
                if k < na0 {
                    assert(post.entries()[k] == pre.entries()[k]);
                    assert(range_in_region(pre.entries()[k], pre.memory@.len() as int, pre.heap@.len() as int));
                    assert(pre.entries()[k].size >= 1);
                } else {
                    assert(post.entries()[k] == out@[k - na0]);
                }
            }
            assert forall|k: int, l: int|
                0 <= k < l < post.entries().len() implies range_disjoint(
                    #[trigger] post.entries()[k],
                    #[trigger] post.entries()[l],
                ) by {
                let na = pre.allocated_memory@.len() as int;
                if l < na {
                    assert(post.entries()[k] == pre.entries()[k]);
                    assert(post.entries()[l] == pre.entries()[l]);
                } else if k >= na {
                    assert(post.entries()[k] == post.free_list@[k - na]);
                    assert(post.entries()[l] == post.free_list@[l - na]);
                } else {
                    let ar = pre.allocated_memory@[k];
                    let fr = post.free_list@[l - na];
                    assert(post.entries()[k] == ar);
                    assert(post.entries()[l] == fr);
                    assert(pre.entries()[k] == ar);
                    assert(pre.entries()[k].size >= 1);
                    assert(fr == out@[l - na]);
                    assert(fr.size >= 1);
                    if !range_disjoint(ar, fr) {
                        let a = if ar.base >= fr.base {
                            ar.base as int
                        } else {
                            fr.base as int
                        };
                        assert(ar.base <= a < ar.base + ar.size && fr.base <= a < fr.base
                            + fr.size);
                        assert(covers(post.free_list@, a, fr.region));
                        assert(covers(free0, a, fr.region));
                        let m = choose|m: int|
                            0 <= m < free0.len() && (#[trigger] free0[m]).region == fr.region
                                && free0[m].base <= a < free0[m].base + free0[m].size;
                        assert(pre.entries()[na + m] == free0[m]);
                        assert(range_disjoint(pre.entries()[k], pre.entries()[na + m]));
                        assert(false);
                    }
                }
            }
            assert(post.mem_wf());
        }
    }

    /// Remove the allocation at the given base address of the given region
    /// from the allocation table and return its range to the free list,
    /// coalescing adjacent free ranges. An address that is not the base of a
    /// live allocation leaves the machine unchanged.
    #[verifier::rlimit(50)]
    pub fn deallocate(&mut self, ptr: u16, region: PointerType) -> (found: bool)
        requires
            old(self).wf(),
        ensures
            final(self).wf(),
            final(self).non_heap_fields_unchanged(*old(self)),
            final(self).memory == old(self).memory,
            final(self).heap == old(self).heap,
            found <==> exists|i: int|
                0 <= i < old(self).allocated_memory@.len() && (
                #[trigger] old(self).allocated_memory@[i]).base == ptr
                    && old(self).allocated_memory@[i].region == region,
            !found ==> final(self).allocated_memory == old(self).allocated_memory
                && final(self).free_list == old(self).free_list,
            found ==> ({
                let i = choose|i: int|
                    0 <= i < old(self).allocated_memory@.len() && (
                    #[trigger] old(self).allocated_memory@[i]).base == ptr
                        && old(self).allocated_memory@[i].region == region;
                let e = old(self).allocated_memory@[i];
                &&& final(self).allocated_memory@ == old(self).allocated_memory@.remove(i)
                &&& forall|a: int, rg: PointerType|
                    covers(final(self).free_list@, a, rg) <==> covers(
                        old(self).free_list@,
                        a,
                        rg,
                    ) || (rg == region && e.base <= a < e.base + e.size)
            }),
    {
        let ghost pre = *self;
        let mut idx: usize = 0;
        let mut was_found = false;
        while idx < self.allocated_memory.len() && !was_found
            invariant
                *self == pre,
                pre == *old(self),
                pre.wf(),
                idx <= pre.allocated_memory@.len(),
                forall|k: int|
                    0 <= k < idx ==> !((#[trigger] pre.allocated_memory@[k]).base == ptr
                        && pre.allocated_memory@[k].region == region),
                was_found ==> idx < pre.allocated_memory@.len()
                    && pre.allocated_memory@[idx as int].base == ptr
                    && pre.allocated_memory@[idx as int].region == region,
            decreases pre.allocated_memory@.len() - idx + (if was_found { 0int } else { 1int }),
        {
            let c = self.allocated_memory[idx];
            if c.base == ptr && c.region == region {
                was_found = true;
            } else {
                idx = idx + 1;
            }
        }
        if !was_found {
            false
        } else {
            let fi = idx;
            {
                let e = self.allocated_memory.remove(fi);
                proof {
                    // the found index is the unique, hence the chosen, one
                    let i = choose|i: int|
                        0 <= i < pre.allocated_memory@.len() && (
                        #[trigger] pre.allocated_memory@[i]).base == ptr
                            && pre.allocated_memory@[i].region == region;
                    if i != fi as int {
                        assert(range_disjoint(pre.entries()[i], pre.entries()[fi as int]) || range_disjoint(pre.entries()[fi as int], pre.entries()[i]));
                        assert(pre.entries()[i] == pre.allocated_memory@[i]);
                        assert(pre.entries()[fi as int] == pre.allocated_memory@[fi as int]);
                        assert(pre.entries()[i].size >= 1);
                        assert(pre.entries()[fi as int].size >= 1);
                        assert(false);
                    }
                    // the shrunk machine still satisfies the heap invariant
                    lemma_remove_alloc_wf(pre, *self, fi as int);
                    // every remaining entry is disjoint from the removed one
                    assert forall|k: int| 0 <= k < self.entries().len() implies range_disjoint(
                        #[trigger] self.entries()[k],
                        e,
                    ) by {
                        let na = pre.allocated_memory@.len() as int;
                        let ko = if k < fi as int {
                            k
                        } else {
                            k + 1
                        };
                        assert(self.entries()[k] == pre.entries()[ko]);
                        if ko < fi as int {
                            assert(range_disjoint(pre.entries()[ko], pre.entries()[fi as int]));
                        } else {
                            assert(range_disjoint(pre.entries()[fi as int], pre.entries()[ko]));
                        }
                    }
                }
                let ghost mid = *self;
                self.insert_free_range(e);
                self.coalesce_free_list();
                true
            }
        }
    }
}

/// Removing an allocation-table entry preserves the heap invariant.
#[verifier::rlimit(50)]
proof fn lemma_remove_alloc_wf(pre: QuarkVM, post: QuarkVM, fi: int)
    requires
        pre.wf(),
        0 <= fi < pre.allocated_memory@.len(),
        post.allocated_memory@ == pre.allocated_memory@.remove(fi),
        post.free_list@ == pre.free_list@,
        post.memory == pre.memory,
        post.heap == pre.heap,
        post.stack == pre.stack,
        post.constant_pools == pre.constant_pools,
        post.instructions == pre.instructions,
    ensures
        post.wf(),
{
    let na = pre.allocated_memory@.len() as int;
    assert forall|k: int| 0 <= k < post.entries().len() implies range_in_region(
        #[trigger] post.entries()[k],
        post.memory@.len() as int,
        post.heap@.len() as int,
    ) && post.entries()[k].size >= 1 by {
        let ko = if k < fi {
            k
        } else {
            k + 1
        };
        assert(post.entries()[k] == pre.entries()[ko]);
        assert(range_in_region(pre.entries()[ko], pre.memory@.len() as int, pre.heap@.len() as int));
    }
    assert forall|k: int, l: int| 0 <= k < l < post.entries().len() implies range_disjoint(
        #[trigger] post.entries()[k],
        #[trigger] post.entries()[l],
    ) by {
        let ko = if k < fi {
            k
        } else {
            k + 1
        };
        let lo = if l < fi {
            l
        } else {
            l + 1
        };
        assert(post.entries()[k] == pre.entries()[ko]);
        assert(post.entries()[l] == pre.entries()[lo]);
        assert(range_disjoint(pre.entries()[ko], pre.entries()[lo]));
    }
}

/// Inserting a range that is disjoint from every entry, before the first
/// free range of its region with a larger base, preserves the invariant.
#[verifier::rlimit(50)]
proof fn lemma_insert_free_wf(pre: QuarkVM, post: QuarkVM, e: MemRange, j: int)
    requires
        pre.wf(),
        e.size >= 1,
        range_in_region(e, pre.memory@.len() as int, pre.heap@.len() as int),
        forall|k: int|
            0 <= k < pre.entries().len() ==> range_disjoint(#[trigger] pre.entries()[k], e),
        0 <= j <= pre.free_list@.len(),
        forall|k: int|
            0 <= k < j ==> !((#[trigger] pre.free_list@[k]).region == e.region
                && pre.free_list@[k].base > e.base),
        j < pre.free_list@.len() ==> pre.free_list@[j].region == e.region
            && pre.free_list@[j].base > e.base,
        post.free_list@ == pre.free_list@.insert(j, e),
        post.allocated_memory@ == pre.allocated_memory@,
        post.memory == pre.memory,
        post.heap == pre.heap,
        post.stack == pre.stack,
        post.constant_pools == pre.constant_pools,
        post.instructions == pre.instructions,
    ensures
        post.wf(),
{
    let na = pre.allocated_memory@.len() as int;
    let nf = pre.free_list@.len() as int;
    let pos = na + j;
    assert(post.entries() =~= pre.entries().insert(pos, e));
    assert forall|k: int| 0 <= k < post.entries().len() implies range_in_region(
        #[trigger] post.entries()[k],
        post.memory@.len() as int,
        post.heap@.len() as int,
    ) && post.entries()[k].size >= 1 by {
        if k != pos {
            let ko = if k < pos {
                k
            } else {
                k - 1
            };
            assert(post.entries()[k] == pre.entries()[ko]);
            assert(range_in_region(pre.entries()[ko], pre.memory@.len() as int, pre.heap@.len() as int));
            assert(pre.entries()[ko].size >= 1);
        }
    }
    assert forall|k: int, l: int| 0 <= k < l < post.entries().len() implies range_disjoint(
        #[trigger] post.entries()[k],
        #[trigger] post.entries()[l],
    ) by {
        if k == pos || l == pos {
            let other = if k == pos {
                l
            } else {
                k
            };
            let oo = if other < pos {
                other
            } else {
                other - 1
            };
            assert(post.entries()[other] == pre.entries()[oo]);
            assert(range_disjoint(pre.entries()[oo], e));
        } else {
            let ko = if k < pos {
                k
            } else {
                k - 1
            };
            let lo = if l < pos {
                l
            } else {
                l - 1
            };
            assert(post.entries()[k] == pre.entries()[ko]);
            assert(post.entries()[l] == pre.entries()[lo]);
            if ko < lo {
                assert(range_disjoint(pre.entries()[ko], pre.entries()[lo]));
            } else {
                assert(range_disjoint(pre.entries()[lo], pre.entries()[ko]));
            }
        }
    }
    assert forall|k: int, l: int|
        0 <= k < l < post.free_list@.len() && (#[trigger] post.free_list@[k]).region == (
        #[trigger] post.free_list@[l]).region implies post.free_list@[k].base
        + post.free_list@[k].size <= post.free_list@[l].base by {
        let pf = pre.free_list@;
        if k == j {
            // e before the first same-region entry with a larger base
            let lo = l - 1;
            assert(post.free_list@[l] == pf[lo]);
            if lo >= j && j < nf {
                if lo == j {
                    assert(pf[j].base > e.base);
                    assert(pre.entries()[na + j] == pf[j]);
                    assert(range_disjoint(pre.entries()[na + j], e));
                } else {
                    assert(pf[j].base + pf[j].size <= pf[lo].base);
                    assert(pf[j].base > e.base);
                    assert(pre.entries()[na + j] == pf[j]);
                    assert(range_disjoint(pre.entries()[na + j], e));
                }
            }
        } else if l == j {
            let ko = k;
            assert(post.free_list@[k] == pf[ko]);
            // a same-region entry before the insertion point has a smaller
            // base, and is disjoint from e, so it ends before e begins
            assert(pf[ko].base <= e.base);
            assert(pre.entries()[na + ko] == pf[ko]);
            assert(range_disjoint(pre.entries()[na + ko], e));
        } else {
            let ko = if k < j {
                k
            } else {
                k - 1
            };
            let lo = if l < j {
                l
            } else {
                l - 1
            };
            assert(post.free_list@[k] == pf[ko]);
            assert(post.free_list@[l] == pf[lo]);
            assert(pf[ko].base + pf[ko].size <= pf[lo].base);
        }
    }
}

/// One step of the coalescing pass keeps every invariant of the output list
/// and accounts for exactly the consumed input ranges.
#[verifier::rlimit(50)]
proof fn lemma_coalesce_step(
    pre: QuarkVM,
    free0: Seq<MemRange>,
    out0: Seq<MemRange>,
    i: int,
    e: MemRange,
    took: int,
)
    requires
        pre.wf(),
        free0 == pre.free_list@,
        0 <= i,
        i + took <= free0.len(),
        took == 1 || took == 2,
        took == 1 ==> e == free0[i],
        took == 2 ==> free0[i + 1].region == free0[i].region && free0[i].base + free0[i].size
            == free0[i + 1].base && e == (MemRange {
            base: free0[i].base,
            size: (free0[i].size + free0[i + 1].size) as u16,
            region: free0[i].region,
        }),
        forall|a: int, rg: PointerType|
            covers(out0, a, rg) <==> covers(free0.take(i), a, rg),
        forall|k: int|
            0 <= k < out0.len() ==> (#[trigger] out0[k]).size >= 1 && range_in_region(
                out0[k],
                pre.memory@.len() as int,
                pre.heap@.len() as int,
            ),
        forall|k: int, l: int|
            0 <= k < l < out0.len() ==> range_disjoint(#[trigger] out0[k], #[trigger] out0[l]),
        forall|k: int, l: int|
            0 <= k < l < out0.len() && (#[trigger] out0[k]).region == (#[trigger] out0[l]).region
                ==> out0[k].base + out0[k].size <= out0[l].base,
        forall|k: int, jj: int|
            0 <= k < out0.len() && i <= jj < free0.len() && (#[trigger] out0[k]).region == (
            #[trigger] free0[jj]).region ==> out0[k].base + out0[k].size <= free0[jj].base,
    ensures
        forall|a: int, rg: PointerType|
            covers(out0.push(e), a, rg) <==> covers(free0.take(i + took), a, rg),
        forall|k: int|
            0 <= k < out0.push(e).len() ==> (#[trigger] out0.push(e)[k]).size >= 1
                && range_in_region(
                out0.push(e)[k],
                pre.memory@.len() as int,
                pre.heap@.len() as int,
            ),
        forall|k: int, l: int|
            0 <= k < l < out0.push(e).len() ==> range_disjoint(
                #[trigger] out0.push(e)[k],
                #[trigger] out0.push(e)[l],
            ),
        forall|k: int, l: int|
            0 <= k < l < out0.push(e).len() && (#[trigger] out0.push(e)[k]).region == (
            #[trigger] out0.push(e)[l]).region ==> out0.push(e)[k].base + out0.push(e)[k].size
                <= out0.push(e)[l].base,
        forall|k: int, jj: int|
            0 <= k < out0.push(e).len() && i + took <= jj < free0.len() && (
            #[trigger] out0.push(e)[k]).region == (#[trigger] free0[jj]).region ==> out0.push(
                e,
            )[k].base + out0.push(e)[k].size <= free0[jj].base,
{
    let na = pre.allocated_memory@.len() as int;
    let out1 = out0.push(e);
    assert(pre.entries()[na + i] == free0[i]);
    assert(range_in_region(free0[i], pre.memory@.len() as int, pre.heap@.len() as int));
    assert(free0[i].size >= 1);
    if took == 2 {
        assert(pre.entries()[na + i + 1] == free0[i + 1]);
        assert(range_in_region(free0[i + 1], pre.memory@.len() as int, pre.heap@.len() as int));
        assert(free0[i + 1].size >= 1);
    }
    // coverage of the new entry equals coverage of the consumed inputs
    assert forall|a: int, rg: PointerType|
        covers(out1, a, rg) <==> covers(free0.take(i + took), a, rg) by {
        if covers(out1, a, rg) {
            let k = choose|k: int|
                0 <= k < out1.len() && (#[trigger] out1[k]).region == rg && out1[k].base <= a
                    < out1[k].base + out1[k].size;
            if k < out0.len() {
                assert(out1[k] == out0[k]);
                assert(covers(out0, a, rg));
                assert(covers(free0.take(i), a, rg));
                let m = choose|m: int|
                    0 <= m < free0.take(i).len() && (#[trigger] free0.take(i)[m]).region == rg
                        && free0.take(i)[m].base <= a < free0.take(i)[m].base + free0.take(
                        i,
                    )[m].size;
                assert(free0.take(i + took)[m] == free0.take(i)[m]);
                assert(covers(free0.take(i + took), a, rg));
            } else {
                if took == 1 {
                    assert(free0.take(i + 1)[i] == free0[i]);
                    assert(covers(free0.take(i + took), a, rg));
                } else {
                    if a < free0[i].base + free0[i].size {
                        assert(free0.take(i + 2)[i] == free0[i]);
                    } else {
                        assert(free0.take(i + 2)[i + 1] == free0[i + 1]);
                    }
                    assert(covers(free0.take(i + took), a, rg));
                }
            }
        }
        if covers(free0.take(i + took), a, rg) {
            let m = choose|m: int|
                0 <= m < free0.take(i + took).len() && (#[trigger] free0.take(i + took)[m]).region
                    == rg && free0.take(i + took)[m].base <= a < free0.take(i + took)[m].base
                    + free0.take(i + took)[m].size;
            if m < i {
                assert(free0.take(i)[m] == free0[m]);
                assert(covers(free0.take(i), a, rg));
                assert(covers(out0, a, rg));
                let k = choose|k: int|
                    0 <= k < out0.len() && (#[trigger] out0[k]).region == rg && out0[k].base <= a
                        < out0[k].base + out0[k].size;
                assert(out1[k] == out0[k]);
                assert(covers(out1, a, rg));
            } else {
                assert(out1[out0.len() as int] == e);
                assert(covers(out1, a, rg));
            }
        }
    }
    // the new entry is disjoint from, and ordered after, everything in out0
    assert forall|k: int| 0 <= k < out0.len() && (#[trigger] out0[k]).region == e.region
        implies out0[k].base + out0[k].size <= e.base by {
        assert(free0[i].region == e.region);
    }
    assert forall|k: int| 0 <= k < out0.len() implies range_disjoint(
        #[trigger] out0[k],
        e,
    ) by {
        if out0[k].region == e.region {
            assert(out0[k].base + out0[k].size <= e.base);
        }
    }
    // order against the remaining inputs
    assert forall|jj: int|
        i + took <= jj < free0.len() && (#[trigger] free0[jj]).region == e.region implies e.base
        + e.size <= free0[jj].base by {
        if took == 1 {
            assert(free0[i].base + free0[i].size <= free0[jj].base);
        } else {
            assert(free0[i + 1].base + free0[i + 1].size <= free0[jj].base);
        }
    }
}

/// The old-entry index that a post-carve entry at index `k` came from.
spec fn alloc_entry_origin(pre: QuarkVM, newr: MemRange, fi: int, k: int) -> int {
    let na = pre.allocated_memory@.len() as int;
    if k < na {
        k
    } else if k == na {
        na + fi
    } else {
        if pre.free_list@[fi].size == newr.size {
            if k - na - 1 < fi {
                k - 1
            } else {
                k
            }
        } else {
            k - 1
        }
    }
}

/// After carving `newr` from free entry `fi`, every entry of the new tables
/// lies within the old entry it came from.
proof fn lemma_alloc_entry_containment(pre: QuarkVM, post: QuarkVM, newr: MemRange, fi: int, k: int)
    requires
        pre.wf(),
        0 <= fi < pre.free_list@.len(),
        pre.free_list@[fi].base + pre.free_list@[fi].size <= ADDRESS_SPACE,
        pre.free_list@[fi].region == newr.region,
        pre.free_list@[fi].size >= newr.size,
        newr.size >= 1,
        newr.base == pre.free_list@[fi].base,
        post.allocated_memory@ == pre.allocated_memory@.push(newr),
        post.free_list@ == if pre.free_list@[fi].size == newr.size {
            pre.free_list@.remove(fi)
        } else {
            pre.free_list@.update(
                fi,
                MemRange {
                    base: (newr.base + newr.size) as u16,
                    size: (pre.free_list@[fi].size - newr.size) as u16,
                    region: newr.region,
                },
            )
        },
        0 <= k < post.entries().len(),
    ensures
        ({
            let o = alloc_entry_origin(pre, newr, fi, k);
            let oldent = pre.entries();
            let newent = post.entries();
            &&& 0 <= o < oldent.len()
            &&& newent[k].region == oldent[o].region
            &&& oldent[o].base <= newent[k].base
            &&& newent[k].base + newent[k].size <= oldent[o].base + oldent[o].size
        }),
{
    let na = pre.allocated_memory@.len() as int;
    let oldent = pre.entries();
    let newent = post.entries();
    if k < na {
        assert(newent[k] == oldent[k]);
    } else if k == na {
        assert(newent[k] == newr);
    } else {
        if pre.free_list@[fi].size == newr.size {
            if k - na - 1 < fi {
                assert(newent[k] == pre.free_list@[k - na - 1]);
                assert(oldent[k - 1] == pre.free_list@[k - na - 1]);
            } else {
                assert(newent[k] == pre.free_list@[k - na]);
                assert(oldent[k] == pre.free_list@[k - na]);
            }
        } else {
            if k - na - 1 == fi {
                assert(newent[k] == post.free_list@[fi]);
                assert(oldent[k - 1] == pre.free_list@[fi]);
            } else {
                assert(newent[k] == pre.free_list@[k - na - 1]);
                assert(oldent[k - 1] == pre.free_list@[k - na - 1]);
            }
        }
    }
}

/// Carving from a free entry keeps the free list ordered by base within
/// each region.
proof fn lemma_free_order_after_carve(
    pre: QuarkVM,
    post: QuarkVM,
    fi: int,
    size: u16,
    k: int,
    l: int,
)
    requires
        pre.wf(),
        0 <= fi < pre.free_list@.len(),
        pre.free_list@[fi].base + pre.free_list@[fi].size <= ADDRESS_SPACE,
        pre.free_list@[fi].size >= size,
        size >= 1,
        post.free_list@ == if pre.free_list@[fi].size == size {
            pre.free_list@.remove(fi)
        } else {
            pre.free_list@.update(
                fi,
                MemRange {
                    base: (pre.free_list@[fi].base + size) as u16,
                    size: (pre.free_list@[fi].size - size) as u16,
                    region: pre.free_list@[fi].region,
                },
            )
        },
        0 <= k < l < post.free_list@.len(),
        post.free_list@[k].region == post.free_list@[l].region,
    ensures
        post.free_list@[k].base + post.free_list@[k].size <= post.free_list@[l].base,
{
    let pf = pre.free_list@;
    if pf[fi].size == size {
        let ko = if k < fi { k } else { k + 1 };
        let lo = if l < fi { l } else { l + 1 };
        assert(post.free_list@[k] == pf[ko]);
        assert(post.free_list@[l] == pf[lo]);
        assert(pf[ko].region == pf[lo].region);
        assert(pf[ko].base + pf[ko].size <= pf[lo].base);
    } else {
        let ke = post.free_list@[k];
        let le = post.free_list@[l];
        if k == fi {
            assert(le == pf[l]);
            assert(pf[fi].region == pf[l].region);
            assert(pf[fi].base + pf[fi].size <= pf[l].base);
        } else if l == fi {
            assert(ke == pf[k]);
            assert(pf[k].region == pf[fi].region);
            assert(pf[k].base + pf[k].size <= pf[fi].base);
        } else {
            assert(ke == pf[k]);
            assert(le == pf[l]);
            assert(pf[k].region == pf[l].region);
            assert(pf[k].base + pf[k].size <= pf[l].base);
        }
    }
}

} // verus!
