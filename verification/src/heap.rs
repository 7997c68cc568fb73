//! The kernel heap: small requests go to the slab allocator, larger ones (and
//! small ones it cannot serve) to the buddy allocator; addresses are virtual
//! addresses in the higher-half direct map.
use vstd::prelude::*;
use vstd::arithmetic::power2::{pow2, lemma_pow2_pos};
use vstd::bits::{lemma_usize_shl_is_mul, lemma_usize_pow2_no_overflow};
use crate::buddy::{BuddyAllocator, BuddyView, opt_nat, placed_in, init_order};
use crate::buddy::alloc_outcome as buddy_alloc_outcome;
use crate::buddy::free_outcome as buddy_free_outcome;
use crate::slab::{SlabAllocator, SlabCacheView, slab_alloc_outcome, slab_free_outcome};

verus! {

pub const PAGE_SIZE: usize = 4096;

/// Largest request the slab allocator serves.
pub const SLAB_MAX: usize = 2048;

/// One entry of the boot memory map.
#[derive(Clone, Copy)]
pub struct MemoryRegion {
    pub usable: bool,
    pub base: u64,
    pub length: u64,
}

/// The abstract state of the kernel heap.
pub struct HeapView {
    pub hhdm: nat,
    pub buddy: BuddyView,
    pub slab: Seq<SlabCacheView>,
}

/// Pages needed for `size` bytes.
pub open spec fn pages_for(size: nat) -> nat {
    (size + PAGE_SIZE - 1) as nat / (PAGE_SIZE as nat)
}

/// The least order at `o` or above whose block holds `pages` pages.
pub open spec fn order_from(pages: nat, o: nat) -> nat
    decreases 64 - o,
{
    if o >= 64 || pow2(o) >= pages {
        o
    } else {
        order_from(pages, o + 1)
    }
}

/// The least order whose block holds `pages` pages.
pub open spec fn order_for(pages: nat) -> nat {
    order_from(pages, 0)
}

/// What `kmalloc(size)` returns, the slab caches and buddy bitmap it leaves.
pub open spec fn kmalloc_outcome(h: HeapView, size: nat) -> (Option<nat>, Seq<SlabCacheView>, Seq<bool>) {
    if size == 0 {
        (None, h.slab, h.buddy.marks)
    } else {
        let (sr, sc, sm) = if size <= SLAB_MAX {
            slab_alloc_outcome(h.slab, h.buddy, size)
        } else {
            (None, h.slab, h.buddy.marks)
        };
        if sr is Some {
            (sr, sc, sm)
        } else {
            let b1 = BuddyView { marks: sm, ..h.buddy };
            let (br, bm) = buddy_alloc_outcome(b1, order_for(pages_for(size)));
            (br, sc, bm)
        }
    }
}

/// The slab caches and buddy bitmap that `kfree(addr, size)` leaves.
pub open spec fn kfree_outcome(h: HeapView, addr: nat, size: nat) -> (Seq<SlabCacheView>, Seq<bool>) {
    if addr == 0 || size == 0 {
        (h.slab, h.buddy.marks)
    } else {
        let (freed, sc, sm) = if size <= SLAB_MAX {
            slab_free_outcome(h.slab, h.buddy, addr)
        } else {
            (false, h.slab, h.buddy.marks)
        };
        if freed {
            (sc, sm)
        } else {
            (sc, buddy_free_outcome(BuddyView { marks: sm, ..h.buddy }, addr, order_for(pages_for(size))))
        }
    }
}

/// What `kmalloc_aligned(size, align)` returns and the buddy bitmap it leaves.
pub open spec fn kmalloc_aligned_outcome(h: HeapView, size: nat, align: nat) -> (Option<nat>, Seq<bool>) {
    if size == 0 {
        (None, h.buddy.marks)
    } else {
        let alloc_size = if size < align { align } else { size };
        buddy_alloc_outcome(h.buddy, order_for(pages_for(alloc_size)))
    }
}

/// Index of the largest usable region at `i` or above that is strictly larger
/// than `best_len`, scanning in order (ties keep the earlier one).
pub open spec fn best_region_from(regions: Seq<MemoryRegion>, i: nat, best: Option<nat>, best_len: nat) -> Option<nat>
    decreases regions.len() - i,
{
    if i >= regions.len() {
        best
    } else if regions[i as int].usable && regions[i as int].length > best_len {
        best_region_from(regions, i + 1, Some(i), regions[i as int].length as nat)
    } else {
        best_region_from(regions, i + 1, best, best_len)
    }
}

/// The region the heap is built on: the largest usable one (the first among
/// equals), if any has a length above zero.
pub open spec fn best_region(regions: Seq<MemoryRegion>) -> Option<nat> {
    best_region_from(regions, 0, None, 0)
}

pub struct KernelHeap {
    hhdm: u64,
    buddy: BuddyAllocator,
    slab: SlabAllocator,
}

impl View for KernelHeap {
    type V = HeapView;

    closed spec fn view(&self) -> HeapView {
        HeapView { hhdm: self.hhdm as nat, buddy: self.buddy@, slab: self.slab@ }
    }
}

/// `1 << order` is the least power of two holding `pages`, found by
/// doubling from one page.
fn order_for_pages(pages: usize) -> (r: usize)
    requires
        pages <= usize::MAX / PAGE_SIZE + 1,
    ensures
        r == order_for(pages as nat),
        r < usize::BITS,
        pow2(r as nat) >= pages,
{
    let mut order: usize = 0;
    proof {
        lemma_order_fits(pages as nat, 0);
    }
    while (1usize << order) < pages
        invariant
            order_from(pages as nat, order as nat) == order_for(pages as nat),
            order <= order_for(pages as nat),
            order_for(pages as nat) < usize::BITS,
            pow2(order_for(pages as nat)) >= pages,
        decreases order_for(pages as nat) - order,
    {
        proof {
            lemma_usize_pow2_no_overflow(order as nat);
            lemma_usize_shl_is_mul(1, order);
        }
        order += 1;
    }
    proof {
        lemma_usize_pow2_no_overflow(order as nat);
        lemma_usize_shl_is_mul(1, order);
    }
    order
}

proof fn lemma_order_fits(pages: nat, o: nat)
    requires
        pages <= usize::MAX / PAGE_SIZE + 1,
        o <= order_for(pages),
        order_from(pages, o) == order_for(pages),
    ensures
        order_for(pages) < usize::BITS,
        pow2(order_for(pages)) >= pages,
        forall|k: nat| k < order_for(pages) ==> pow2(k) < pages,
    decreases 64 - o,
{
    vstd::arithmetic::power2::lemma2_to64();
    vstd::arithmetic::power2::lemma2_to64_rest();
    lemma_order_from_shape(pages, 0);
}

/// `order_from(pages, o)` stops at the first order from `o` that holds
/// `pages` pages, which comes before 64 for any page count of the address
/// space.
proof fn lemma_order_from_shape(pages: nat, o: nat)
    requires
        pages <= usize::MAX / PAGE_SIZE + 1,
        o <= 64,
        forall|k: nat| k < o ==> pow2(k) < pages,
    ensures
        order_from(pages, o) < usize::BITS,
        pow2(order_from(pages, o)) >= pages,
        forall|k: nat| k < order_from(pages, o) ==> pow2(k) < pages,
    decreases 64 - o,
{
    vstd::arithmetic::power2::lemma2_to64();
    vstd::arithmetic::power2::lemma2_to64_rest();
    if o >= 64 || pow2(o) >= pages {
        if o >= usize::BITS {
            let top = (usize::BITS - 1) as nat;
            assert(pow2(top) < pages);
        }
    } else {
        assert forall|k: nat| k < o + 1 implies pow2(k) < pages by {
            if k < o {
            }
        }
        if o + 1 >= usize::BITS {
            assert(pow2(o) >= pages);
        }
        lemma_order_from_shape(pages, o + 1);
    }
}

impl KernelHeap {
    pub closed spec fn wf(&self) -> bool {
        self.buddy.wf() && self.slab.wf()
    }

    /// A heap over no memory.
    pub fn new() -> (r: Self)
        ensures
            r.wf(),
            r@.hhdm == 0,
            r@.buddy.total_pages == 0,
    {
        KernelHeap { hhdm: 0, buddy: BuddyAllocator::new(), slab: SlabAllocator::new() }
    }

    /// Records the direct-map offset and builds the buddy allocator on the
    /// largest usable region of the memory map; with no usable memory the
    /// allocator is left as it was.
    pub fn init(&mut self, hhdm_offset: u64, regions: &[MemoryRegion])
        requires
            old(self).wf(),
            forall|i: int|
                0 <= i < regions@.len() && (#[trigger] regions@[i]).usable ==> hhdm_offset
                    + regions@[i].base + regions@[i].length <= usize::MAX,
        ensures
            final(self).wf(),
            final(self)@.hhdm == hhdm_offset,
            final(self)@.slab == old(self)@.slab,
            best_region(regions@) is None ==> final(self)@.buddy == old(self)@.buddy,
            best_region(regions@) matches Some(i) ==> {
                &&& final(self)@.buddy.base == hhdm_offset + regions@[i as int].base
                &&& final(self)@.buddy.total_pages == regions@[i as int].length as nat / (PAGE_SIZE as nat)
                &&& final(self)@.buddy.max_order == init_order(final(self)@.buddy.total_pages)
                &&& final(self)@.buddy.marks == Seq::new(crate::buddy::BITMAP_SIZE as nat, |k: int| false)
            },
    {
        self.hhdm = hhdm_offset;
        let mut best_base: u64 = 0;
        let mut best_size: u64 = 0;
        let ghost mut best: Option<nat> = None;
        let mut i: usize = 0;
        while i < regions.len()
            invariant
                i <= regions@.len(),
                best_region_from(regions@, i as nat, best, best_size as nat) == best_region(regions@),
                best is None ==> best_size == 0,
                best matches Some(b) ==> b < regions@.len() && regions@[b as int].usable
                    && best_size == regions@[b as int].length && best_base == regions@[b as int].base
                    && best_size > 0,
            decreases regions@.len() - i,
        {
            let entry = regions[i];
            if entry.usable && entry.length > best_size {
                best_base = entry.base;
                best_size = entry.length;
                proof {
                    best = Some(i as nat);
                }
            }
            i += 1;
        }
        if best_size == 0 {
            return;
        }
        let virt_base = hhdm_offset + best_base;
        self.buddy.init(virt_base as usize, best_size as usize);
    }

    /// Allocates `size` bytes: from the slab allocator for up to 2048 bytes
    /// when it can, else a buddy block of the least order that holds them.
    pub fn kmalloc(&mut self, size: usize) -> (r: Option<usize>)
        requires
            old(self).wf(),
            size <= usize::MAX - PAGE_SIZE,
        ensures
            final(self).wf(),
            final(self)@.hhdm == old(self)@.hhdm,
            final(self)@.buddy.base == old(self)@.buddy.base,
            final(self)@.buddy.total_pages == old(self)@.buddy.total_pages,
            final(self)@.buddy.max_order == old(self)@.buddy.max_order,
            (opt_nat(r), final(self)@.slab, final(self)@.buddy.marks) == kmalloc_outcome(
                old(self)@,
                size as nat,
            ),
    {
        if size == 0 {
            return None;
        }
        if size <= SLAB_MAX {
            if let Some(ptr) = self.slab.allocate(size, &mut self.buddy) {
                return Some(ptr);
            }
        }
        let pages = (size + PAGE_SIZE - 1) / PAGE_SIZE;
        let order = order_for_pages(pages);
        self.buddy.alloc_pages(order)
    }

    /// Releases `size` bytes at `addr`: back to the slab allocator when it
    /// holds the address, else as a buddy block of the order `kmalloc` uses.
    pub fn kfree(&mut self, addr: usize, size: usize)
        requires
            old(self).wf(),
            size <= usize::MAX - PAGE_SIZE,
        ensures
            final(self).wf(),
            final(self)@.hhdm == old(self)@.hhdm,
            final(self)@.buddy.base == old(self)@.buddy.base,
            final(self)@.buddy.total_pages == old(self)@.buddy.total_pages,
            final(self)@.buddy.max_order == old(self)@.buddy.max_order,
            (final(self)@.slab, final(self)@.buddy.marks) == kfree_outcome(
                old(self)@,
                addr as nat,
                size as nat,
            ),
    {
        if addr == 0 || size == 0 {
            return;
        }
        if size <= SLAB_MAX {
            if self.slab.free(addr, &mut self.buddy) {
                return;
            }
        }
        let pages = (size + PAGE_SIZE - 1) / PAGE_SIZE;
        let order = order_for_pages(pages);
        self.buddy.free_pages(addr, order);
    }

    /// A buddy block of `2^order` pages.
    pub fn alloc_pages(&mut self, order: usize) -> (r: Option<usize>)
        requires
            old(self).wf(),
        ensures
            final(self).wf(),
            final(self)@.hhdm == old(self)@.hhdm,
            final(self)@.slab == old(self)@.slab,
            final(self)@.buddy.base == old(self)@.buddy.base,
            final(self)@.buddy.total_pages == old(self)@.buddy.total_pages,
            final(self)@.buddy.max_order == old(self)@.buddy.max_order,
            (opt_nat(r), final(self)@.buddy.marks) == buddy_alloc_outcome(old(self)@.buddy, order as nat),
            r matches Some(a) ==> placed_in(old(self)@.buddy, a as nat, order as nat),
            r matches Some(a) ==> a + pow2(order as nat) * PAGE_SIZE <= usize::MAX,
    {
        proof {
            self.buddy.lemma_wf();
        }
        self.buddy.alloc_pages(order)
    }

    /// Returns a buddy block of `2^order` pages.
    pub fn free_pages(&mut self, addr: usize, order: usize)
        requires
            old(self).wf(),
            addr >= old(self)@.buddy.base ==> order < usize::BITS,
        ensures
            final(self).wf(),
            final(self)@.hhdm == old(self)@.hhdm,
            final(self)@.slab == old(self)@.slab,
            final(self)@.buddy.base == old(self)@.buddy.base,
            final(self)@.buddy.total_pages == old(self)@.buddy.total_pages,
            final(self)@.buddy.max_order == old(self)@.buddy.max_order,
            final(self)@.buddy.marks == buddy_free_outcome(old(self)@.buddy, addr as nat, order as nat),
    {
        self.buddy.free_pages(addr, order)
    }

    pub fn total_pages(&self) -> (r: usize)
        ensures
            r == self@.buddy.total_pages,
    {
        self.buddy.total_pages()
    }

    /// Start address of the page region.
    pub fn region_base(&self) -> (r: usize)
        ensures
            r == self@.buddy.base,
    {
        self.buddy.base()
    }

    pub fn hhdm_offset(&self) -> (r: u64)
        ensures
            r == self@.hhdm,
    {
        self.hhdm
    }

    /// A buddy block holding `max(size, align)` bytes (block addresses are
    /// aligned to their size relative to the region base).
    pub fn kmalloc_aligned(&mut self, size: usize, align: usize) -> (r: Option<usize>)
        requires
            old(self).wf(),
            size <= usize::MAX - PAGE_SIZE,
            align <= usize::MAX - PAGE_SIZE,
        ensures
            final(self).wf(),
            final(self)@.hhdm == old(self)@.hhdm,
            final(self)@.slab == old(self)@.slab,
            final(self)@.buddy.base == old(self)@.buddy.base,
            final(self)@.buddy.total_pages == old(self)@.buddy.total_pages,
            final(self)@.buddy.max_order == old(self)@.buddy.max_order,
            (opt_nat(r), final(self)@.buddy.marks) == kmalloc_aligned_outcome(
                old(self)@,
                size as nat,
                align as nat,
            ),
    {
        if size == 0 {
            return None;
        }
        let alloc_size = if size < align { align } else { size };
        let pages = (alloc_size + PAGE_SIZE - 1) / PAGE_SIZE;
        let order = order_for_pages(pages);
        self.buddy.alloc_pages(order)
    }
}

/// A block of order `order_for(pages_for(size))` holds `size` bytes.
pub proof fn lemma_kmalloc_order_holds(size: nat)
    requires
        size <= usize::MAX - PAGE_SIZE,
    ensures
        pow2(order_for(pages_for(size))) * PAGE_SIZE >= size,
{
    let pages = pages_for(size);
    assert(pages <= usize::MAX / PAGE_SIZE + 1);
    lemma_order_from_shape(pages, 0);
    vstd::arithmetic::div_mod::lemma_fundamental_div_mod((size + PAGE_SIZE - 1) as int, PAGE_SIZE as int);
    vstd::arithmetic::div_mod::lemma_mod_pos_bound((size + PAGE_SIZE - 1) as int, PAGE_SIZE as int);
    assert(pow2(order_for(pages)) * PAGE_SIZE >= pages * PAGE_SIZE) by (nonlinear_arith)
        requires
            pow2(order_for(pages)) >= pages,
    ;
}

/// `vaddr - hhdm_offset` modulo 2^64.
pub open spec fn phys_of(hhdm_offset: u64, vaddr: usize) -> int {
    (vaddr as int - hhdm_offset as int) % 0x1_0000_0000_0000_0000
}

/// `hhdm_offset + phys` as a `usize`.
pub open spec fn virt_of(hhdm_offset: u64, phys: u64) -> usize {
    (hhdm_offset + phys) as usize
}

/// Physical address of a direct-map virtual address.
pub fn virt_to_phys(hhdm_offset: u64, vaddr: usize) -> (r: u64)
    ensures
        r as int == phys_of(hhdm_offset, vaddr),
{
    let v = vaddr as u64;
    let r = v.wrapping_sub(hhdm_offset);
    r
}

/// Direct-map virtual address of a physical address.
pub fn phys_to_virt_pub(hhdm_offset: u64, phys: u64) -> (r: usize)
    requires
        hhdm_offset + phys <= u64::MAX,
    ensures
        r == virt_of(hhdm_offset, phys),
{
    (hhdm_offset + phys) as usize
}

/// Mapping a physical address into the direct map and back gives it again,
/// when its direct-map address fits in a `usize`.
pub proof fn lemma_virt_phys_roundtrip(hhdm_offset: u64, phys: u64)
    requires
        hhdm_offset + phys <= usize::MAX,
    ensures
        phys_of(hhdm_offset, virt_of(hhdm_offset, phys)) == phys,
{
    assert(virt_of(hhdm_offset, phys) == hhdm_offset + phys);
}

} // verus!
