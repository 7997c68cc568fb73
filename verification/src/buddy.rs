//! Binary buddy page allocator over one contiguous region.
//!
//! Block `idx` of order `o` covers pages `idx * 2^o .. (idx + 1) * 2^o`.  Its
//! state is one bit of a shared bitmap, at position `2^o - 1 + idx`; a set bit
//! means "not free".  Positions past the end of the bitmap read as set and
//! are never written.
use vstd::prelude::*;
use vstd::arithmetic::power2::{pow2, lemma_pow2_pos, lemma_pow2_adds, lemma_pow2_unfold};
use vstd::arithmetic::div_mod::{lemma_fundamental_div_mod, lemma_div_pos_is_pos};
use vstd::arithmetic::mul::{lemma_mul_inequality, lemma_mul_is_associative};
use vstd::bits::{lemma_usize_shl_is_mul, lemma_usize_shr_is_div, lemma_usize_pow2_no_overflow};
use crate::bitmap::{bits_of, test_bit, set_bit_in, clear_bit_in};

verus! {

pub const PAGE_SIZE: usize = 4096;

pub const MAX_ORDER: usize = 20;

/// Number of bits in the bitmap (`1 << MAX_ORDER`).
pub const BITMAP_SIZE: usize = 1048576;

/// Number of bytes in the bitmap.
pub const BITMAP_BYTES: usize = 131072;

/// A buddy allocator over one region.
///
/// Orders share bitmap positions: block `idx` of order `o` sits at position
/// `2^o - 1 + idx`, which is also the position of some block of a lower
/// order (block 1 of order 0 and block 0 of order 1 are both position 1).
/// Taking a block of one order therefore reads as taking a block of
/// another, so after `init` the same pages can be handed out twice under
/// different orders (`alloc_pages(0)` and then `alloc_pages(1)` both return
/// the base), and merging on free can mark the wrong blocks.  The contracts
/// describe exactly this behaviour.
pub struct BuddyAllocator {
    base: usize,
    total_pages: usize,
    bitmap: Vec<u8>,
    max_order: usize,
}

/// The abstract state of a buddy allocator.
pub struct BuddyView {
    pub base: nat,
    pub total_pages: nat,
    pub max_order: nat,
    /// `marks[b]` is bit `b` of the bitmap.
    pub marks: Seq<bool>,
}

/// Bitmap position of block `idx` of order `order`.
pub open spec fn block_bit(order: nat, idx: int) -> int {
    pow2(order) - 1 + idx
}

/// Whether position `bit` reads as set; positions past the bitmap do.
pub open spec fn is_marked(marks: Seq<bool>, bit: int) -> bool {
    bit >= marks.len() || marks[bit]
}

pub open spec fn block_free(marks: Seq<bool>, order: nat, idx: int) -> bool {
    !is_marked(marks, block_bit(order, idx))
}

/// Writes `v` at position `bit`; positions past the bitmap are left alone.
pub open spec fn mark(marks: Seq<bool>, bit: int, v: bool) -> Seq<bool> {
    if 0 <= bit < marks.len() {
        marks.update(bit, v)
    } else {
        marks
    }
}

/// Number of whole blocks of order `order` in a region of `total` pages.
pub open spec fn block_count(total: nat, order: nat) -> nat {
    total / pow2(order)
}

/// The least free block of order `order` at index `i` or above.
pub open spec fn first_free_from(marks: Seq<bool>, total: nat, order: nat, i: nat) -> Option<nat>
    decreases block_count(total, order) - i,
{
    if i >= block_count(total, order) {
        None
    } else if block_free(marks, order, i as int) {
        Some(i)
    } else {
        first_free_from(marks, total, order, i + 1)
    }
}

/// The least free block of order `order`.
pub open spec fn first_free(marks: Seq<bool>, total: nat, order: nat) -> Option<nat> {
    first_free_from(marks, total, order, 0)
}

/// The least order in `s ..= max` that has a free block, with that block.
pub open spec fn split_search(marks: Seq<bool>, total: nat, s: nat, max: nat) -> Option<(nat, nat)>
    decreases max + 1 - s,
{
    if s > max {
        None
    } else {
        match first_free(marks, total, s) {
            Some(i) => Some((s, i)),
            None => split_search(marks, total, s + 1, max),
        }
    }
}

/// Splitting block `idx` of order `from` down to order `to`: at each lower
/// order the upper half (the buddy) is marked free and the lower half is
/// split further.
pub open spec fn split_clears(marks: Seq<bool>, idx: nat, from: nat, to: nat) -> Seq<bool>
    decreases from - to,
{
    if from <= to {
        marks
    } else {
        split_clears(
            mark(marks, block_bit((from - 1) as nat, (2 * idx + 1) as int), false),
            2 * idx,
            (from - 1) as nat,
            to,
        )
    }
}

/// The other half of the parent block of `idx` (`idx ^ 1`).
pub open spec fn buddy_of(idx: nat) -> nat {
    if idx % 2 == 0 {
        idx + 1
    } else {
        (idx - 1) as nat
    }
}

/// Merging upwards from block `idx` of order `cur` while its buddy is free.
pub open spec fn coalesce(marks: Seq<bool>, idx: nat, cur: nat, max: nat) -> Seq<bool>
    decreases max - cur,
{
    if cur >= max {
        marks
    } else if block_free(marks, cur, buddy_of(idx) as int) {
        let m1 = mark(marks, block_bit(cur, idx as int), true);
        let m2 = mark(m1, block_bit(cur, buddy_of(idx) as int), true);
        let m3 = mark(m2, block_bit(cur + 1, (idx / 2) as int), false);
        coalesce(m3, idx / 2, cur + 1, max)
    } else {
        marks
    }
}

/// Address of page `page` of a region starting at `base`.
pub open spec fn page_addr(base: nat, page: nat) -> nat {
    base + page * (PAGE_SIZE as nat)
}

/// What `alloc_pages(order)` returns and the bitmap it leaves.
pub open spec fn alloc_outcome(v: BuddyView, order: nat) -> (Option<nat>, Seq<bool>) {
    if order > v.max_order {
        (None, v.marks)
    } else {
        match first_free(v.marks, v.total_pages, order) {
            Some(i) => (
                Some(page_addr(v.base, i * pow2(order))),
                mark(v.marks, block_bit(order, i as int), true),
            ),
            None => match split_search(v.marks, v.total_pages, order + 1, v.max_order) {
                Some((s, i)) => (
                    Some(page_addr(v.base, i * pow2(s))),
                    split_clears(mark(v.marks, block_bit(s, i as int), true), i, s, order),
                ),
                None => (None, v.marks),
            },
        }
    }
}

/// The bitmap that `free_pages(addr, order)` leaves.
pub open spec fn free_outcome(v: BuddyView, addr: nat, order: nat) -> Seq<bool> {
    if addr < v.base {
        v.marks
    } else {
        let idx = ((addr - v.base) as nat / (PAGE_SIZE as nat)) / pow2(order);
        coalesce(mark(v.marks, block_bit(order, idx as int), false), idx, order, v.max_order)
    }
}

/// The order chosen at initialisation: the least order (at most MAX_ORDER)
/// whose block size in pages reaches `total`.
pub open spec fn order_from(total: nat, o: nat) -> nat
    decreases MAX_ORDER - o,
{
    if o >= MAX_ORDER || pow2(o) >= total {
        o
    } else {
        order_from(total, o + 1)
    }
}

pub open spec fn init_order(total: nat) -> nat {
    order_from(total, 0)
}

/// Block `order` pages long at `addr` lies inside the region and is aligned
/// to its own size relative to the region's base.
pub open spec fn placed_in(v: BuddyView, addr: nat, order: nat) -> bool {
    &&& v.base <= addr
    &&& (addr - v.base) % ((pow2(order) * PAGE_SIZE) as int) == 0
    &&& addr + pow2(order) * (PAGE_SIZE as nat) <= page_addr(v.base, v.total_pages)
}

pub open spec fn opt_nat(r: Option<usize>) -> Option<nat> {
    match r {
        Some(x) => Some(x as nat),
        None => None,
    }
}

impl View for BuddyAllocator {
    type V = BuddyView;

    closed spec fn view(&self) -> BuddyView {
        BuddyView {
            base: self.base as nat,
            total_pages: self.total_pages as nat,
            max_order: self.max_order as nat,
            marks: bits_of(self.bitmap@),
        }
    }
}

impl BuddyAllocator {
    /// The allocator's invariant.
    pub closed spec fn wf(&self) -> bool {
        &&& self.bitmap.len() == BITMAP_BYTES
        &&& self.max_order == init_order(self.total_pages as nat)
        &&& self.base + self.total_pages * PAGE_SIZE <= usize::MAX
    }

    pub proof fn lemma_wf(&self)
        requires
            self.wf(),
        ensures
            self@.marks.len() == BITMAP_SIZE,
            self@.max_order == init_order(self@.total_pages),
            self@.max_order <= MAX_ORDER,
            page_addr(self@.base, self@.total_pages) <= usize::MAX,
    {
        lemma_order_from_bounds(self.total_pages as nat, 0);
    }

    /// An allocator over an empty region.
    pub fn new() -> (r: Self)
        ensures
            r.wf(),
            r@.base == 0,
            r@.total_pages == 0,
            r@.max_order == 0,
            r@.marks == Seq::new(BITMAP_SIZE as nat, |i: int| false),
    {
        let bitmap = zeroed_bitmap();
        proof {
            lemma_pow2_pos(0);
        }
        BuddyAllocator { base: 0, total_pages: 0, bitmap, max_order: 0 }
    }

    /// Takes the region `base .. base + size` (whole pages only); every block
    /// is free afterwards.
    pub fn init(&mut self, base: usize, size: usize)
        requires
            base + size <= usize::MAX,
        ensures
            final(self).wf(),
            final(self)@.base == base,
            final(self)@.total_pages == size / PAGE_SIZE,
            final(self)@.max_order == init_order((size / PAGE_SIZE) as nat),
            final(self)@.marks == Seq::new(BITMAP_SIZE as nat, |i: int| false),
    {
        self.base = base;
        self.total_pages = size / PAGE_SIZE;
        let mut order: usize = 0;
        while (1usize << order) < self.total_pages && order < MAX_ORDER
            invariant
                order <= MAX_ORDER,
                order_from(self.total_pages as nat, order as nat) == order_from(
                    self.total_pages as nat,
                    0,
                ),
            decreases MAX_ORDER - order,
        {
            proof {
                lemma_usize_pow2_no_overflow(order as nat);
                lemma_usize_shl_is_mul(1, order);
            }
            order += 1;
        }
        proof {
            lemma_usize_pow2_no_overflow(order as nat);
            lemma_usize_shl_is_mul(1, order);
        }
        self.max_order = order;
        self.bitmap = zeroed_bitmap();
    }

    fn bit_index(&self, order: usize, idx: usize) -> (r: usize)
        requires
            order < usize::BITS,
            pow2(order as nat) - 1 + idx <= usize::MAX,
        ensures
            r == block_bit(order as nat, idx as int),
    {
        proof {
            lemma_usize_pow2_no_overflow(order as nat);
            lemma_usize_shl_is_mul(1, order);
        }
        (1usize << order) - 1 + idx
    }

    fn get_bit(&self, bit: usize) -> (r: bool)
        requires
            self.wf(),
        ensures
            r == is_marked(self@.marks, bit as int),
    {
        if bit / 8 >= self.bitmap.len() {
            return true;
        }
        test_bit(&self.bitmap, bit)
    }

    fn set_bit(&mut self, bit: usize)
        requires
            old(self).wf(),
        ensures
            final(self).wf(),
            final(self)@ == (BuddyView { marks: mark(old(self)@.marks, bit as int, true), ..old(self)@ }),
    {
        if bit / 8 < self.bitmap.len() {
            set_bit_in(&mut self.bitmap, bit);
        }
    }

    fn clear_bit(&mut self, bit: usize)
        requires
            old(self).wf(),
        ensures
            final(self).wf(),
            final(self)@ == (BuddyView { marks: mark(old(self)@.marks, bit as int, false), ..old(self)@ }),
    {
        if bit / 8 < self.bitmap.len() {
            clear_bit_in(&mut self.bitmap, bit);
        }
    }

    fn is_free(&self, order: usize, idx: usize) -> (r: bool)
        requires
            self.wf(),
            order < usize::BITS,
            pow2(order as nat) - 1 + idx <= usize::MAX,
        ensures
            r == block_free(self@.marks, order as nat, idx as int),
    {
        if order == self.max_order {
            let bit = self.bit_index(order, idx);
            return !self.get_bit(bit);
        }
        let bit = self.bit_index(order, idx);
        !self.get_bit(bit)
    }

    fn mark_allocated(&mut self, order: usize, idx: usize)
        requires
            old(self).wf(),
            order < usize::BITS,
            pow2(order as nat) - 1 + idx <= usize::MAX,
        ensures
            final(self).wf(),
            final(self)@ == (BuddyView {
                marks: mark(old(self)@.marks, block_bit(order as nat, idx as int), true),
                ..old(self)@
            }),
    {
        let bit = self.bit_index(order, idx);
        self.set_bit(bit);
    }

    fn mark_free(&mut self, order: usize, idx: usize)
        requires
            old(self).wf(),
            order < usize::BITS,
            pow2(order as nat) - 1 + idx <= usize::MAX,
        ensures
            final(self).wf(),
            final(self)@ == (BuddyView {
                marks: mark(old(self)@.marks, block_bit(order as nat, idx as int), false),
                ..old(self)@
            }),
    {
        let bit = self.bit_index(order, idx);
        self.clear_bit(bit);
    }

    /// The least free block of order `order`.
    fn find_free(&self, order: usize) -> (r: Option<usize>)
        requires
            self.wf(),
            order <= MAX_ORDER,
        ensures
            opt_nat(r) == first_free(self@.marks, self@.total_pages, order as nat),
            r matches Some(i) ==> i < block_count(self@.total_pages, order as nat),
    {
        proof {
            lemma_usize_shr_is_div(self.total_pages, order);
            lemma_usize_pow2_no_overflow(order as nat);
            lemma_pow2_le_max_order(order as nat);
        }
        let count = self.total_pages >> order;
        let mut idx: usize = 0;
        while idx < count
            invariant
                self.wf(),
                order <= MAX_ORDER,
                count == block_count(self@.total_pages, order as nat),
                count <= self.total_pages,
                pow2(order as nat) <= pow2(MAX_ORDER as nat),
                idx <= count,
                first_free_from(self@.marks, self@.total_pages, order as nat, idx as nat)
                    == first_free(self@.marks, self@.total_pages, order as nat),
            decreases count - idx,
        {
            proof {
                lemma_pow2_20();
            }
            if self.is_free(order, idx) {
                return Some(idx);
            }
            idx += 1;
        }
        None
    }

    /// Hands out a block of `2^order` pages and returns its address, or
    /// `None` when no block of that order or any larger order up to the
    /// allocator's maximum is free.
    pub fn alloc_pages(&mut self, order: usize) -> (r: Option<usize>)
        requires
            old(self).wf(),
        ensures
            final(self).wf(),
            final(self)@.base == old(self)@.base,
            final(self)@.total_pages == old(self)@.total_pages,
            final(self)@.max_order == old(self)@.max_order,
            opt_nat(r) == alloc_outcome(old(self)@, order as nat).0,
            final(self)@.marks == alloc_outcome(old(self)@, order as nat).1,
            r matches Some(a) ==> placed_in(old(self)@, a as nat, order as nat),
    {
        let ghost v0 = self@;
        proof {
            self.lemma_wf();
        }
        if order > self.max_order {
            return None;
        }
        if let Some(idx) = self.find_free(order) {
            proof {
                lemma_pow2_20();
                lemma_pow2_le_max_order(order as nat);
                lemma_block_fits(idx as nat, order as nat, order as nat, self.total_pages as nat);
                lemma_usize_shl_is_mul(idx, order);
                lemma_placed(v0, idx as nat, order as nat, order as nat);
            }
            self.mark_allocated(order, idx);
            let page = idx << order;
            return Some(self.base + page * PAGE_SIZE);
        }
        let mut split_order = order + 1;
        while split_order <= self.max_order
            invariant
                self.wf(),
                self@ == v0,
                old(self)@ == v0,
                v0.max_order <= MAX_ORDER,
                page_addr(v0.base, v0.total_pages) <= usize::MAX,
                order < split_order <= v0.max_order + 1,
                first_free(v0.marks, v0.total_pages, order as nat) is None,
                split_search(v0.marks, v0.total_pages, split_order as nat, v0.max_order)
                    == split_search(v0.marks, v0.total_pages, (order + 1) as nat, v0.max_order),
            decreases v0.max_order + 1 - split_order,
        {
            if let Some(idx) = self.find_free(split_order) {
                proof {
                    lemma_pow2_20();
                    lemma_pow2_le_max_order(split_order as nat);
                    lemma_block_fits(idx as nat, split_order as nat, order as nat, v0.total_pages);
                }
                self.mark_allocated(split_order, idx);
                let ghost after_set = self@.marks;
                proof {
                    vstd::arithmetic::power2::lemma2_to64();
                    assert(idx * pow2(0) == idx);
                }
                let mut current_order = split_order;
                let mut current_idx = idx;
                while current_order > order
                    invariant
                        self.wf(),
                        old(self)@ == v0,
                        self@.base == v0.base,
                        self@.total_pages == v0.total_pages,
                        self@.max_order == v0.max_order,
                        order <= current_order <= split_order <= MAX_ORDER,
                        idx < block_count(v0.total_pages, split_order as nat),
                        current_idx == idx * pow2((split_order - current_order) as nat),
                        idx * pow2(split_order as nat) < v0.total_pages,
                        v0.total_pages * PAGE_SIZE <= usize::MAX,
                        split_clears(self@.marks, current_idx as nat, current_order as nat, order as nat)
                            == split_clears(after_set, idx as nat, split_order as nat, order as nat),
                    decreases current_order,
                {
                    proof {
                        lemma_pow2_20();
                        lemma_pow2_le_max_order((current_order - 1) as nat);
                        let k = (split_order - current_order + 1) as nat;
                        lemma_pow2_unfold(k);
                        lemma_scaled_le(idx as nat, split_order as nat, (current_order - 1) as nat);
                        assert(current_idx * 2 == idx * pow2(k)) by (nonlinear_arith)
                            requires
                                current_idx == idx * pow2((k - 1) as nat),
                                pow2(k) == 2 * pow2((k - 1) as nat),
                        ;
                    }
                    current_order -= 1;
                    let buddy_idx = current_idx * 2 + 1;
                    self.mark_free(current_order, buddy_idx);
                    current_idx *= 2;
                }
                proof {
                    lemma_scaled_le(idx as nat, split_order as nat, order as nat);
                    lemma_pow2_le_max_order(order as nat);
                    lemma_pow2_20();
                    lemma_usize_shl_is_mul(current_idx, order);
                    lemma_placed(v0, idx as nat, split_order as nat, order as nat);
                }
                let page = current_idx << order;
                return Some(self.base + page * PAGE_SIZE);
            }
            split_order += 1;
        }
        None
    }

    /// Returns the block of `2^order` pages at `addr`, merging it with free
    /// buddies upwards.  Addresses below the region are ignored.
    pub fn free_pages(&mut self, addr: usize, order: usize)
        requires
            old(self).wf(),
            addr >= old(self)@.base ==> order < usize::BITS,
        ensures
            final(self).wf(),
            final(self)@.base == old(self)@.base,
            final(self)@.total_pages == old(self)@.total_pages,
            final(self)@.max_order == old(self)@.max_order,
            final(self)@.marks == free_outcome(old(self)@, addr as nat, order as nat),
    {
        let ghost v0 = self@;
        proof {
            self.lemma_wf();
        }
        if addr < self.base {
            return;
        }
        let page = (addr - self.base) / PAGE_SIZE;
        proof {
            lemma_usize_shr_is_div(page, order);
            lemma_usize_pow2_no_overflow(order as nat);
            lemma_idx_bit_fits(page as nat, order as nat);
        }
        let mut idx = page >> order;
        let mut current_order = order;
        self.mark_free(current_order, idx);
        while current_order < self.max_order
            invariant_except_break
                self.wf(),
                self@.base == v0.base,
                self@.total_pages == v0.total_pages,
                self@.max_order == v0.max_order,
                v0.max_order <= MAX_ORDER,
                idx <= page,
                page <= usize::MAX / PAGE_SIZE,
                current_order < 64,
                coalesce(self@.marks, idx as nat, current_order as nat, v0.max_order)
                    == free_outcome(v0, addr as nat, order as nat),
            ensures
                self.wf(),
                self@.base == v0.base,
                self@.total_pages == v0.total_pages,
                self@.max_order == v0.max_order,
                self@.marks == free_outcome(v0, addr as nat, order as nat),
            decreases self.max_order - current_order,
        {
            proof {
                lemma_pow2_20();
                lemma_pow2_le_max_order(current_order as nat);
                lemma_pow2_le_max_order((current_order + 1) as nat);
                lemma_xor_one(idx);
            }
            let buddy = idx ^ 1;
            if self.is_free(current_order, buddy) {
                self.mark_allocated(current_order, idx);
                self.mark_allocated(current_order, buddy);
                proof {
                    lemma_usize_shr_is_div(idx, 1);
                    vstd::arithmetic::power2::lemma2_to64();
                }
                idx >>= 1;
                current_order += 1;
                self.mark_free(current_order, idx);
            } else {
                break;
            }
        }
    }

    pub fn alloc_one(&mut self) -> (r: Option<usize>)
        requires
            old(self).wf(),
        ensures
            final(self).wf(),
            final(self)@.base == old(self)@.base,
            final(self)@.total_pages == old(self)@.total_pages,
            final(self)@.max_order == old(self)@.max_order,
            opt_nat(r) == alloc_outcome(old(self)@, 0).0,
            final(self)@.marks == alloc_outcome(old(self)@, 0).1,
            r matches Some(a) ==> placed_in(old(self)@, a as nat, 0),
    {
        self.alloc_pages(0)
    }

    pub fn free_one(&mut self, addr: usize)
        requires
            old(self).wf(),
        ensures
            final(self).wf(),
            final(self)@.base == old(self)@.base,
            final(self)@.total_pages == old(self)@.total_pages,
            final(self)@.max_order == old(self)@.max_order,
            final(self)@.marks == free_outcome(old(self)@, addr as nat, 0),
    {
        self.free_pages(addr, 0)
    }

    pub fn total_pages(&self) -> (r: usize)
        ensures
            r == self@.total_pages,
    {
        self.total_pages
    }

    /// Start address of the managed region.
    pub fn base(&self) -> (r: usize)
        ensures
            r == self@.base,
    {
        self.base
    }
}

fn zeroed_bitmap() -> (r: Vec<u8>)
    ensures
        r.len() == BITMAP_BYTES,
        bits_of(r@) == Seq::new(BITMAP_SIZE as nat, |i: int| false),
{
    let mut v: Vec<u8> = Vec::new();
    let mut i: usize = 0;
    while i < BITMAP_BYTES
        invariant
            i <= BITMAP_BYTES,
            v.len() == i,
            forall|j: int| 0 <= j < i ==> v@[j] == 0u8,
        decreases BITMAP_BYTES - i,
    {
        v.push(0u8);
        i += 1;
    }
    proof {
        assert forall|k: int| 0 <= k < 8 implies !crate::bitmap::byte_bit(0u8, k) by {
            let kk = k as u8;
            assert((0u8 >> kk) & 1u8 == 0u8) by (bit_vector);
        }
        assert(bits_of(v@) =~= Seq::new(BITMAP_SIZE as nat, |i: int| false));
    }
    v
}

proof fn lemma_pow2_20()
    ensures
        pow2(MAX_ORDER as nat) == BITMAP_SIZE,
{
    vstd::arithmetic::power2::lemma2_to64();
}

proof fn lemma_pow2_le_max_order(o: nat)
    requires
        o <= MAX_ORDER,
    ensures
        pow2(o) <= pow2(MAX_ORDER as nat),
        pow2(o) >= 1,
{
    lemma_pow2_pos(o);
    if o < MAX_ORDER {
        vstd::arithmetic::power2::lemma_pow2_strictly_increases(o, MAX_ORDER as nat);
    }
}

proof fn lemma_order_from_bounds(total: nat, o: nat)
    requires
        o <= MAX_ORDER,
    ensures
        o <= order_from(total, o) <= MAX_ORDER,
    decreases MAX_ORDER - o,
{
    if o < MAX_ORDER && pow2(o) < total {
        lemma_order_from_bounds(total, o + 1);
    }
}

/// `idx * 2^s = (idx * 2^(s - o)) * 2^o`.
proof fn lemma_mul_pow2_split(idx: nat, s: nat, o: nat)
    requires
        o <= s,
    ensures
        idx * pow2((s - o) as nat) * pow2(o) == idx * pow2(s),
{
    lemma_pow2_adds((s - o) as nat, o);
    lemma_mul_is_associative(idx as int, pow2((s - o) as nat) as int, pow2(o) as int);
}

/// A block found at order `s` ends inside the region.
proof fn lemma_block_fits(idx: nat, s: nat, o: nat, total: nat)
    requires
        idx < block_count(total, s),
        o <= s,
    ensures
        idx * pow2(s) + pow2(o) <= total,
        (idx + 1) * pow2(s) <= total,
{
    lemma_pow2_pos(s);
    lemma_pow2_pos(o);
    let p = pow2(s) as int;
    lemma_fundamental_div_mod(total as int, p);
    lemma_mul_inequality(idx as int + 1, total as int / p, p);
    assert((idx + 1) * p == idx * p + p) by (nonlinear_arith);
    assert(p * (total as int / p) == (total as int / p) * p) by (nonlinear_arith);
    if o < s {
        vstd::arithmetic::power2::lemma_pow2_strictly_increases(o, s);
    }
}

/// Where the allocator places the block that it found at order `s` and hands
/// out as order `o`.
proof fn lemma_placed(v: BuddyView, idx: nat, s: nat, o: nat)
    requires
        idx < block_count(v.total_pages, s),
        o <= s,
    ensures
        placed_in(v, page_addr(v.base, idx * pow2(s)), o),
{
    lemma_block_fits(idx, s, o, v.total_pages);
    lemma_pow2_pos(o);
    let q = pow2((s - o) as nat) as int;
    let b = pow2(o) as int * 4096;
    lemma_mul_pow2_split(idx, s, o);
    assert(idx * pow2(s) * 4096 == (idx * q) * b) by (nonlinear_arith)
        requires
            idx * q * pow2(o) == idx * pow2(s),
            b == pow2(o) as int * 4096,
    ;
    vstd::arithmetic::div_mod::lemma_mod_multiples_basic(idx * q, b);
    assert((idx * pow2(s) + pow2(o)) * 4096 <= v.total_pages * 4096) by (nonlinear_arith)
        requires
            idx * pow2(s) + pow2(o) <= v.total_pages,
    ;
}

/// The index of a page-aligned block fits next to its bitmap offset.
proof fn lemma_idx_bit_fits(page: nat, order: nat)
    requires
        page <= usize::MAX / PAGE_SIZE,
        order < usize::BITS,
    ensures
        pow2(order) - 1 + page / pow2(order) <= usize::MAX,
        page / pow2(order) <= page,
{
    lemma_pow2_pos(order);
    vstd::arithmetic::div_mod::lemma_div_is_ordered_by_denominator(page as int, 1, pow2(order) as int);
    vstd::arithmetic::div_mod::lemma_div_basics(page as int);
    vstd::arithmetic::power2::lemma2_to64();
    vstd::arithmetic::power2::lemma2_to64_rest();
    let top = (usize::BITS - 1) as nat;
    if order < top {
        vstd::arithmetic::power2::lemma_pow2_strictly_increases(order, top);
    }
}

/// `idx * 2^(s - o)` is at most `idx * 2^s` and times `2^o` equals it.
proof fn lemma_scaled_le(idx: nat, s: nat, o: nat)
    requires
        o <= s,
    ensures
        idx * pow2((s - o) as nat) <= idx * pow2(s),
        idx * pow2((s - o) as nat) * pow2(o) == idx * pow2(s),
{
    lemma_mul_pow2_split(idx, s, o);
    lemma_pow2_pos(o);
    let a = idx * pow2((s - o) as nat);
    assert(a <= a * pow2(o)) by (nonlinear_arith)
        requires
            pow2(o) >= 1,
    ;
}

proof fn lemma_xor_one(idx: usize)
    ensures
        (idx ^ 1) as nat == buddy_of(idx as nat),
{
    assert(idx % 2 == 0 ==> idx ^ 1 == idx + 1) by (bit_vector);
    assert(idx % 2 == 1 ==> idx ^ 1 == idx - 1) by (bit_vector);
}

/// The bitmap with exactly the positions below `k` set.
pub open spec fn taken(k: nat) -> Seq<bool> {
    Seq::new(BITMAP_SIZE as nat, |i: int| i < k)
}

proof fn lemma_order_from_reaches(total: nat, o: nat, s: nat)
    requires
        o <= s,
        s <= MAX_ORDER,
        pow2(s) <= total,
    ensures
        s <= order_from(total, o),
    decreases s - o,
{
    if o < s {
        lemma_pow2_pos(o);
        vstd::arithmetic::power2::lemma_pow2_strictly_increases(o, s);
        lemma_order_from_reaches(total, o + 1, s);
    } else {
        lemma_order_from_bounds(total, o);
    }
}

/// An order whose block fits in at most `2^MAX_ORDER` pages is at most
/// `MAX_ORDER`.
proof fn lemma_order_fits(o: nat)
    requires
        pow2(o) <= BITMAP_SIZE,
    ensures
        o <= MAX_ORDER,
{
    if o > MAX_ORDER {
        lemma_pow2_20();
        vstd::arithmetic::power2::lemma_pow2_strictly_increases(MAX_ORDER as nat, o);
    }
}

/// After `init`, whatever the allocator held before, every order whose
/// block fits in the region is handed out at the region's base.
pub proof fn lemma_fresh_alloc_at_base(v: BuddyView, o: nat)
    requires
        v.marks == taken(0),
        v.max_order == init_order(v.total_pages),
        v.total_pages <= BITMAP_SIZE,
        pow2(o) <= v.total_pages,
    ensures
        alloc_outcome(v, o).0 == Some(v.base),
{
    lemma_order_fits(o);
    lemma_order_from_reaches(v.total_pages, 0, o);
    lemma_pow2_pos(o);
    lemma_pow2_le_max_order(o);
    lemma_pow2_20();
    assert(block_count(v.total_pages, o) >= 1) by {
        vstd::arithmetic::div_mod::lemma_div_is_ordered(pow2(o) as int, v.total_pages as int, pow2(o) as int);
        vstd::arithmetic::div_mod::lemma_div_by_self(pow2(o) as int);
    }
    assert(block_bit(o, 0) < BITMAP_SIZE);
    assert(block_free(v.marks, o, 0));
    assert(first_free(v.marks, v.total_pages, o) == Some(0nat));
    assert(0 * pow2(o) == 0);
    assert(o <= v.max_order);
}

proof fn lemma_first_free_order0(k: nat, total: nat, j: nat)
    requires
        j <= k,
        k < total,
        total <= BITMAP_SIZE,
    ensures
        first_free_from(taken(k), total, 0, j) == Some(k),
    decreases k - j,
{
    assert(pow2(0) == 1) by {
        vstd::arithmetic::power2::lemma2_to64();
    }
    assert(block_count(total, 0) == total);
    if j < k {
        assert(!block_free(taken(k), 0, j as int));
        lemma_first_free_order0(k, total, j + 1);
    } else {
        assert(block_free(taken(k), 0, k as int));
    }
}

proof fn lemma_no_free_block(total: nat, s: nat, i: nat)
    requires
        total <= BITMAP_SIZE,
    ensures
        first_free_from(taken(total), total, s, i) is None,
    decreases block_count(total, s) - i,
{
    if i < block_count(total, s) {
        let p = pow2(s);
        lemma_pow2_pos(s);
        assert((i + 1) * p <= total) by {
            vstd::arithmetic::div_mod::lemma_fundamental_div_mod(total as int, p as int);
            vstd::arithmetic::mul::lemma_mul_inequality((i + 1) as int, (total / p) as int, p as int);
            vstd::arithmetic::mul::lemma_mul_is_commutative((total / p) as int, p as int);
        }
        assert(i + p <= (i + 1) * p) by (nonlinear_arith)
            requires
                p >= 1,
        ;
        assert(!block_free(taken(total), s, i as int));
        lemma_no_free_block(total, s, i + 1);
    }
}

proof fn lemma_no_split(total: nat, s: nat, max: nat)
    requires
        total <= BITMAP_SIZE,
    ensures
        split_search(taken(total), total, s, max) is None,
    decreases max + 1 - s,
{
    if s <= max {
        lemma_no_free_block(total, s, 0);
        lemma_no_split(total, s + 1, max);
    }
}

/// Right after `init` of an `n`-page region, the `k`-th single-page
/// allocation (counting from 0) returns page `k` and marks it, for each
/// `k < n`; once all `n` are out, the next one returns `None` and changes
/// nothing.
pub proof fn lemma_fresh_alloc_one_sequence(v: BuddyView, k: nat)
    requires
        v.marks == taken(k),
        v.max_order == init_order(v.total_pages),
        v.total_pages <= BITMAP_SIZE,
        k <= v.total_pages,
    ensures
        k < v.total_pages ==> alloc_outcome(v, 0) == (Some(page_addr(v.base, k)), taken(k + 1)),
        k == v.total_pages ==> alloc_outcome(v, 0) == (None::<nat>, v.marks),
{
    assert(pow2(0) == 1) by {
        vstd::arithmetic::power2::lemma2_to64();
    }
    if k < v.total_pages {
        lemma_first_free_order0(k, v.total_pages, 0);
        assert(mark(taken(k), block_bit(0, k as int), true) =~= taken(k + 1));
    } else {
        lemma_no_free_block(k, 0, 0);
        lemma_no_split(k, 1, v.max_order);
    }
}

/// What `k` single-page allocations in a row return, from state `v`.
pub open spec fn alloc_one_calls(v: BuddyView, k: nat) -> Seq<Option<nat>>
    decreases k,
{
    if k == 0 {
        seq![]
    } else {
        let (r, m) = alloc_outcome(v, 0);
        seq![r] + alloc_one_calls(BuddyView { marks: m, ..v }, (k - 1) as nat)
    }
}

proof fn lemma_alloc_one_calls_from(v: BuddyView, k: nat)
    requires
        v.marks == taken(k),
        v.max_order == init_order(v.total_pages),
        v.total_pages <= BITMAP_SIZE,
        k <= v.total_pages,
    ensures
        alloc_one_calls(v, (v.total_pages - k + 1) as nat) == Seq::new(
            (v.total_pages - k) as nat,
            |j: int| Some(page_addr(v.base, (k + j) as nat)),
        ).push(None),
    decreases v.total_pages - k,
{
    lemma_fresh_alloc_one_sequence(v, k);
    let n = v.total_pages;
    if k == n {
        assert(alloc_one_calls(BuddyView { marks: v.marks, ..v }, 0) == Seq::<Option<nat>>::empty());
        assert(BuddyView { marks: v.marks, ..v } == v);
        assert(alloc_one_calls(v, 1) =~= Seq::new(0, |j: int| Some(page_addr(v.base, (k + j) as nat))).push(
            None,
        ));
    } else {
        let v1 = BuddyView { marks: taken(k + 1), ..v };
        lemma_alloc_one_calls_from(v1, k + 1);
        assert(alloc_one_calls(v, (n - k + 1) as nat) == seq![Some(page_addr(v.base, k))] + alloc_one_calls(
            v1,
            (n - (k + 1) + 1) as nat,
        ));
        assert(alloc_one_calls(v, (n - k + 1) as nat) =~= Seq::new(
            (n - k) as nat,
            |j: int| Some(page_addr(v.base, (k + j) as nat)),
        ).push(None));
    }
}

/// Right after `init` of an `n`-page region, `n + 1` single-page
/// allocations in a row return the base, the next page, and so on through
/// page `n - 1`, each once, and then `None`.
pub proof fn lemma_fresh_alloc_one_run(v: BuddyView)
    requires
        v.marks == taken(0),
        v.max_order == init_order(v.total_pages),
        v.total_pages <= BITMAP_SIZE,
    ensures
        alloc_one_calls(v, v.total_pages + 1) == Seq::new(
            v.total_pages,
            |j: int| Some(page_addr(v.base, j as nat)),
        ).push(None),
{
    lemma_alloc_one_calls_from(v, 0);
    assert(Seq::new(v.total_pages, |j: int| Some(page_addr(v.base, (0 + j) as nat))) =~= Seq::new(
        v.total_pages,
        |j: int| Some(page_addr(v.base, j as nat)),
    ));
}

} // verus!
