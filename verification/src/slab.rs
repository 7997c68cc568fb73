//! Slab allocator for small objects: one page per slab, carved into equal
//! slots tracked by a 256-bit bitmap; pages come from the buddy allocator.
use vstd::prelude::*;
use vstd::std_specs::bits::{u64_trailing_zeros, axiom_u64_trailing_zeros};
use crate::buddy::{BuddyAllocator, BuddyView, opt_nat, placed_in, page_addr};
use crate::buddy::alloc_outcome as buddy_alloc_outcome;
use crate::buddy::free_outcome as buddy_free_outcome;

verus! {

pub const PAGE_SIZE: usize = 4096;

pub const MAX_SLABS_PER_SIZE: usize = 16;

/// Number of slots a slab bitmap can track.
pub const MAX_SLOTS: usize = 256;

/// Number of size classes.
pub const NUM_CACHES: usize = 8;

/// Bit `i % 64` of word `i / 64`.
pub open spec fn slot_used(words: Seq<u64>, i: int) -> bool {
    (words[i / 64] >> ((i % 64) as u64)) & 1u64 == 1u64
}

/// Slots per page for objects of `obj_size` bytes, at most MAX_SLOTS.
pub open spec fn page_capacity(obj_size: nat) -> nat {
    if PAGE_SIZE as nat / obj_size > MAX_SLOTS {
        MAX_SLOTS as nat
    } else {
        PAGE_SIZE as nat / obj_size
    }
}

/// The abstract state of one slab page.
pub struct SlabPageView {
    pub base: nat,
    pub obj_size: nat,
    pub capacity: nat,
    /// `used[i]` for each of the MAX_SLOTS bitmap slots.
    pub used: Seq<bool>,
}

/// The least unused slot at index `i` or above, below `cap`.
pub open spec fn first_unused_from(used: Seq<bool>, cap: nat, i: nat) -> Option<nat>
    decreases cap - i,
{
    if i >= cap {
        None
    } else if !used[i as int] {
        Some(i)
    } else {
        first_unused_from(used, cap, i + 1)
    }
}

pub open spec fn slot_addr(p: SlabPageView, i: nat) -> nat {
    p.base + i * p.obj_size
}

pub open spec fn page_full(p: SlabPageView) -> bool {
    forall|i: int| 0 <= i < p.capacity ==> #[trigger] p.used[i]
}

pub open spec fn page_empty(p: SlabPageView) -> bool {
    forall|i: int| 0 <= i < MAX_SLOTS ==> !#[trigger] p.used[i]
}

pub open spec fn page_contains(p: SlabPageView, addr: nat) -> bool {
    p.base <= addr < p.base + p.capacity * p.obj_size
}

/// What `SlabPage::alloc` returns and the page it leaves.
pub open spec fn page_alloc(p: SlabPageView) -> (Option<nat>, SlabPageView) {
    match first_unused_from(p.used, p.capacity, 0) {
        Some(i) => (Some(slot_addr(p, i)), SlabPageView { used: p.used.update(i as int, true), ..p }),
        None => (None, p),
    }
}

/// What `SlabPage::free` returns and the page it leaves.
pub open spec fn page_free(p: SlabPageView, addr: nat) -> (bool, SlabPageView) {
    if page_contains(p, addr) {
        let idx = (addr - p.base) as nat / p.obj_size;
        (true, SlabPageView { used: p.used.update(idx as int, false), ..p })
    } else {
        (false, p)
    }
}

/// A freshly carved page.
pub open spec fn fresh_page(base: nat, obj_size: nat) -> SlabPageView {
    SlabPageView {
        base,
        obj_size,
        capacity: page_capacity(obj_size),
        used: Seq::new(MAX_SLOTS as nat, |i: int| false),
    }
}

#[derive(Clone, Copy)]
pub struct SlabPage {
    base: usize,
    obj_size: usize,
    capacity: usize,
    bitmap: [u64; 4],
}

impl View for SlabPage {
    type V = SlabPageView;

    closed spec fn view(&self) -> SlabPageView {
        SlabPageView {
            base: self.base as nat,
            obj_size: self.obj_size as nat,
            capacity: self.capacity as nat,
            used: Seq::new(MAX_SLOTS as nat, |i: int| slot_used(self.bitmap@, i)),
        }
    }
}

/// The invariant of a page's abstract state.
pub open spec fn page_wf(p: SlabPageView) -> bool {
    &&& p.obj_size > 0
    &&& p.capacity == page_capacity(p.obj_size)
    &&& p.base + p.capacity * p.obj_size <= usize::MAX
    &&& p.used.len() == MAX_SLOTS
    &&& forall|i: int| p.capacity <= i < MAX_SLOTS ==> !#[trigger] p.used[i]
}

proof fn lemma_word_not_bit(w: u64, j: u64)
    requires
        j < 64,
    ensures
        (((!w) >> j) & 1u64 == 1u64) == !((w >> j) & 1u64 == 1u64),
{
    assert((((!w) >> j) & 1u64 == 1u64) == !((w >> j) & 1u64 == 1u64)) by (bit_vector)
        requires
            j < 64,
    ;
}

proof fn lemma_word_or(w: u64, k: u64, j: u64)
    requires
        k < 64,
        j < 64,
    ensures
        ((w | (1u64 << k)) >> j) & 1u64 == (if j == k { 1u64 } else { (w >> j) & 1u64 }),
{
    assert(((w | (1u64 << k)) >> j) & 1u64 == (if j == k { 1u64 } else { (w >> j) & 1u64 }))
        by (bit_vector)
        requires
            k < 64,
            j < 64,
    ;
}

proof fn lemma_word_and_not(w: u64, k: u64, j: u64)
    requires
        k < 64,
        j < 64,
    ensures
        ((w & !(1u64 << k)) >> j) & 1u64 == (if j == k { 0u64 } else { (w >> j) & 1u64 }),
{
    assert(((w & !(1u64 << k)) >> j) & 1u64 == (if j == k { 0u64 } else { (w >> j) & 1u64 }))
        by (bit_vector)
        requires
            k < 64,
            j < 64,
    ;
}

/// The least clear bit of a word that is not all ones.
proof fn lemma_first_clear(w: u64)
    requires
        !w != 0,
    ensures
        u64_trailing_zeros(!w) < 64,
        !((w >> (u64_trailing_zeros(!w) as u64)) & 1u64 == 1u64),
        forall|j: u64| j < u64_trailing_zeros(!w) ==> (w >> j) & 1u64 == 1u64,
{
    axiom_u64_trailing_zeros(!w);
    let t = u64_trailing_zeros(!w) as u64;
    lemma_word_not_bit(w, t);
    assert forall|j: u64| j < u64_trailing_zeros(!w) implies (w >> j) & 1u64 == 1u64 by {
        lemma_word_not_bit(w, j);
    }
}

/// A word equals all ones exactly when each of its bits is set.
proof fn lemma_word_full(w: u64)
    ensures
        (w == u64::MAX) == (forall|j: u64| j < 64 ==> (w >> j) & 1u64 == 1u64),
{
    if w == u64::MAX {
        assert forall|j: u64| j < 64 implies (w >> j) & 1u64 == 1u64 by {
            assert(j < 64 ==> (0xffff_ffff_ffff_ffffu64 >> j) & 1u64 == 1u64) by (bit_vector);
        }
    } else {
        assert(!w != 0) by (bit_vector)
            requires
                w != 0xffff_ffff_ffff_ffffu64,
        ;
        lemma_first_clear(w);
    }
}

/// A word is zero exactly when none of its bits is set.
proof fn lemma_word_zero(w: u64)
    ensures
        (w == 0) == (forall|j: u64| j < 64 ==> !((w >> j) & 1u64 == 1u64)),
{
    if w == 0 {
        assert forall|j: u64| j < 64 implies !((w >> j) & 1u64 == 1u64) by {
            assert((0u64 >> j) & 1u64 == 0u64) by (bit_vector);
        }
    } else {
        axiom_u64_trailing_zeros(w);
    }
}

/// `w & mask == mask` for the low `rem` bits exactly when those bits are set.
proof fn lemma_word_low_mask(w: u64, rem: u64, mask: u64)
    requires
        0 < rem < 64,
        mask as int + 1 == (1u64 << rem) as int,
    ensures
        ((w & mask) == mask) == (forall|j: u64| j < rem ==> (w >> j) & 1u64 == 1u64),
{
    if (w & mask) == mask {
        assert forall|j: u64| j < rem implies (w >> j) & 1u64 == 1u64 by {
            assert((w >> j) & 1u64 == 1u64) by (bit_vector)
                requires
                    (w & mask) == mask,
                    j < rem,
                    rem < 64,
                    mask as int + 1 == (1u64 << rem) as int,
            ;
        }
    } else {
        let x = (!w) & mask;
        assert(x != 0) by (bit_vector)
            requires
                (w & mask) != mask,
                x == (!w) & mask,
        ;
        axiom_u64_trailing_zeros(x);
        let t = u64_trailing_zeros(x) as u64;
        assert(t < rem && !((w >> t) & 1u64 == 1u64)) by (bit_vector)
            requires
                t < 64,
                (x >> t) & 1u64 == 1u64,
                x == (!w) & mask,
                mask as int + 1 == (1u64 << rem) as int,
                0 < rem < 64,
        ;
    }
}

impl SlabPage {
    pub closed spec fn wf(&self) -> bool {
        page_wf(self@)
    }

    /// A slab of `obj_size`-byte slots over the page at `base`.
    pub fn new(base: usize, obj_size: usize) -> (r: Self)
        requires
            obj_size > 0,
            base + page_capacity(obj_size as nat) * obj_size <= usize::MAX,
        ensures
            r.wf(),
            r@ == fresh_page(base as nat, obj_size as nat),
    {
        let capacity = PAGE_SIZE / obj_size;
        let capacity = if capacity > 256 { 256 } else { capacity };
        let r = SlabPage { base, obj_size, capacity, bitmap: [0u64, 0u64, 0u64, 0u64] };
        proof {
            assert forall|i: int| 0 <= i < MAX_SLOTS implies !slot_used(r.bitmap@, i) by {
                let k = (i % 64) as u64;
                assert((0u64 >> k) & 1u64 == 0u64) by (bit_vector);
            }
            assert(r@.used =~= fresh_page(base as nat, obj_size as nat).used);
        }
        r
    }

    /// Takes the least free slot and returns its address; `None` when every
    /// slot is in use.
    pub fn allocate(&mut self) -> (r: Option<usize>)
        requires
            old(self).wf(),
        ensures
            final(self).wf(),
            (opt_nat(r), final(self)@) == page_alloc(old(self)@),
    {
        let ghost v0 = self@;
        let mut word: usize = 0;
        while word < 4
            invariant
                self@ == v0,
                old(self)@ == v0,
                page_wf(v0),
                word <= 4,
                forall|j: int| 0 <= j < word * 64 && j < v0.capacity ==> #[trigger] v0.used[j],
            decreases 4 - word,
        {
            let free = !self.bitmap[word];
            if free != 0 {
                let w = self.bitmap[word];
                let bit = free.trailing_zeros() as usize;
                proof {
                    lemma_first_clear(w);
                }
                let i = word * 64 + bit;
                if i >= self.capacity {
                    proof {
                        assert forall|j: int| 0 <= j < (word + 1) * 64 && j < v0.capacity implies #[trigger] v0.used[j] by {
                            if j >= word * 64 {
                                assert(j / 64 == word as int);
                                assert(((j % 64) as u64) < u64_trailing_zeros(!w));
                            }
                        }
                    }
                    word += 1;
                    continue;
                }
                let nw = w | (1u64 << (bit as u64));
                self.bitmap[word] = nw;
                proof {
                    assert(i / 64 == word);
                    assert(i % 64 == bit);
                    assert(!v0.used[i as int]);
                    assert forall|j: int| 0 <= j < i implies #[trigger] v0.used[j] by {
                        if j >= word * 64 {
                            assert(j / 64 == word as int);
                            assert(((j % 64) as u64) < u64_trailing_zeros(!w));
                        }
                    }
                    lemma_first_unused_is(v0.used, v0.capacity, 0, i as nat);
                    assert forall|j: int| 0 <= j < MAX_SLOTS implies self@.used[j] == v0.used.update(
                        i as int,
                        true,
                    )[j] by {
                        if j / 64 == word as int {
                            lemma_word_or(w, bit as u64, (j % 64) as u64);
                        }
                    }
                    assert(self@.used =~= v0.used.update(i as int, true));
                    assert(i * self.obj_size <= self.capacity * self.obj_size) by (nonlinear_arith)
                        requires
                            i < self.capacity,
                    ;
                }
                return Some(self.base + i * self.obj_size);
            }
            proof {
                let w = self.bitmap[word as int];
                lemma_word_full(w);
                assert forall|j: int| 0 <= j < (word + 1) * 64 && j < v0.capacity implies #[trigger] v0.used[j] by {
                    if j >= word * 64 {
                        assert(j / 64 == word as int);
                        assert(w == u64::MAX) by (bit_vector)
                            requires
                                !w == 0,
                        ;
                    }
                }
            }
            word += 1;
        }
        proof {
            lemma_first_unused_none(v0.used, v0.capacity, 0);
        }
        None
    }

    /// Releases the slot holding `addr`; `false` when `addr` is outside the page.
    pub fn free(&mut self, addr: usize) -> (r: bool)
        requires
            old(self).wf(),
        ensures
            final(self).wf(),
            (r, final(self)@) == page_free(old(self)@, addr as nat),
    {
        let ghost v0 = self@;
        if addr < self.base || addr >= self.base + self.capacity * self.obj_size {
            return false;
        }
        let idx = (addr - self.base) / self.obj_size;
        proof {
            vstd::arithmetic::div_mod::lemma_div_is_ordered(
                (addr - self.base) as int,
                (self.capacity * self.obj_size) as int,
                self.obj_size as int,
            );
            vstd::arithmetic::div_mod::lemma_div_by_multiple(self.capacity as int, self.obj_size as int);
            assert(idx < self.capacity) by {
                assert((addr - self.base) < self.capacity * self.obj_size);
                vstd::arithmetic::div_mod::lemma_div_by_multiple_is_strongly_ordered(
                    (addr - self.base) as int,
                    (self.capacity * self.obj_size) as int,
                    self.capacity as int,
                    self.obj_size as int,
                );
            }
        }
        let word = idx / 64;
        let bit = idx % 64;
        let w = self.bitmap[word];
        self.bitmap[word] = w & !(1u64 << (bit as u64));
        proof {
            assert forall|j: int| 0 <= j < MAX_SLOTS implies self@.used[j] == v0.used.update(
                idx as int,
                false,
            )[j] by {
                if j / 64 == word as int {
                    lemma_word_and_not(w, bit as u64, (j % 64) as u64);
                }
            }
            assert(self@.used =~= v0.used.update(idx as int, false));
        }
        true
    }

    /// Whether every slot is in use.
    pub fn is_full(&self) -> (r: bool)
        requires
            self.wf(),
        ensures
            r == page_full(self@),
    {
        let full_words = self.capacity / 64;
        let mut w: usize = 0;
        while w < full_words
            invariant
                self.wf(),
                full_words == self.capacity / 64,
                self.capacity <= MAX_SLOTS,
                w <= full_words,
                forall|j: int| 0 <= j < w * 64 ==> #[trigger] self@.used[j],
            decreases full_words - w,
        {
            let word = self.bitmap[w];
            proof {
                lemma_word_full(word);
            }
            if word != u64::MAX {
                proof {
                    assert(!word != 0) by (bit_vector)
                        requires
                            word != 0xffff_ffff_ffff_ffffu64,
                    ;
                    let t = u64_trailing_zeros(!word);
                    lemma_first_clear(word);
                    assert(!self@.used[w * 64 + t]);
                }
                return false;
            }
            proof {
                assert forall|j: int| 0 <= j < (w + 1) * 64 implies #[trigger] self@.used[j] by {
                    if j >= w * 64 {
                        assert(j / 64 == w as int);
                        assert((word >> ((j % 64) as u64)) & 1u64 == 1u64);
                    }
                }
            }
            w += 1;
        }
        let rem = self.capacity % 64;
        if rem > 0 {
            proof {
                let r64 = rem as u64;
                assert((1u64 << r64) >= 1u64) by (bit_vector)
                    requires
                        r64 < 64,
                ;
            }
            let mask = (1u64 << (rem as u64)) - 1;
            let word = self.bitmap[full_words];
            proof {
                lemma_word_low_mask(word, rem as u64, mask);
            }
            if word & mask != mask {
                proof {
                    let t = choose|j: u64| j < rem && !((word >> j) & 1u64 == 1u64);
                    assert(!self@.used[full_words * 64 + t]);
                }
                return false;
            }
            proof {
                assert forall|j: int| 0 <= j < self.capacity implies #[trigger] self@.used[j] by {
                    if j >= full_words * 64 {
                        assert(j / 64 == full_words as int);
                        assert(((j % 64) as u64) < rem);
                    }
                }
            }
        }
        true
    }

    /// Whether no slot is in use.
    pub fn is_empty(&self) -> (r: bool)
        requires
            self.wf(),
        ensures
            r == page_empty(self@),
    {
        let mut w: usize = 0;
        while w < 4
            invariant
                w <= 4,
                forall|j: int| 0 <= j < w * 64 ==> !#[trigger] self@.used[j],
            decreases 4 - w,
        {
            let word = self.bitmap[w];
            proof {
                lemma_word_zero(word);
            }
            if word != 0 {
                proof {
                    let t = choose|j: u64| j < 64 && (word >> j) & 1u64 == 1u64;
                    assert(self@.used[w * 64 + t]);
                }
                return false;
            }
            proof {
                assert forall|j: int| 0 <= j < (w + 1) * 64 implies !#[trigger] self@.used[j] by {
                    if j >= w * 64 {
                        assert(j / 64 == w as int);
                        assert(!((word >> ((j % 64) as u64)) & 1u64 == 1u64));
                    }
                }
            }
            w += 1;
        }
        true
    }

    /// Whether `addr` lies inside the slots of this page.
    pub fn contains(&self, addr: usize) -> (r: bool)
        requires
            self.wf(),
        ensures
            r == page_contains(self@, addr as nat),
    {
        addr >= self.base && addr < self.base + self.capacity * self.obj_size
    }

    pub fn base(&self) -> (r: usize)
        ensures
            r == self@.base,
    {
        self.base
    }
}

proof fn lemma_first_unused_is(used: Seq<bool>, cap: nat, from: nat, i: nat)
    requires
        from <= i < cap,
        !used[i as int],
        forall|j: int| from <= j < i ==> #[trigger] used[j],
    ensures
        first_unused_from(used, cap, from) == Some(i),
    decreases i - from,
{
    if from < i {
        lemma_first_unused_is(used, cap, from + 1, i);
    }
}

proof fn lemma_first_unused_none(used: Seq<bool>, cap: nat, from: nat)
    requires
        forall|j: int| from <= j < cap ==> #[trigger] used[j],
    ensures
        first_unused_from(used, cap, from) is None,
    decreases cap - from,
{
    if from < cap {
        lemma_first_unused_none(used, cap, from + 1);
    }
}

proof fn lemma_first_unused_some(used: Seq<bool>, cap: nat, from: nat)
    ensures
        first_unused_from(used, cap, from) matches Some(i) ==> from <= i < cap && !used[i as int]
            && forall|j: int| from <= j < i ==> #[trigger] used[j],
        first_unused_from(used, cap, from) is None ==> forall|j: int|
            from <= j < cap ==> #[trigger] used[j],
    decreases cap - from,
{
    if from < cap {
        lemma_first_unused_some(used, cap, from + 1);
    }
}

/// A page hands out a slot exactly when it is not full.
pub proof fn lemma_page_alloc_iff_not_full(p: SlabPageView)
    ensures
        page_alloc(p).0 is Some <==> !page_full(p),
{
    lemma_first_unused_some(p.used, p.capacity, 0);
}

/// Freeing the address that `alloc` handed out gives the page back the
/// state it had before the allocation.
pub proof fn lemma_page_alloc_free_roundtrip(p: SlabPageView)
    requires
        page_wf(p),
        page_alloc(p).0 is Some,
    ensures
        page_free(page_alloc(p).1, page_alloc(p).0->0) == (true, p),
{
    lemma_first_unused_some(p.used, p.capacity, 0);
    let i = first_unused_from(p.used, p.capacity, 0)->0;
    let q = page_alloc(p).1;
    let a = slot_addr(p, i);
    assert(i * p.obj_size + p.obj_size <= p.capacity * p.obj_size) by (nonlinear_arith)
        requires
            i < p.capacity,
    ;
    vstd::arithmetic::div_mod::lemma_div_by_multiple(i as int, p.obj_size as int);
    assert((a - p.base) as nat == i * p.obj_size);
    assert(q.used.update(i as int, false) =~= p.used);
}


/// The abstract state of a cache of slabs of one object size.
pub struct SlabCacheView {
    pub obj_size: nat,
    pub count: nat,
    pub pages: Seq<Option<SlabPageView>>,
}

/// The least page at index `i` or above, below `count`, that is not full.
pub open spec fn first_not_full(pages: Seq<Option<SlabPageView>>, count: nat, i: nat) -> Option<nat>
    decreases count - i,
{
    if i >= count {
        None
    } else if (pages[i as int] matches Some(p) && !page_full(p)) {
        Some(i)
    } else {
        first_not_full(pages, count, i + 1)
    }
}

/// The least page at index `i` or above, below `count`, that holds `addr`.
pub open spec fn first_containing(pages: Seq<Option<SlabPageView>>, count: nat, addr: nat, i: nat) -> Option<nat>
    decreases count - i,
{
    if i >= count {
        None
    } else if (pages[i as int] matches Some(p) && page_contains(p, addr)) {
        Some(i)
    } else {
        first_containing(pages, count, addr, i + 1)
    }
}

/// Whether a page other than `i`, below `count`, is empty.
pub open spec fn other_empty(pages: Seq<Option<SlabPageView>>, count: nat, i: nat) -> bool {
    exists|j: int| 0 <= j < count && j != i && (#[trigger] pages[j] matches Some(p) && page_empty(p))
}

/// Removing slot `removed` from the first `count` entries, moving it to
/// position `count - 1`.
pub open spec fn rotate_out<T>(s: Seq<T>, removed: nat, count: nat) -> Seq<T> {
    s.subrange(0, removed as int) + s.subrange(removed as int + 1, count as int) + seq![s[removed as int]]
        + s.subrange(count as int, s.len() as int)
}

/// What `SlabCache::allocate` returns, the cache it leaves, and the buddy
/// bitmap it leaves.
pub open spec fn cache_alloc_outcome(c: SlabCacheView, b: BuddyView) -> (Option<nat>, SlabCacheView, Seq<bool>) {
    match first_not_full(c.pages, c.count, 0) {
        Some(i) => {
            let (r, p1) = page_alloc(c.pages[i as int]->0);
            (r, SlabCacheView { pages: c.pages.update(i as int, Some(p1)), ..c }, b.marks)
        },
        None => if c.count >= MAX_SLABS_PER_SIZE {
            (None, c, b.marks)
        } else {
            let (ba, bm) = buddy_alloc_outcome(b, 0);
            match ba {
                None => (None, c, bm),
                Some(a) => {
                    let (r, p1) = page_alloc(fresh_page(a, c.obj_size));
                    (
                        r,
                        SlabCacheView {
                            count: c.count + 1,
                            pages: c.pages.update(c.count as int, Some(p1)),
                            ..c
                        },
                        bm,
                    )
                },
            }
        },
    }
}

/// What `SlabCache::free` returns, the cache it leaves, and the buddy bitmap
/// it leaves.
pub open spec fn cache_free_outcome(c: SlabCacheView, b: BuddyView, addr: nat) -> (bool, SlabCacheView, Seq<bool>) {
    match first_containing(c.pages, c.count, addr, 0) {
        None => (false, c, b.marks),
        Some(i) => {
            let p1 = page_free(c.pages[i as int]->0, addr).1;
            if page_empty(p1) && c.count > 1 && other_empty(c.pages, c.count, i) {
                (
                    true,
                    SlabCacheView {
                        count: (c.count - 1) as nat,
                        pages: rotate_out(c.pages.update(i as int, None), i, c.count),
                        ..c
                    },
                    buddy_free_outcome(b, p1.base, 0),
                )
            } else {
                (true, SlabCacheView { pages: c.pages.update(i as int, Some(p1)), ..c }, b.marks)
            }
        },
    }
}

pub open spec fn opt_page_view(p: Option<SlabPage>) -> Option<SlabPageView> {
    match p {
        Some(pg) => Some(pg@),
        None => None,
    }
}

pub struct SlabCache {
    obj_size: usize,
    pages: Vec<Option<SlabPage>>,
    count: usize,
}

impl View for SlabCache {
    type V = SlabCacheView;

    closed spec fn view(&self) -> SlabCacheView {
        SlabCacheView {
            obj_size: self.obj_size as nat,
            count: self.count as nat,
            pages: self.pages@.map_values(|p: Option<SlabPage>| opt_page_view(p)),
        }
    }
}

/// The invariant of a cache's abstract state.
/// The shape of a well-formed cache: its pages, in use below `count`, are
/// well formed and of its object size.
pub open spec fn cache_shape(c: SlabCacheView) -> bool {
    &&& 0 < c.obj_size <= 2048
    &&& c.pages.len() == MAX_SLABS_PER_SIZE
    &&& c.count <= MAX_SLABS_PER_SIZE
    &&& forall|i: int|
        0 <= i < c.count ==> (#[trigger] c.pages[i] matches Some(p) && page_wf(p) && p.obj_size
            == c.obj_size)
    &&& forall|i: int| c.count <= i < MAX_SLABS_PER_SIZE ==> #[trigger] c.pages[i] is None
}

/// A well-formed cache: its shape, and at most one of its pages empty.
pub open spec fn cache_wf(c: SlabCacheView) -> bool {
    &&& cache_shape(c)
    &&& one_empty_at_most(c)
}

impl SlabCache {
    pub closed spec fn wf(&self) -> bool {
        &&& self.shape_wf()
        &&& one_empty_at_most(self@)
    }

    /// The invariant, as callers see it: among other things, at most one
    /// page of the cache is empty.
    pub proof fn lemma_wf(&self)
        requires
            self.wf(),
        ensures
            cache_wf(self@),
    {
    }

    /// The shape alone, which also holds midway through a free.
    closed spec fn shape_wf(&self) -> bool {
        &&& self.pages.len() == MAX_SLABS_PER_SIZE
        &&& cache_shape(self@)
        &&& forall|i: int| 0 <= i < self.count ==> (#[trigger] self.pages@[i] matches Some(p) && p.wf())
    }

    /// An empty cache of `obj_size`-byte objects.
    pub fn new(obj_size: usize) -> (r: Self)
        requires
            0 < obj_size <= 2048,
        ensures
            r.wf(),
            r@.obj_size == obj_size,
            r@.count == 0,
            r@.pages == Seq::new(MAX_SLABS_PER_SIZE as nat, |i: int| None::<SlabPageView>),
    {
        let mut pages: Vec<Option<SlabPage>> = Vec::new();
        let mut i: usize = 0;
        while i < MAX_SLABS_PER_SIZE
            invariant
                i <= MAX_SLABS_PER_SIZE,
                pages.len() == i,
                forall|j: int| 0 <= j < i ==> #[trigger] pages@[j] is None,
            decreases MAX_SLABS_PER_SIZE - i,
        {
            pages.push(None);
            i += 1;
        }
        let r = SlabCache { obj_size, pages, count: 0 };
        assert(r@.pages =~= Seq::new(MAX_SLABS_PER_SIZE as nat, |i: int| None::<SlabPageView>));
        r
    }

    pub fn obj_size(&self) -> (r: usize)
        ensures
            r == self@.obj_size,
    {
        self.obj_size
    }

    /// Hands out an object: from the first slab that is not full, or from a
    /// new slab on a page taken from `buddy`.
    pub fn allocate(&mut self, buddy: &mut BuddyAllocator) -> (r: Option<usize>)
        requires
            old(self).wf(),
            old(buddy).wf(),
        ensures
            final(self).wf(),
            final(buddy).wf(),
            final(buddy)@.base == old(buddy)@.base,
            final(buddy)@.total_pages == old(buddy)@.total_pages,
            final(buddy)@.max_order == old(buddy)@.max_order,
            (opt_nat(r), final(self)@, final(buddy)@.marks) == cache_alloc_outcome(
                old(self)@,
                old(buddy)@,
            ),
            r matches Some(a) ==> exists|i: int|
                0 <= i < final(self)@.count && (#[trigger] final(self)@.pages[i] matches Some(p)
                    && page_contains(p, a as nat) && (a - p.base) % (p.obj_size as int) == 0),
    {
        let ghost c0 = self@;
        let mut i: usize = 0;
        while i < self.count
            invariant
                self.wf(),
                self@ == c0,
                old(self)@ == c0,
                buddy.wf(),
                buddy@ == old(buddy)@,
                i <= self.count,
                first_not_full(c0.pages, c0.count, i as nat) == first_not_full(c0.pages, c0.count, 0),
            decreases self.count - i,
        {
            let slot = self.pages[i];
            match slot {
                Some(page) => {
                    if !page.is_full() {
                        let mut pg = page;
                        let r = pg.allocate();
                        self.pages.set(i, Some(pg));
                        proof {
                            lemma_page_alloc_iff_not_full(page@);
                            lemma_slot_placed(page@);
                            assert(self@.pages =~= c0.pages.update(i as int, Some(pg@)));
                            assert(self@.pages[i as int] == Some(pg@));
                            lemma_alloc_keeps_one_empty(c0, old(buddy)@);
                        }
                        return r;
                    }
                },
                None => {},
            }
            i += 1;
        }
        if self.count >= MAX_SLABS_PER_SIZE {
            return None;
        }
        proof {
            buddy.lemma_wf();
        }
        let page_addr = match buddy.alloc_one() {
            Some(a) => a,
            None => {
                return None;
            },
        };
        proof {
            lemma_capacity_fits(self.obj_size as nat);
            vstd::arithmetic::power2::lemma2_to64();
        }
        let mut slab = SlabPage::new(page_addr, self.obj_size);
        let result = slab.allocate();
        proof {
            lemma_fresh_alloc(page_addr as nat, self.obj_size as nat);
            lemma_slot_placed(fresh_page(page_addr as nat, self.obj_size as nat));
        }
        self.pages.set(self.count, Some(slab));
        self.count += 1;
        proof {
            assert(self@.pages =~= c0.pages.update(c0.count as int, Some(slab@)));
            assert(self@.pages[c0.count as int] == Some(slab@));
            lemma_alloc_keeps_one_empty(c0, old(buddy)@);
        }
        result
    }

    /// Moves the (emptied) entry `removed` to the end of the used entries
    /// and shrinks the count by one.
    fn compact(&mut self, removed: usize)
        requires
            old(self).pages.len() == MAX_SLABS_PER_SIZE,
            0 < old(self).count <= MAX_SLABS_PER_SIZE,
            removed < old(self).count,
        ensures
            final(self).pages.len() == MAX_SLABS_PER_SIZE,
            final(self).obj_size == old(self).obj_size,
            final(self).count == old(self).count - 1,
            final(self)@.pages == rotate_out(old(self)@.pages, removed as nat, old(self)@.count),
            final(self).pages@ == rotate_out(old(self).pages@, removed as nat, old(self).count as nat),
    {
        let ghost old_pages = self.pages@;
        if removed < self.count - 1 {
            let mut i = removed;
            while i < self.count - 1
                invariant
                    self.pages.len() == MAX_SLABS_PER_SIZE,
                    self.count == old(self).count,
                    self.obj_size == old(self).obj_size,
                    old_pages == old(self).pages@,
                    0 < self.count <= MAX_SLABS_PER_SIZE,
                    removed <= i < self.count,
                    forall|k: int| 0 <= k < removed ==> #[trigger] self.pages@[k] == old_pages[k],
                    forall|k: int| removed <= k < i ==> #[trigger] self.pages@[k] == old_pages[k + 1],
                    self.pages@[i as int] == old_pages[removed as int],
                    forall|k: int| i < k < MAX_SLABS_PER_SIZE ==> #[trigger] self.pages@[k] == old_pages[k],
                decreases self.count - i,
            {
                let a = self.pages[i];
                let b = self.pages[i + 1];
                self.pages.set(i, b);
                self.pages.set(i + 1, a);
                i += 1;
            }
        }
        self.count -= 1;
        proof {
            let rot = rotate_out(old_pages, removed as nat, old(self).count as nat);
            assert(self.pages@ =~= rot);
            assert(self@.pages =~= rotate_out(old(self)@.pages, removed as nat, old(self)@.count));
        }
    }

    /// Releases the object at `addr` if one of this cache's slabs holds it.
    /// A slab that becomes empty while another slab is also empty goes back
    /// to `buddy`.
    pub fn free(&mut self, addr: usize, buddy: &mut BuddyAllocator) -> (r: bool)
        requires
            old(self).wf(),
            old(buddy).wf(),
        ensures
            final(self).wf(),
            final(buddy).wf(),
            final(buddy)@.base == old(buddy)@.base,
            final(buddy)@.total_pages == old(buddy)@.total_pages,
            final(buddy)@.max_order == old(buddy)@.max_order,
            (r, final(self)@, final(buddy)@.marks) == cache_free_outcome(
                old(self)@,
                old(buddy)@,
                addr as nat,
            ),
    {
        let ghost c0 = self@;
        let mut found: Option<(usize, bool, usize)> = None;
        let mut i: usize = 0;
        while i < self.count
            invariant_except_break
                self.shape_wf(),
                self@ == c0,
                old(self)@ == c0,
                buddy.wf(),
                buddy@ == old(buddy)@,
                found is None,
                i <= self.count,
                first_containing(c0.pages, c0.count, addr as nat, i as nat) == first_containing(
                    c0.pages,
                    c0.count,
                    addr as nat,
                    0,
                ),
            ensures
                old(self)@ == c0,
                buddy.wf(),
                buddy@ == old(buddy)@,
                self.pages.len() == MAX_SLABS_PER_SIZE,
                self.count == c0.count,
                self.obj_size == c0.obj_size,
                found matches Some((fi, fe, fb)) ==> {
                    &&& first_containing(c0.pages, c0.count, addr as nat, 0) == Some(fi as nat)
                    &&& self@.pages == c0.pages.update(
                        fi as int,
                        Some(page_free(c0.pages[fi as int]->0, addr as nat).1),
                    )
                    &&& fe == page_empty(page_free(c0.pages[fi as int]->0, addr as nat).1)
                    &&& fb == c0.pages[fi as int]->0.base
                    &&& self.shape_wf()
                },
                found is None ==> self.shape_wf() && self@ == c0 && first_containing(
                    c0.pages,
                    c0.count,
                    addr as nat,
                    0,
                ) is None,
            decreases self.count - i,
        {
            let slot = self.pages[i];
            if let Some(page) = slot {
                if page.contains(addr) {
                    let mut pg = page;
                    pg.free(addr);
                    let empty = pg.is_empty();
                    let base = pg.base();
                    self.pages.set(i, Some(pg));
                    found = Some((i, empty, base));
                    proof {
                        assert(self@.pages =~= c0.pages.update(i as int, Some(pg@)));
                    }
                    break;
                }
            }
            i += 1;
        }
        let (i, empty, base) = match found {
            Some(v) => v,
            None => {
                return false;
            },
        };
        let ghost c1 = self@;
        proof {
            lemma_first_containing_some(c0.pages, c0.count, addr as nat, 0);
        }
        if empty && self.count > 1 {
            let mut has_other_empty = false;
            let mut j: usize = 0;
            while j < self.count
                invariant
                    self.shape_wf(),
                    self@ == c1,
                    buddy.wf(),
                    buddy@ == old(buddy)@,
                    c1.count == c0.count,
                    c0.pages.len() == MAX_SLABS_PER_SIZE,
                    i < c0.count,
                    c1.pages == c0.pages.update(i as int, c1.pages[i as int]),
                    j <= self.count,
                    has_other_empty == exists|k: int|
                        0 <= k < j && k != i && (#[trigger] c0.pages[k] matches Some(p)
                            && page_empty(p)),
                decreases self.count - j,
            {
                let mut this_empty = false;
                if j != i {
                    match self.pages[j] {
                        Some(pg) => {
                            this_empty = pg.is_empty();
                        },
                        None => {},
                    }
                }
                proof {
                    assert(self@.pages[j as int] == opt_page_view(self.pages@[j as int]));
                    assert(this_empty == (j != i && (c0.pages[j as int] matches Some(p)
                        && page_empty(p))));
                }
                if this_empty {
                    has_other_empty = true;
                }
                j += 1;
            }
            if has_other_empty {
                buddy.free_one(base);
                let ghost ep0 = self.pages@;
                proof {
                    assert(self@ == c1);
                }
                self.pages.set(i, None);
                proof {
                    assert forall|k: int| 0 <= k < MAX_SLABS_PER_SIZE implies #[trigger] self@.pages[k]
                        == c0.pages.update(i as int, None)[k] by {
                        assert(self@.pages[k] == opt_page_view(self.pages@[k]));
                        if k != i {
                            assert(self.pages@[k] == ep0[k]);
                            assert(c1.pages[k] == opt_page_view(ep0[k]));
                        }
                    }
                    assert(self@.pages =~= c0.pages.update(i as int, None));
                }
                let ghost ep = self.pages@;
                self.compact(i);
                proof {
                    assert forall|k: int| 0 <= k < self.count implies (#[trigger] self.pages@[k] matches Some(p) && p.wf()) by {
                        if k < i {
                            assert(self.pages@[k] == ep[k]);
                            assert(ep[k] == ep0[k]);
                        } else {
                            assert(self.pages@[k] == ep[k + 1]);
                            assert(ep[k + 1] == ep0[k + 1]);
                        }
                    }
                    let rot = rotate_out(c0.pages.update(i as int, None), i as nat, c0.count);
                    assert forall|k: int| 0 <= k < self@.count implies (#[trigger] self@.pages[k] matches Some(p) && page_wf(p) && p.obj_size == self@.obj_size) by {
                        if k < i {
                            assert(self@.pages[k] == c0.pages[k]);
                        } else {
                            assert(self@.pages[k] == c0.pages[k + 1]);
                        }
                    }
                }
            }
        }
        proof {
            lemma_free_keeps_one_empty(c0, old(buddy)@, addr as nat);
        }
        true
    }
}


/// Object size of size class `k`.
pub open spec fn class_size(k: int) -> nat {
    if k == 0 {
        16
    } else if k == 1 {
        32
    } else if k == 2 {
        64
    } else if k == 3 {
        128
    } else if k == 4 {
        256
    } else if k == 5 {
        512
    } else if k == 6 {
        1024
    } else {
        2048
    }
}

/// The least size class at `k` or above whose objects hold `size` bytes.
pub open spec fn fitting_class(size: nat, k: nat) -> Option<nat>
    decreases NUM_CACHES - k,
{
    if k >= NUM_CACHES {
        None
    } else if class_size(k as int) >= size {
        Some(k)
    } else {
        fitting_class(size, k + 1)
    }
}

/// The least cache at `k` or above with a slab that holds `addr`.
pub open spec fn holding_cache(caches: Seq<SlabCacheView>, addr: nat, k: nat) -> Option<nat>
    decreases NUM_CACHES - k,
{
    if k >= NUM_CACHES {
        None
    } else if first_containing(caches[k as int].pages, caches[k as int].count, addr, 0) is Some {
        Some(k)
    } else {
        holding_cache(caches, addr, k + 1)
    }
}

/// What `SlabAllocator::allocate(size)` returns, the caches and the buddy
/// bitmap it leaves.
pub open spec fn slab_alloc_outcome(caches: Seq<SlabCacheView>, b: BuddyView, size: nat) -> (Option<nat>, Seq<SlabCacheView>, Seq<bool>) {
    match fitting_class(size, 0) {
        None => (None, caches, b.marks),
        Some(k) => {
            let (r, c1, m) = cache_alloc_outcome(caches[k as int], b);
            (r, caches.update(k as int, c1), m)
        },
    }
}

/// What `SlabAllocator::free(addr)` returns, the caches and the buddy bitmap
/// it leaves.
pub open spec fn slab_free_outcome(caches: Seq<SlabCacheView>, b: BuddyView, addr: nat) -> (bool, Seq<SlabCacheView>, Seq<bool>) {
    match holding_cache(caches, addr, 0) {
        None => (false, caches, b.marks),
        Some(k) => {
            let (r, c1, m) = cache_free_outcome(caches[k as int], b, addr);
            (r, caches.update(k as int, c1), m)
        },
    }
}

pub struct SlabAllocator {
    caches: Vec<SlabCache>,
}

impl View for SlabAllocator {
    type V = Seq<SlabCacheView>;

    closed spec fn view(&self) -> Seq<SlabCacheView> {
        self.caches@.map_values(|c: SlabCache| c@)
    }
}

impl SlabAllocator {
    pub closed spec fn wf(&self) -> bool {
        &&& self.caches.len() == NUM_CACHES
        &&& forall|k: int| 0 <= k < NUM_CACHES ==> (#[trigger] self.caches@[k]).wf()
        &&& forall|k: int| 0 <= k < NUM_CACHES ==> (#[trigger] self.caches@[k])@.obj_size == class_size(k)
    }

    pub proof fn lemma_wf(&self)
        requires
            self.wf(),
        ensures
            self@.len() == NUM_CACHES,
            forall|k: int| 0 <= k < NUM_CACHES ==> cache_wf(#[trigger] self@[k]) && self@[k].obj_size == class_size(k),
    {
        assert forall|k: int| 0 <= k < NUM_CACHES implies cache_wf(#[trigger] self@[k]) && self@[k].obj_size == class_size(k) by {
            assert(self@[k] == self.caches@[k]@);
        }
    }

    /// Eight empty caches, for objects of 16, 32, ... 2048 bytes.
    pub fn new() -> (r: Self)
        ensures
            r.wf(),
            forall|k: int| 0 <= k < NUM_CACHES ==> (#[trigger] r@[k]).count == 0,
    {
        let mut caches: Vec<SlabCache> = Vec::new();
        caches.push(SlabCache::new(16));
        caches.push(SlabCache::new(32));
        caches.push(SlabCache::new(64));
        caches.push(SlabCache::new(128));
        caches.push(SlabCache::new(256));
        caches.push(SlabCache::new(512));
        caches.push(SlabCache::new(1024));
        caches.push(SlabCache::new(2048));
        let r = SlabAllocator { caches };
        proof {
            assert forall|k: int| 0 <= k < NUM_CACHES implies (#[trigger] r@[k]).count == 0 by {
                assert(r@[k] == r.caches@[k]@);
            }
        }
        r
    }

    /// Hands out an object of at least `size` bytes from the smallest size
    /// class that fits; `None` for sizes above 2048 bytes or when the cache
    /// cannot grow.
    pub fn allocate(&mut self, size: usize, buddy: &mut BuddyAllocator) -> (r: Option<usize>)
        requires
            old(self).wf(),
            old(buddy).wf(),
        ensures
            final(self).wf(),
            final(buddy).wf(),
            final(buddy)@.base == old(buddy)@.base,
            final(buddy)@.total_pages == old(buddy)@.total_pages,
            final(buddy)@.max_order == old(buddy)@.max_order,
            (opt_nat(r), final(self)@, final(buddy)@.marks) == slab_alloc_outcome(
                old(self)@,
                old(buddy)@,
                size as nat,
            ),
    {
        let ghost s0 = self@;
        let mut k: usize = 0;
        while k < NUM_CACHES
            invariant
                self.wf(),
                self@ == s0,
                old(self)@ == s0,
                buddy.wf(),
                buddy@ == old(buddy)@,
                k <= NUM_CACHES,
                fitting_class(size as nat, k as nat) == fitting_class(size as nat, 0),
            decreases NUM_CACHES - k,
        {
            if self.caches[k].obj_size() >= size {
                let ghost ec = self.caches@;
                let mut cache = self.caches.remove(k);
                let r = cache.allocate(buddy);
                self.caches.insert(k, cache);
                proof {
                    assert(self@ =~= s0.update(k as int, cache@));
                    assert forall|j: int| 0 <= j < NUM_CACHES implies (#[trigger] self.caches@[j]).wf() && self.caches@[j]@.obj_size == class_size(j) by {
                        if j != k {
                            assert(self.caches@[j] == ec[j]);
                        }
                    }
                }
                return r;
            }
            k += 1;
        }
        None
    }

    /// Releases the object at `addr` into the first cache that holds it;
    /// `false` when none does.
    pub fn free(&mut self, addr: usize, buddy: &mut BuddyAllocator) -> (r: bool)
        requires
            old(self).wf(),
            old(buddy).wf(),
        ensures
            final(self).wf(),
            final(buddy).wf(),
            final(buddy)@.base == old(buddy)@.base,
            final(buddy)@.total_pages == old(buddy)@.total_pages,
            final(buddy)@.max_order == old(buddy)@.max_order,
            (r, final(self)@, final(buddy)@.marks) == slab_free_outcome(
                old(self)@,
                old(buddy)@,
                addr as nat,
            ),
    {
        let ghost s0 = self@;
        let mut k: usize = 0;
        while k < NUM_CACHES
            invariant
                self.wf(),
                self@ == s0,
                old(self)@ == s0,
                buddy.wf(),
                buddy@ == old(buddy)@,
                k <= NUM_CACHES,
                holding_cache(s0, addr as nat, k as nat) == holding_cache(s0, addr as nat, 0),
            decreases NUM_CACHES - k,
        {
            let ghost ec = self.caches@;
            let mut cache = self.caches.remove(k);
            let ghost ck = cache@;
            let freed = cache.free(addr, buddy);
            self.caches.insert(k, cache);
            proof {
                assert(ck == s0[k as int]);
                assert(self@ =~= s0.update(k as int, cache@));
                assert forall|j: int| 0 <= j < NUM_CACHES implies (#[trigger] self.caches@[j]).wf() && self.caches@[j]@.obj_size == class_size(j) by {
                    if j != k {
                        assert(self.caches@[j] == ec[j]);
                    }
                }
            }
            if freed {
                return true;
            }
            proof {
                assert(self@ =~= s0);
            }
            k += 1;
        }
        false
    }
}

proof fn lemma_capacity_fits(obj: nat)
    requires
        0 < obj <= 2048,
    ensures
        2 <= page_capacity(obj),
        page_capacity(obj) * obj <= PAGE_SIZE,
{
    let o = obj as int;
    let q: int = 4096int / o;
    let m: int = 4096int % o;
    vstd::arithmetic::div_mod::lemma_fundamental_div_mod(4096, o);
    vstd::arithmetic::div_mod::lemma_mod_pos_bound(4096, o);
    assert(o * q == q * o) by (nonlinear_arith);
    if q < 2 {
        assert(false) by (nonlinear_arith)
            requires
                q < 2,
                0 < o <= 2048,
                4096 == o * q + m,
                0 <= m < o,
        ;
    }
    if q > 256 {
        assert(256 * o <= q * o) by (nonlinear_arith)
            requires
                q > 256,
                o > 0,
        ;
    }
}

proof fn lemma_first_containing_some(pages: Seq<Option<SlabPageView>>, count: nat, addr: nat, i: nat)
    ensures
        first_containing(pages, count, addr, i) matches Some(k) ==> i <= k < count && (pages[k as int] matches Some(p) && page_contains(p, addr)),
    decreases count - i,
{
    if i < count {
        lemma_first_containing_some(pages, count, addr, i + 1);
    }
}

proof fn lemma_first_not_full_some(pages: Seq<Option<SlabPageView>>, count: nat, i: nat)
    ensures
        first_not_full(pages, count, i) matches Some(k) ==> i <= k < count && (pages[k as int] matches Some(p) && !page_full(p)),
    decreases count - i,
{
    if i < count {
        lemma_first_not_full_some(pages, count, i + 1);
    }
}

proof fn lemma_fresh_alloc(base: nat, obj: nat)
    requires
        0 < obj <= 2048,
    ensures
        page_alloc(fresh_page(base, obj)).0 == Some(base),
        page_alloc(fresh_page(base, obj)).1 == (SlabPageView {
            used: Seq::new(MAX_SLOTS as nat, |i: int| false).update(0, true),
            ..fresh_page(base, obj)
        }),
{
    lemma_capacity_fits(obj);
    let f = fresh_page(base, obj);
    assert(!f.used[0]);
    assert(first_unused_from(f.used, f.capacity, 0) == Some(0nat));
    assert(slot_addr(f, 0) == base);
}

/// The address `alloc` hands out is a slot boundary inside the page.
proof fn lemma_slot_placed(p: SlabPageView)
    requires
        page_wf(p),
    ensures
        page_alloc(p).0 matches Some(a) ==> page_contains(page_alloc(p).1, a) && (a - p.base) % (
        p.obj_size as int) == 0,
{
    lemma_first_unused_some(p.used, p.capacity, 0);
    if let Some(i) = first_unused_from(p.used, p.capacity, 0) {
        assert(i * p.obj_size + p.obj_size <= p.capacity * p.obj_size) by (nonlinear_arith)
            requires
                i < p.capacity,
        ;
        vstd::arithmetic::div_mod::lemma_mod_multiples_basic(i as int, p.obj_size as int);
    }
}

/// Page `i` of `pages` is held and contains `addr`.
pub open spec fn holds_at(pages: Seq<Option<SlabPageView>>, i: int, addr: nat) -> bool {
    pages[i] matches Some(p) && page_contains(p, addr)
}

/// Some held page of some size class contains `addr`.
pub open spec fn slab_holds(caches: Seq<SlabCacheView>, addr: nat) -> bool {
    exists|k: int, i: int|
        0 <= k < NUM_CACHES && 0 <= i < caches[k].count && #[trigger] holds_at(caches[k].pages, i, addr)
}

proof fn lemma_first_containing(pages: Seq<Option<SlabPageView>>, count: nat, addr: nat, i: nat)
    ensures
        first_containing(pages, count, addr, i) is Some <==> exists|j: int|
            i <= j < count && #[trigger] holds_at(pages, j, addr),
        first_containing(pages, count, addr, i) matches Some(j) ==> i <= j < count && holds_at(
            pages,
            j as int,
            addr,
        ),
    decreases count - i,
{
    if i < count {
        lemma_first_containing(pages, count, addr, i + 1);
        if !holds_at(pages, i as int, addr) {
            assert forall|j: int| i <= j < count && #[trigger] holds_at(pages, j, addr) implies i + 1 <= j by {}
        }
    }
}

proof fn lemma_holding_cache(caches: Seq<SlabCacheView>, addr: nat, k: nat)
    ensures
        holding_cache(caches, addr, k) is Some <==> exists|m: int, i: int|
            k <= m < NUM_CACHES && 0 <= i < caches[m].count && #[trigger] holds_at(caches[m].pages, i, addr),
        holding_cache(caches, addr, k) matches Some(m) ==> k <= m < NUM_CACHES && first_containing(
            caches[m as int].pages,
            caches[m as int].count,
            addr,
            0,
        ) is Some,
    decreases NUM_CACHES - k,
{
    if k < NUM_CACHES {
        lemma_holding_cache(caches, addr, k + 1);
        lemma_first_containing(caches[k as int].pages, caches[k as int].count, addr, 0);
        if first_containing(caches[k as int].pages, caches[k as int].count, addr, 0) is Some {
            let j = choose|j: int| 0 <= j < caches[k as int].count && #[trigger] holds_at(caches[k as int].pages, j, addr);
            assert(holds_at(caches[k as int].pages, j, addr));
        } else {
            assert forall|m: int, i: int|
                k <= m < NUM_CACHES && 0 <= i < caches[m].count && #[trigger] holds_at(caches[m].pages, i, addr)
                implies k + 1 <= m by {
                if m == k {
                    assert(holds_at(caches[k as int].pages, i, addr));
                }
            }
        }
    }
}

/// `SlabAllocator::free` reports success exactly when some held page
/// contains the address; otherwise it changes neither the caches nor the
/// buddy bitmap.  On success the address's slot is unused again: its page
/// either stays where it was, or, left empty beside another empty page,
/// leaves the cache and goes back to the buddy allocator.
pub proof fn lemma_slab_free_iff_held(caches: Seq<SlabCacheView>, b: BuddyView, addr: nat)
    requires
        caches.len() == NUM_CACHES,
        forall|k: int| 0 <= k < NUM_CACHES ==> cache_wf(#[trigger] caches[k]),
    ensures
        slab_free_outcome(caches, b, addr).0 == slab_holds(caches, addr),
        !slab_holds(caches, addr) ==> slab_free_outcome(caches, b, addr).1 == caches
            && slab_free_outcome(caches, b, addr).2 == b.marks,
        slab_holds(caches, addr) ==> ({
            let k = holding_cache(caches, addr, 0)->0 as int;
            let i = first_containing(caches[k].pages, caches[k].count, addr, 0)->0 as int;
            let p = caches[k].pages[i]->0;
            let p1 = page_free(p, addr).1;
            let after = slab_free_outcome(caches, b, addr);
            &&& 0 <= k < NUM_CACHES
            &&& 0 <= i < caches[k].count
            &&& page_contains(p, addr)
            &&& p1 == (SlabPageView { used: p.used.update(((addr - p.base) as nat / p.obj_size) as int, false), ..p })
            &&& (after.1[k].pages[i] == Some(p1) || (page_empty(p1) && after.1[k].count + 1 == caches[k].count
                && after.2 == buddy_free_outcome(b, p1.base, 0)))
        }),
{
    lemma_holding_cache(caches, addr, 0);
    if let Some(k) = holding_cache(caches, addr, 0) {
        let c = caches[k as int];
        lemma_first_containing(c.pages, c.count, addr, 0);
        let i = first_containing(c.pages, c.count, addr, 0)->0;
        let p = c.pages[i as int]->0;
        let p1 = page_free(p, addr).1;
        assert(holds_at(c.pages, i as int, addr));
        assert(page_contains(p, addr));
        let after = slab_free_outcome(caches, b, addr);
        let co = cache_free_outcome(c, b, addr);
        assert(after.1[k as int] == co.1);
        if page_empty(p1) && c.count > 1 && other_empty(c.pages, c.count, i) {
            assert(co.1.count + 1 == c.count);
            assert(after.2 == buddy_free_outcome(b, p1.base, 0));
        } else {
            assert(co.1.pages[i as int] == Some(p1));
        }
    }
}

/// Page `i` of `pages` is held and has no live object.
pub open spec fn empty_at(pages: Seq<Option<SlabPageView>>, i: int) -> bool {
    pages[i] matches Some(p) && page_empty(p)
}

/// At most one held page of cache `c` has no live object.
pub open spec fn one_empty_at_most(c: SlabCacheView) -> bool {
    forall|i: int, j: int|
        0 <= i < c.count && 0 <= j < c.count && #[trigger] empty_at(c.pages, i) && #[trigger] empty_at(
            c.pages,
            j,
        ) ==> i == j
}

proof fn lemma_first_unused(used: Seq<bool>, cap: nat, i: nat)
    ensures
        first_unused_from(used, cap, i) matches Some(s) ==> i <= s < cap && !used[s as int],
        first_unused_from(used, cap, i) is None ==> forall|j: int| i <= j < cap ==> #[trigger] used[j],
    decreases cap - i,
{
    if i < cap {
        lemma_first_unused(used, cap, i + 1);
    }
}

proof fn lemma_first_not_full(pages: Seq<Option<SlabPageView>>, count: nat, i: nat)
    ensures
        first_not_full(pages, count, i) matches Some(j) ==> i <= j < count && (pages[j as int] matches Some(
            p,
        ) && !page_full(p)),
        first_not_full(pages, count, i) is None ==> forall|j: int|
            i <= j < count ==> !(#[trigger] pages[j] matches Some(p) && !page_full(p)),
    decreases count - i,
{
    if i < count {
        lemma_first_not_full(pages, count, i + 1);
    }
}

/// A page with a slot that `page_alloc` just handed out is not empty.
proof fn lemma_alloc_not_empty(p: SlabPageView)
    requires
        page_wf(p),
        page_alloc(p).0 is Some,
    ensures
        !page_empty(page_alloc(p).1),
{
    lemma_first_unused(p.used, p.capacity, 0);
    let s = first_unused_from(p.used, p.capacity, 0)->0;
    assert(page_alloc(p).1.used[s as int]);
}

/// Allocating from a cache keeps at most one of its pages empty.
pub proof fn lemma_alloc_keeps_one_empty(c: SlabCacheView, b: BuddyView)
    requires
        cache_wf(c),
        one_empty_at_most(c),
    ensures
        one_empty_at_most(cache_alloc_outcome(c, b).1),
{
    lemma_first_not_full(c.pages, c.count, 0);
    let c1 = cache_alloc_outcome(c, b).1;
    match first_not_full(c.pages, c.count, 0) {
        Some(i) => {
            let p = c.pages[i as int]->0;
            lemma_first_unused(p.used, p.capacity, 0);
            assert(page_alloc(p).0 is Some);
            lemma_alloc_not_empty(p);
            assert forall|x: int, y: int|
                0 <= x < c1.count && 0 <= y < c1.count && #[trigger] empty_at(c1.pages, x) && #[trigger] empty_at(
                    c1.pages,
                    y,
                ) implies x == y by {
                assert(x != i && y != i);
                assert(empty_at(c.pages, x) && empty_at(c.pages, y));
            }
        },
        None => {
            if c.count < MAX_SLABS_PER_SIZE {
                if let Some(a) = buddy_alloc_outcome(b, 0).0 {
                    let f = fresh_page(a, c.obj_size);
                    assert(page_capacity(c.obj_size) >= 2) by {
                        vstd::arithmetic::div_mod::lemma_div_is_ordered_by_denominator(
                            PAGE_SIZE as int,
                            c.obj_size as int,
                            2048,
                        );
                    }
                    assert(!f.used[0]);
                    lemma_first_unused(f.used, f.capacity, 0);
                    assert(page_alloc(f).0 is Some);
                    assert(!page_empty(page_alloc(f).1)) by {
                        let s = first_unused_from(f.used, f.capacity, 0)->0;
                        assert(page_alloc(f).1.used[s as int]);
                    }
                    assert forall|x: int| 0 <= x < c1.count implies !#[trigger] empty_at(c1.pages, x) by {
                        if x < c.count {
                            let q = c.pages[x]->0;
                            assert(c.pages[x] matches Some(qq) && page_wf(qq) && qq.obj_size == c.obj_size);
                            assert(page_full(q));
                            assert(page_capacity(q.obj_size) >= 2) by {
                                vstd::arithmetic::div_mod::lemma_div_is_ordered_by_denominator(
                                    PAGE_SIZE as int,
                                    q.obj_size as int,
                                    2048,
                                );
                            }
                            assert(q.used[0]);
                        }
                    }
                }
            }
        },
    }
}

/// Freeing into a cache keeps at most one of its pages empty.
pub proof fn lemma_free_keeps_one_empty(c: SlabCacheView, b: BuddyView, addr: nat)
    requires
        cache_wf(c),
        one_empty_at_most(c),
    ensures
        one_empty_at_most(cache_free_outcome(c, b, addr).1),
{
    let c1 = cache_free_outcome(c, b, addr).1;
    lemma_first_containing(c.pages, c.count, addr, 0);
    if let Some(i) = first_containing(c.pages, c.count, addr, 0) {
        let p1 = page_free(c.pages[i as int]->0, addr).1;
        if page_empty(p1) && c.count > 1 && other_empty(c.pages, c.count, i) {
            let u = c.pages.update(i as int, None);
            assert forall|x: int, y: int|
                0 <= x < c1.count && 0 <= y < c1.count && #[trigger] empty_at(c1.pages, x) && #[trigger] empty_at(
                    c1.pages,
                    y,
                ) implies x == y by {
                let ox = if x < i { x } else { x + 1 };
                let oy = if y < i { y } else { y + 1 };
                assert(c1.pages[x] == c.pages[ox]);
                assert(c1.pages[y] == c.pages[oy]);
                assert(empty_at(c.pages, ox) && empty_at(c.pages, oy));
            }
        } else {
            assert forall|x: int, y: int|
                0 <= x < c1.count && 0 <= y < c1.count && #[trigger] empty_at(c1.pages, x) && #[trigger] empty_at(
                    c1.pages,
                    y,
                ) implies x == y by {
                if x != y {
                    if x != i && y != i {
                        assert(empty_at(c.pages, x) && empty_at(c.pages, y));
                    } else {
                        let o = if x == i { y } else { x };
                        assert(empty_at(c.pages, o));
                        assert(other_empty(c.pages, c.count, i));
                    }
                }
            }
        }
    }
}

} // verus!
