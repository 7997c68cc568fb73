use avaria::buddy::BuddyAllocator;
use avaria::heap::{phys_to_virt_pub, virt_to_phys, KernelHeap, MemoryRegion};
use avaria::slab::{SlabAllocator, SlabCache, SlabPage};

const BASE: usize = 0x10_0000;

fn buddy_with(pages: usize) -> BuddyAllocator {
    let mut b = BuddyAllocator::new();
    b.init(BASE, pages * 4096);
    b
}

#[test]
fn buddy_init_counts_whole_pages() {
    let mut b = BuddyAllocator::new();
    b.init(BASE, 16 * 4096 + 100);
    assert_eq!(b.total_pages(), 16);
}

#[test]
fn buddy_hands_out_consecutive_pages() {
    let mut b = buddy_with(16);
    assert_eq!(b.alloc_pages(0), Some(BASE));
    assert_eq!(b.alloc_pages(0), Some(BASE + 4096));
    assert_eq!(b.alloc_one(), Some(BASE + 2 * 4096));
}

#[test]
fn buddy_free_then_alloc_returns_same_page() {
    let mut b = buddy_with(16);
    let a = b.alloc_pages(0).unwrap();
    let c = b.alloc_pages(0).unwrap();
    assert_ne!(a, c);
    b.free_pages(a, 0);
    assert_eq!(b.alloc_pages(0), Some(a));
    b.free_one(c);
    assert_eq!(b.alloc_one(), Some(c));
}

#[test]
fn buddy_rejects_order_above_max() {
    let mut b = buddy_with(16);
    assert_eq!(b.alloc_pages(5), None);
    assert_eq!(b.alloc_pages(4), Some(BASE));
}

#[test]
fn buddy_blocks_are_aligned_and_inside() {
    let mut b = buddy_with(16);
    for order in 0..4usize {
        let a = b.alloc_pages(order).unwrap();
        let size = 4096usize << order;
        assert_eq!((a - BASE) % size, 0);
        assert!(a + size <= BASE + 16 * 4096);
    }
}

#[test]
fn buddy_splits_a_larger_block() {
    let mut b = buddy_with(4);
    let x = b.alloc_pages(0).unwrap();
    let y = b.alloc_pages(0).unwrap();
    let z = b.alloc_pages(0).unwrap();
    let w = b.alloc_pages(0).unwrap();
    assert_eq!((x, y, z, w), (BASE, BASE + 4096, BASE + 8192, BASE + 12288));
    // Order-1 and order-2 blocks share bitmap positions with the order-0
    // pages taken, so nothing larger is free either.
    assert_eq!(b.alloc_pages(0), None);
}

#[test]
fn buddy_empty_region_allocates_nothing() {
    let mut b = BuddyAllocator::new();
    assert_eq!(b.total_pages(), 0);
    assert_eq!(b.alloc_pages(0), None);
}

#[test]
fn slab_page_slots() {
    let mut p = SlabPage::new(0x4000, 1024);
    assert!(p.is_empty());
    assert_eq!(p.allocate(), Some(0x4000));
    assert_eq!(p.allocate(), Some(0x4400));
    assert_eq!(p.allocate(), Some(0x4800));
    assert_eq!(p.allocate(), Some(0x4C00));
    assert!(p.is_full());
    assert_eq!(p.allocate(), None);
    assert!(p.contains(0x4FFF));
    assert!(!p.contains(0x5000));
    assert!(p.free(0x4400));
    assert!(!p.is_full());
    assert_eq!(p.allocate(), Some(0x4400));
    assert!(!p.free(0x5000));
    assert_eq!(p.base(), 0x4000);
}

#[test]
fn slab_page_capacity_is_capped() {
    let mut p = SlabPage::new(0, 8);
    let mut n = 0;
    while p.allocate().is_some() {
        n += 1;
    }
    assert_eq!(n, 256);
}

#[test]
fn slab_cache_takes_pages_from_buddy() {
    let mut b = buddy_with(16);
    let mut c = SlabCache::new(2048);
    assert_eq!(c.obj_size(), 2048);
    assert_eq!(c.allocate(&mut b), Some(BASE));
    assert_eq!(c.allocate(&mut b), Some(BASE + 2048));
    assert_eq!(c.allocate(&mut b), Some(BASE + 4096));
    assert!(c.free(BASE + 2048, &mut b));
    assert!(!c.free(BASE + 8 * 4096, &mut b));
}

#[test]
fn slab_allocator_picks_size_class() {
    let mut b = buddy_with(16);
    let mut s = SlabAllocator::new();
    let a = s.allocate(10, &mut b).unwrap();
    let a2 = s.allocate(16, &mut b).unwrap();
    assert_eq!(a2, a + 16);
    let c = s.allocate(17, &mut b).unwrap();
    assert_eq!(c % 4096, 0);
    assert_ne!(c, a);
    assert_eq!(s.allocate(4096, &mut b), None);
    assert!(s.free(a, &mut b));
    assert_eq!(s.allocate(16, &mut b), Some(a));
}

fn heap() -> KernelHeap {
    let mut h = KernelHeap::new();
    let regions = [
        MemoryRegion { usable: false, base: 0, length: 0x9_F000 },
        MemoryRegion { usable: true, base: 0x10_0000, length: 0x4_0000 },
        MemoryRegion { usable: true, base: 0x20_0000, length: 0x8_0000 },
        MemoryRegion { usable: true, base: 0x30_0000, length: 0x8_0000 },
    ];
    h.init(0xFFFF_8000_0000_0000, &regions);
    h
}

#[test]
fn heap_uses_largest_usable_region() {
    let h = heap();
    assert_eq!(h.total_pages(), 0x80);
    assert_eq!(h.hhdm_offset(), 0xFFFF_8000_0000_0000);
    let mut h = h;
    assert_eq!(h.alloc_pages(0), Some(0xFFFF_8000_0020_0000));
}

#[test]
fn heap_without_usable_memory() {
    let mut h = KernelHeap::new();
    h.init(0, &[MemoryRegion { usable: false, base: 0, length: 0x1000 }]);
    assert_eq!(h.total_pages(), 0);
    assert_eq!(h.kmalloc(64), None);
}

#[test]
fn heap_kmalloc_small_and_large() {
    let mut h = heap();
    assert_eq!(h.kmalloc(0), None);
    let small = h.kmalloc(100).unwrap();
    let small2 = h.kmalloc(100).unwrap();
    assert_eq!(small2, small + 128);
    let big = h.kmalloc(5000).unwrap();
    assert_eq!(big % 8192, 0);
    h.kfree(small, 100);
    assert_eq!(h.kmalloc(100), Some(small));
    h.kfree(big, 5000);
    let again = h.kmalloc(5000).unwrap();
    assert_eq!(again % 8192, 0);
    assert!(again + 8192 <= 0xFFFF_8000_0028_0000);
}

#[test]
fn heap_kmalloc_aligned_uses_alignment_as_size() {
    let mut h = heap();
    let a = h.kmalloc_aligned(512, 4096).unwrap();
    assert_eq!((a - 0xFFFF_8000_0020_0000) % 4096, 0);
    assert_eq!(h.kmalloc_aligned(0, 4096), None);
    let b = h.kmalloc_aligned(16384, 4096).unwrap();
    assert_eq!((b - 0xFFFF_8000_0020_0000) % 16384, 0);
}

#[test]
fn direct_map_translation() {
    let hhdm: u64 = 0xFFFF_8000_0000_0000;
    assert_eq!(phys_to_virt_pub(hhdm, 0x1000), 0xFFFF_8000_0000_1000);
    assert_eq!(virt_to_phys(hhdm, 0xFFFF_8000_0000_1000), 0x1000);
    assert_eq!(virt_to_phys(hhdm, 0x10), 0x10u64.wrapping_sub(hhdm));
}

#[test]
fn buddy_blocks_of_different_orders_may_overlap() {
    let mut b = buddy_with(16);
    assert_eq!(b.alloc_pages(0), Some(BASE));
    assert_eq!(b.alloc_pages(1), Some(BASE));
}

#[test]
fn buddy_fresh_region_hands_out_every_page_once() {
    let mut b = buddy_with(5);
    for k in 0..5usize {
        assert_eq!(b.alloc_one(), Some(BASE + k * 4096));
    }
    assert_eq!(b.alloc_one(), None);
}

#[test]
fn buddy_init_forgets_earlier_allocations() {
    let mut b = buddy_with(16);
    b.alloc_pages(2);
    b.alloc_one();
    for order in 0..5usize {
        b.init(BASE, 16 * 4096);
        assert_eq!(b.alloc_pages(order), Some(BASE));
    }
}

#[test]
fn slab_free_reports_held_addresses_only() {
    let mut b = buddy_with(16);
    let mut s = SlabAllocator::new();
    assert_eq!(s.allocate(10, &mut b), Some(0x100000));
    assert_eq!(s.allocate(10, &mut b), Some(0x100010));
    assert!(!s.free(0x200000, &mut b));
    assert!(s.free(0x100000, &mut b));
    assert_eq!(s.allocate(10, &mut b), Some(0x100000));
}

#[test]
fn slab_cache_keeps_one_empty_page() {
    let mut b = buddy_with(16);
    let mut c = SlabCache::new(2048);
    for k in 0..4usize {
        assert_eq!(c.allocate(&mut b), Some(BASE + k * 2048));
    }
    assert!(c.free(BASE, &mut b));
    assert!(c.free(BASE + 2048, &mut b));
    assert!(c.free(BASE + 4096, &mut b));
    assert!(c.free(BASE + 4096 + 2048, &mut b));
    // The second page emptied beside the first went back to the buddy.
    assert_eq!(b.alloc_one(), Some(BASE + 4096));
    assert_eq!(c.allocate(&mut b), Some(BASE));
}
