//! x86_64 four-level page tables: entry bits, table indices, and what to do
//! at each level while making pages executable, opening them to user mode,
//! or mapping device memory. The tables themselves are read and written
//! outside; these functions decide.
use vstd::prelude::*;
use crate::heap::virt_of;

verus! {

pub const PTE_PRESENT: u64 = 1;

pub const PTE_WRITABLE: u64 = 2;

pub const PTE_USER: u64 = 4;

pub const PTE_PWT: u64 = 8;

pub const PTE_PCD: u64 = 0x10;

/// Page-size bit: the entry maps a 1 GiB or 2 MiB page itself.
pub const PTE_HUGE: u64 = 0x80;

pub const PTE_NX: u64 = 0x8000_0000_0000_0000;

/// Bits of an entry holding the physical frame it points to.
pub const FRAME_MASK: u64 = 0x000F_FFFF_FFFF_F000;

/// Physical address of the local APIC registers.
pub const LAPIC_PHYS: u64 = 0xFEE0_0000;

/// Index into the table at `level` (4: PML4 .. 1: page table) for `vaddr`.
pub open spec fn spec_table_index(vaddr: u64, level: u8) -> u64 {
    (vaddr >> (12 + 9 * (level - 1)) as u64) & 0x1FF
}

/// The index into the table at `level` (4: PML4, 3: PDPT, 2: PD, 1: PT)
/// that translates `vaddr`.
pub fn table_index(vaddr: u64, level: u8) -> (r: usize)
    requires
        1 <= level <= 4,
    ensures
        r == spec_table_index(vaddr, level),
        r < 512,
{
    let shift: u64 = 12 + 9 * (level as u64 - 1);
    let r = (vaddr >> shift) & 0x1FF;
    proof {
        lemma_index_bound(vaddr >> shift);
    }
    r as usize
}

/// A nine-bit index is below 512.
proof fn lemma_index_bound(x: u64)
    ensures
        x & 0x1FF < 512,
{
    assert(x & 0x1FF < 512) by (bit_vector);
}

/// Every table index is below 512.
pub proof fn lemma_table_index_bound(vaddr: u64, level: u8)
    ensures
        spec_table_index(vaddr, level) < 512,
{
    lemma_index_bound(vaddr >> (12 + 9 * (level - 1)) as u64);
}

/// The physical frame that entry `e` points to.
pub fn entry_frame(e: u64) -> (r: u64)
    ensures
        r == e & FRAME_MASK,
{
    e & FRAME_MASK
}

pub open spec fn present(e: u64) -> bool {
    e & PTE_PRESENT != 0
}

pub open spec fn huge(e: u64) -> bool {
    e & PTE_HUGE != 0
}

/// The pages covering `size` bytes at `vaddr`: the first page's address
/// and the end of the last.
pub fn page_span(vaddr: u64, size: u64) -> (r: (u64, u64))
    requires
        vaddr + size + 0xFFF <= u64::MAX,
    ensures
        r.0 == vaddr & !0xFFFu64,
        r.1 == (vaddr + size + 0xFFF) as u64 & !0xFFFu64,
{
    (vaddr & !0xFFFu64, (vaddr + size + 0xFFF) & !0xFFFu64)
}

/// What to do with one table entry while walking to a page: rewrite the
/// entry (if `write`), then descend into the table at `descend`, or, if
/// there is none, go on with the next page.
#[derive(Clone, Copy, PartialEq, Eq, Structural, Debug)]
pub struct PageStep {
    pub write: Option<u64>,
    pub descend: Option<u64>,
}

/// An entry made executable and writable.
pub open spec fn exec_entry(e: u64) -> u64 {
    (e & !PTE_NX) | PTE_WRITABLE
}

/// The step at `level` with entry `e` when making a page executable: absent
/// tables are skipped, a huge page or a present page-table entry loses its
/// no-execute bit and becomes writable, and other tables are descended.
pub fn exec_step(level: u8, e: u64) -> (r: PageStep)
    requires
        1 <= level <= 4,
    ensures
        !present(e) ==> r == (PageStep { write: None, descend: None }),
        present(e) && level == 4 ==> r == (PageStep { write: None, descend: Some(e & FRAME_MASK) }),
        present(e) && (level == 3 || level == 2) && huge(e) ==> r == (PageStep {
            write: Some(exec_entry(e)),
            descend: None,
        }),
        present(e) && (level == 3 || level == 2) && !huge(e) ==> r == (PageStep {
            write: None,
            descend: Some(e & FRAME_MASK),
        }),
        present(e) && level == 1 ==> r == (PageStep { write: Some(exec_entry(e)), descend: None }),
{
    if e & PTE_PRESENT == 0 {
        return PageStep { write: None, descend: None };
    }
    if level == 4 {
        return PageStep { write: None, descend: Some(e & FRAME_MASK) };
    }
    if level == 1 || e & PTE_HUGE != 0 {
        return PageStep { write: Some((e & !PTE_NX) | PTE_WRITABLE), descend: None };
    }
    PageStep { write: None, descend: Some(e & FRAME_MASK) }
}

/// An entry opened to user mode.
pub open spec fn user_entry(e: u64) -> u64 {
    e | PTE_USER
}

/// A leaf entry opened to user mode, writable and executable.
pub open spec fn user_leaf(e: u64) -> u64 {
    (e | PTE_USER | PTE_WRITABLE) & !PTE_NX
}

/// The step at `level` with entry `e` when opening a page to user mode:
/// absent tables are skipped, every table on the way gets the user bit,
/// and a huge page or a present page-table entry also becomes writable
/// and executable.
pub fn user_step(level: u8, e: u64) -> (r: PageStep)
    requires
        1 <= level <= 4,
    ensures
        !present(e) ==> r == (PageStep { write: None, descend: None }),
        present(e) && level == 4 ==> r == (PageStep {
            write: Some(user_entry(e)),
            descend: Some(e & FRAME_MASK),
        }),
        present(e) && (level == 3 || level == 2) && huge(e) ==> r == (PageStep {
            write: Some(user_leaf(e)),
            descend: None,
        }),
        present(e) && (level == 3 || level == 2) && !huge(e) ==> r == (PageStep {
            write: Some(user_entry(e)),
            descend: Some(e & FRAME_MASK),
        }),
        present(e) && level == 1 ==> r == (PageStep { write: Some(user_leaf(e)), descend: None }),
{
    if e & PTE_PRESENT == 0 {
        return PageStep { write: None, descend: None };
    }
    if level == 4 {
        return PageStep { write: Some(e | PTE_USER), descend: Some(e & FRAME_MASK) };
    }
    if level == 1 || e & PTE_HUGE != 0 {
        return PageStep { write: Some((e | PTE_USER | PTE_WRITABLE) & !PTE_NX), descend: None };
    }
    PageStep { write: Some(e | PTE_USER), descend: Some(e & FRAME_MASK) }
}

/// The entry pointing to a new table at physical `phys`.
pub fn table_entry(phys: u64) -> (r: u64)
    ensures
        r == phys | PTE_PRESENT | PTE_WRITABLE,
{
    phys | PTE_PRESENT | PTE_WRITABLE
}

/// The page-table entry mapping device memory at `phys`: present,
/// writable, uncached, not executable.
pub fn mmio_pte(phys: u64) -> (r: u64)
    ensures
        r == phys | PTE_PRESENT | PTE_WRITABLE | PTE_PWT | PTE_PCD | PTE_NX,
{
    phys | PTE_PRESENT | PTE_WRITABLE | PTE_PWT | PTE_PCD | PTE_NX
}

/// The page-table entry mapping the local APIC: present, writable,
/// uncached.
pub fn lapic_pte() -> (r: u64)
    ensures
        r == LAPIC_PHYS | PTE_PRESENT | PTE_WRITABLE | PTE_PWT | PTE_PCD,
{
    LAPIC_PHYS | PTE_PRESENT | PTE_WRITABLE | PTE_PWT | PTE_PCD
}

/// What to do with one entry while mapping a page of device memory.
#[derive(Clone, Copy, PartialEq, Eq, Structural, Debug)]
pub enum MapStep {
    /// Allocate and zero a table page, point the entry at it
    /// (`table_entry`), and look at the entry again.
    AllocTable,
    /// Go on into the table at this physical address.
    Descend(u64),
    /// The page is mapped already (by a huge page or a present entry).
    Mapped,
    /// Write this page-table entry.
    Write(u64),
}

/// The step at `level` with entry `e` when mapping device page `phys`:
/// absent tables are created, huge pages already map it, and an absent
/// page-table entry gets `mmio_pte(phys)`.
pub fn mmio_step(level: u8, e: u64, phys: u64) -> (r: MapStep)
    requires
        1 <= level <= 4,
    ensures
        level > 1 && !present(e) ==> r == MapStep::AllocTable,
        level == 4 && present(e) ==> r == MapStep::Descend(e & FRAME_MASK),
        (level == 3 || level == 2) && present(e) && huge(e) ==> r == MapStep::Mapped,
        (level == 3 || level == 2) && present(e) && !huge(e) ==> r == MapStep::Descend(
            e & FRAME_MASK,
        ),
        level == 1 && present(e) ==> r == MapStep::Mapped,
        level == 1 && !present(e) ==> r == MapStep::Write(
            phys | PTE_PRESENT | PTE_WRITABLE | PTE_PWT | PTE_PCD | PTE_NX,
        ),
{
    let p = e & PTE_PRESENT != 0;
    if level == 1 {
        if p {
            return MapStep::Mapped;
        }
        return MapStep::Write(mmio_pte(phys));
    }
    if !p {
        return MapStep::AllocTable;
    }
    if level != 4 && e & PTE_HUGE != 0 {
        return MapStep::Mapped;
    }
    MapStep::Descend(e & FRAME_MASK)
}

/// What to do with one entry while mapping the local APIC page.
#[derive(Clone, Copy, PartialEq, Eq, Structural, Debug)]
pub enum LapicStep {
    /// The mapping cannot be made: a PML4 or PDPT entry is absent.
    Fail,
    /// The page is mapped already.
    Mapped,
    /// Go on into the table at this physical address.
    Descend(u64),
    /// Allocate and zero a page table, point the PD entry at it, and write
    /// `lapic_pte()` at the page's index in it.
    NewTable,
    /// Write `lapic_pte()` into the page-table entry.
    WritePte,
}

/// The step at `level` with entry `e` when mapping the local APIC page.
pub fn lapic_step(level: u8, e: u64) -> (r: LapicStep)
    requires
        1 <= level <= 4,
    ensures
        level == 4 && !present(e) ==> r == LapicStep::Fail,
        level == 4 && present(e) ==> r == LapicStep::Descend(e & FRAME_MASK),
        level == 3 && !present(e) ==> r == LapicStep::Fail,
        (level == 3 || level == 2) && present(e) && huge(e) ==> r == LapicStep::Mapped,
        (level == 3 || level == 2) && present(e) && !huge(e) ==> r == LapicStep::Descend(
            e & FRAME_MASK,
        ),
        level == 2 && !present(e) ==> r == LapicStep::NewTable,
        level == 1 && present(e) ==> r == LapicStep::Mapped,
        level == 1 && !present(e) ==> r == LapicStep::WritePte,
{
    let p = e & PTE_PRESENT != 0;
    if level == 4 {
        if p {
            return LapicStep::Descend(e & FRAME_MASK);
        }
        return LapicStep::Fail;
    }
    if level == 1 {
        if p {
            return LapicStep::Mapped;
        }
        return LapicStep::WritePte;
    }
    if p && e & PTE_HUGE != 0 {
        return LapicStep::Mapped;
    }
    if !p {
        if level == 3 {
            return LapicStep::Fail;
        }
        return LapicStep::NewTable;
    }
    LapicStep::Descend(e & FRAME_MASK)
}

/// Opening a page to user mode leaves it present and gives it the user bit
/// and clears no-execute.
pub proof fn lemma_user_leaf(e: u64)
    requires
        present(e),
    ensures
        present(user_leaf(e)),
        user_leaf(e) & PTE_USER != 0,
        user_leaf(e) & PTE_NX == 0,
        user_leaf(e) & FRAME_MASK == e & FRAME_MASK,
{
    assert(present(user_leaf(e)) && user_leaf(e) & PTE_USER != 0 && user_leaf(e) & PTE_NX == 0
        && user_leaf(e) & FRAME_MASK == e & FRAME_MASK) by (bit_vector)
        requires
            e & 1 != 0,
    ;
}

/// Making a page executable keeps it present, keeps its frame, and clears
/// no-execute.
pub proof fn lemma_exec_entry(e: u64)
    requires
        present(e),
    ensures
        present(exec_entry(e)),
        exec_entry(e) & PTE_NX == 0,
        exec_entry(e) & FRAME_MASK == e & FRAME_MASK,
{
    assert(present(exec_entry(e)) && exec_entry(e) & PTE_NX == 0 && exec_entry(e) & FRAME_MASK
        == e & FRAME_MASK) by (bit_vector)
        requires
            e & 1 != 0,
    ;
}

/// Which change a page walk makes: executable (`exec_step`) or open to
/// user mode (`user_step`).
#[derive(Clone, Copy, PartialEq, Eq, Structural, Debug)]
pub enum WalkKind {
    Exec,
    User,
}

/// The step of a `kind` walk at `level` with entry `e`.
pub open spec fn step_of(kind: WalkKind, level: u8, e: u64) -> PageStep {
    if !present(e) {
        PageStep { write: None, descend: None }
    } else if level == 4 {
        match kind {
            WalkKind::Exec => PageStep { write: None, descend: Some(e & FRAME_MASK) },
            WalkKind::User => PageStep { write: Some(user_entry(e)), descend: Some(e & FRAME_MASK) },
        }
    } else if level == 1 || huge(e) {
        match kind {
            WalkKind::Exec => PageStep { write: Some(exec_entry(e)), descend: None },
            WalkKind::User => PageStep { write: Some(user_leaf(e)), descend: None },
        }
    } else {
        match kind {
            WalkKind::Exec => PageStep { write: None, descend: Some(e & FRAME_MASK) },
            WalkKind::User => PageStep { write: Some(user_entry(e)), descend: Some(e & FRAME_MASK) },
        }
    }
}

/// The page tables as a map from a table's physical address and an index
/// to the entry there.
pub open spec fn mem_write(m: spec_fn(u64, int) -> u64, t: u64, i: int, v: u64) -> spec_fn(u64, int) -> u64 {
    |a: u64, b: int| if a == t && b == i { v } else { m(a, b) }
}

/// The tables after one step at entry `i` of table `t`.
pub open spec fn after_write(m: spec_fn(u64, int) -> u64, t: u64, i: int, w: Option<u64>) -> spec_fn(u64, int) -> u64 {
    match w {
        Some(v) => mem_write(m, t, i, v),
        None => m,
    }
}

/// The tables after a `kind` walk of page `addr` from table `t` at `level`
/// down: each level's entry is read, the step's write made, and the walk
/// goes on into the table the step names until it names none or level 1 is
/// done.
pub open spec fn page_result(kind: WalkKind, m: spec_fn(u64, int) -> u64, t: u64, addr: u64, level: u8) -> spec_fn(
    u64,
    int,
) -> u64
    decreases level,
{
    if level < 1 || level > 4 {
        m
    } else {
        let i = spec_table_index(addr, level) as int;
        let s = step_of(kind, level, m(t, i));
        let m1 = after_write(m, t, i, s.write);
        match s.descend {
            Some(n) => if level > 1 {
                page_result(kind, m1, n, addr, (level - 1) as u8)
            } else {
                m1
            },
            None => m1,
        }
    }
}

/// The tables after walking every page from `addr` up to `end`, one after
/// the other, each from the top-level table `root`.
pub open spec fn span_result(kind: WalkKind, m: spec_fn(u64, int) -> u64, root: u64, addr: int, end: int) -> spec_fn(
    u64,
    int,
) -> u64
    decreases (if addr < end { end - addr } else { 0 }),
{
    if addr >= end {
        m
    } else {
        span_result(kind, page_result(kind, m, root, addr as u64, 4), root, addr + PAGE_BYTES, end)
    }
}

/// Bytes in a page.
pub const PAGE_BYTES: u64 = 4096;

/// A walk in progress: the page being changed, the end of the span, and the
/// table and level reached for that page.
pub struct PageWalkView {
    pub kind: WalkKind,
    pub root: u64,
    pub addr: nat,
    pub end: nat,
    pub level: nat,
    pub table: u64,
}

/// What a walk asks for next.
#[derive(Clone, Copy, PartialEq, Eq, Structural, Debug)]
pub enum WalkOp {
    /// Read entry `index` of the table at physical address `table` and feed
    /// it back.
    Visit { table: u64, index: usize },
    /// Every page has been done.
    Finished,
}

/// The request of a walk in state `v`.
pub open spec fn op_of(v: PageWalkView) -> WalkOp {
    if v.addr < v.end {
        WalkOp::Visit { table: v.table, index: spec_table_index(v.addr as u64, v.level as u8) as usize }
    } else {
        WalkOp::Finished
    }
}

/// The write to make and the next state after entry `e` was read in state
/// `v`: into the table the step names while below the top and above level
/// 1, else on to the next page from the root.
pub open spec fn feed_outcome(v: PageWalkView, e: u64) -> (Option<u64>, PageWalkView) {
    let s = step_of(v.kind, v.level as u8, e);
    match s.descend {
        Some(n) => if v.level > 1 {
            (s.write, PageWalkView { table: n, level: (v.level - 1) as nat, ..v })
        } else {
            (s.write, PageWalkView { addr: (v.addr + PAGE_BYTES) as nat, level: 4, table: v.root, ..v })
        },
        None => (s.write, PageWalkView { addr: (v.addr + PAGE_BYTES) as nat, level: 4, table: v.root, ..v }),
    }
}

/// The tables that a walk in state `v` leaves, starting from tables `m`,
/// when each `Visit` is answered from the tables as they stand.
pub open spec fn walk_result(m: spec_fn(u64, int) -> u64, v: PageWalkView) -> spec_fn(u64, int) -> u64 {
    if v.addr >= v.end {
        m
    } else {
        span_result(
            v.kind,
            page_result(v.kind, m, v.table, v.addr as u64, v.level as u8),
            v.root,
            v.addr + PAGE_BYTES,
            v.end as int,
        )
    }
}

pub struct PageWalk {
    kind: WalkKind,
    root: u64,
    addr: u64,
    end: u64,
    level: u8,
    table: u64,
}

impl View for PageWalk {
    type V = PageWalkView;

    closed spec fn view(&self) -> PageWalkView {
        PageWalkView {
            kind: self.kind,
            root: self.root,
            addr: self.addr as nat,
            end: self.end as nat,
            level: self.level as nat,
            table: self.table,
        }
    }
}

/// Clearing the low twelve bits rounds down to a page boundary.
proof fn lemma_page_floor(x: u64)
    ensures
        (x & !0xFFFu64) == x - x % 4096,
{
    assert((x & !0xFFFu64) == x - x % 4096) by (bit_vector);
}

impl PageWalk {
    /// The walk's invariant: page-aligned addresses and a level in 1..=4.
    pub closed spec fn wf(&self) -> bool {
        &&& self.addr % 4096 == 0
        &&& self.end % 4096 == 0
        &&& self.addr <= self.end
        &&& 1 <= self.level <= 4
    }

    /// Starts a `kind` walk over the pages covering `size` bytes at `vaddr`,
    /// with the top-level table taken from `cr3`.
    pub fn start(kind: WalkKind, cr3: u64, vaddr: u64, size: u64) -> (r: (PageWalk, WalkOp))
        requires
            vaddr + size + 0xFFF <= u64::MAX,
        ensures
            r.0.wf(),
            r.0@ == (PageWalkView {
                kind,
                root: cr3 & !0xFFFu64,
                addr: (vaddr & !0xFFFu64) as nat,
                end: ((vaddr + size + 0xFFF) as u64 & !0xFFFu64) as nat,
                level: 4,
                table: cr3 & !0xFFFu64,
            }),
            r.1 == op_of(r.0@),
    {
        let (addr, end) = page_span(vaddr, size);
        proof {
            lemma_page_floor(vaddr);
            lemma_page_floor((vaddr + size + 0xFFF) as u64);
            assert(addr % 4096 == 0 && end % 4096 == 0) by (nonlinear_arith)
                requires
                    addr == vaddr - vaddr % 4096,
                    end == (vaddr + size + 0xFFF) - (vaddr + size + 0xFFF) % 4096,
            ;
        }
        let root = cr3 & !0xFFFu64;
        let w = PageWalk { kind, root, addr, end, level: 4, table: root };
        let op = w.op();
        (w, op)
    }

    fn op(&self) -> (r: WalkOp)
        requires
            self.wf(),
        ensures
            r == op_of(self@),
    {
        if self.addr < self.end {
            WalkOp::Visit { table: self.table, index: table_index(self.addr, self.level) }
        } else {
            WalkOp::Finished
        }
    }

    /// Takes entry `entry`, read for the last `Visit`: gives the value to
    /// write back there, if any, and the next request (`feed_outcome`).  A
    /// finished walk stays finished and asks for no write.
    pub fn feed(&mut self, entry: u64) -> (r: (Option<u64>, WalkOp))
        requires
            old(self).wf(),
        ensures
            final(self).wf(),
            old(self)@.addr >= old(self)@.end ==> r.0 is None && final(self)@ == old(self)@,
            old(self)@.addr < old(self)@.end ==> (r.0, final(self)@) == feed_outcome(old(self)@, entry),
            r.1 == op_of(final(self)@),
    {
        if self.addr >= self.end {
            return (None, WalkOp::Finished);
        }
        let s = match self.kind {
            WalkKind::Exec => exec_step(self.level, entry),
            WalkKind::User => user_step(self.level, entry),
        };
        assert(s == step_of(self.kind, self.level, entry));
        let descend = match s.descend {
            Some(n) => if self.level > 1 {
                Some(n)
            } else {
                None
            },
            None => None,
        };
        match descend {
            Some(n) => {
                self.table = n;
                self.level = self.level - 1;
            },
            None => {
                assert(self.addr + 4096 <= self.end) by (nonlinear_arith)
                    requires
                        self.addr % 4096 == 0,
                        self.end % 4096 == 0,
                        self.addr < self.end,
                ;
                self.addr = self.addr + 4096;
                self.level = 4;
                self.table = self.root;
            },
        }
        let op = self.op();
        (s.write, op)
    }
}

/// The walk that `start` hands out leaves the tables that walking every
/// page of its span leaves.
pub proof fn lemma_walk_start(m: spec_fn(u64, int) -> u64, v: PageWalkView)
    requires
        v.level == 4,
        v.table == v.root,
    ensures
        walk_result(m, v) == span_result(v.kind, m, v.root, v.addr as int, v.end as int),
{
}

/// Answering a `Visit` with the entry the tables hold there, and making the
/// write that `feed` gives, keeps the tables the walk will leave.
pub proof fn lemma_walk_feed(m: spec_fn(u64, int) -> u64, v: PageWalkView)
    requires
        1 <= v.level <= 4,
        v.addr < v.end,
    ensures
        ({
            let i = spec_table_index(v.addr as u64, v.level as u8) as int;
            let (w, v2) = feed_outcome(v, m(v.table, i));
            walk_result(after_write(m, v.table, i, w), v2) == walk_result(m, v)
        }),
{
    let i = spec_table_index(v.addr as u64, v.level as u8) as int;
    let (w, v2) = feed_outcome(v, m(v.table, i));
    let m1 = after_write(m, v.table, i, w);
    assert(page_result(v.kind, m, v.table, v.addr as u64, v.level as u8) == (match step_of(
        v.kind,
        v.level as u8,
        m(v.table, i),
    ).descend {
        Some(n) => if v.level > 1 {
            page_result(v.kind, m1, n, v.addr as u64, (v.level - 1) as u8)
        } else {
            m1
        },
        None => m1,
    }));
    if !(v2.addr == v.addr) {
        assert(v2.addr == v.addr + PAGE_BYTES);
        assert(walk_result(m1, v2) == span_result(v.kind, m1, v.root, v.addr + PAGE_BYTES, v.end as int));
    }
}

/// Direct-map address of page `page` of a device region at `phys_base`.
pub open spec fn mmio_vaddr(hhdm: u64, phys_base: u64, page: nat) -> int {
    hhdm + phys_base + page * PAGE_BYTES
}

/// `mmio_step` as a function.
pub open spec fn mmio_step_of(level: u8, e: u64, phys: u64) -> MapStep {
    if level == 1 {
        if present(e) {
            MapStep::Mapped
        } else {
            MapStep::Write(phys | PTE_PRESENT | PTE_WRITABLE | PTE_PWT | PTE_PCD | PTE_NX)
        }
    } else if !present(e) {
        MapStep::AllocTable
    } else if level != 4 && huge(e) {
        MapStep::Mapped
    } else {
        MapStep::Descend(e & FRAME_MASK)
    }
}

/// What a device-memory mapping asks for next.
#[derive(Clone, Copy, PartialEq, Eq, Structural, Debug)]
pub enum MmioOp {
    /// Read entry `index` of the table at `table` and feed it back.
    Visit { table: u64, index: usize },
    /// Allocate a zeroed table page for entry `index` of `table` and report
    /// its physical address (or that there is none).
    NewTable { table: u64, index: usize },
    /// The next page's address does not fit in 64 bits.
    Overflow,
    /// Finished: the direct-map address of the region, or 0 when a table
    /// could not be allocated.
    Done(usize),
}

/// A device-memory mapping in progress.
pub struct MmioWalkView {
    pub hhdm: u64,
    pub root: u64,
    pub phys_base: u64,
    pub num_pages: nat,
    pub page: nat,
    pub level: nat,
    pub table: u64,
    pub op: MmioOp,
}

/// The entry to read for the page and level of `v`.
pub open spec fn mmio_visit(v: MmioWalkView) -> MmioOp {
    MmioOp::Visit {
        table: v.table,
        index: spec_table_index(mmio_vaddr(v.hhdm, v.phys_base, v.page) as u64, v.level as u8) as usize,
    }
}

/// The state after page `v.page` is done: the next page from the root, the
/// region's address once all are done, or `Overflow` when the next page's
/// address does not fit.
pub open spec fn mmio_next_page(v: MmioWalkView) -> MmioWalkView {
    let p = v.page + 1;
    if p >= v.num_pages {
        MmioWalkView { page: p, op: MmioOp::Done(virt_of(v.hhdm, v.phys_base)), ..v }
    } else if mmio_vaddr(v.hhdm, v.phys_base, p) > u64::MAX {
        MmioWalkView { page: p, op: MmioOp::Overflow, ..v }
    } else {
        let w = MmioWalkView { page: p, level: 4, table: v.root, ..v };
        MmioWalkView { op: mmio_visit(w), ..w }
    }
}

/// The write to make at the entry just read, the page to flush from the
/// TLB, and the next state, after entry `e` was read in state `v`.
pub open spec fn mmio_feed(v: MmioWalkView, e: u64) -> (Option<u64>, Option<u64>, MmioWalkView) {
    match v.op {
        MmioOp::Visit { table, index } => {
            let vaddr = mmio_vaddr(v.hhdm, v.phys_base, v.page) as u64;
            match mmio_step_of(v.level as u8, e, (v.phys_base + v.page * PAGE_BYTES) as u64) {
                MapStep::AllocTable => (None, None, MmioWalkView { op: MmioOp::NewTable { table, index }, ..v }),
                MapStep::Descend(n) => {
                    let w = MmioWalkView { table: n, level: (v.level - 1) as nat, ..v };
                    (None, None, MmioWalkView { op: mmio_visit(w), ..w })
                },
                MapStep::Mapped => (None, Some(vaddr), mmio_next_page(v)),
                MapStep::Write(pte) => (Some(pte), Some(vaddr), mmio_next_page(v)),
            }
        },
        _ => (None, None, v),
    }
}

/// The write to make at the entry that asked for a table, and the next
/// state, once the table page `t` was allocated (or not).
pub open spec fn mmio_table(v: MmioWalkView, t: Option<u64>) -> (Option<u64>, MmioWalkView) {
    match v.op {
        MmioOp::NewTable { table, index } => match t {
            None => (None, MmioWalkView { op: MmioOp::Done(0), ..v }),
            Some(p) => (
                Some(p | PTE_PRESENT | PTE_WRITABLE),
                MmioWalkView { op: MmioOp::Visit { table, index }, ..v },
            ),
        },
        _ => (None, v),
    }
}

pub struct MmioWalk {
    hhdm: u64,
    root: u64,
    phys_base: u64,
    num_pages: usize,
    page: usize,
    level: u8,
    table: u64,
    op: MmioOp,
}

impl View for MmioWalk {
    type V = MmioWalkView;

    closed spec fn view(&self) -> MmioWalkView {
        MmioWalkView {
            hhdm: self.hhdm,
            root: self.root,
            phys_base: self.phys_base,
            num_pages: self.num_pages as nat,
            page: self.page as nat,
            level: self.level as nat,
            table: self.table,
            op: self.op,
        }
    }
}

impl MmioWalk {
    /// The walk's invariant: while a page is being mapped, its address fits
    /// and the request names its entry at the current level.
    pub closed spec fn wf(&self) -> bool {
        &&& mmio_view_ok(self@)
        &&& 1 <= self.level <= 4
        &&& self.page <= self.num_pages
        &&& self.op matches MmioOp::Visit { .. } ==> {
            &&& self.page < self.num_pages
            &&& mmio_vaddr(self.hhdm, self.phys_base, self.page as nat) <= u64::MAX
            &&& self.op == mmio_visit(self@)
        }
        &&& self.op matches MmioOp::NewTable { .. } ==> {
            &&& self.page < self.num_pages
            &&& self.level > 1
            &&& mmio_vaddr(self.hhdm, self.phys_base, self.page as nat) <= u64::MAX
            &&& self.op matches MmioOp::NewTable { table, index } && table == self.table && index
                == spec_table_index(mmio_vaddr(self.hhdm, self.phys_base, self.page as nat) as u64, self.level)
        }
    }

    /// Starts mapping `num_pages` pages of device memory at `phys_base`
    /// into the direct map at `hhdm`, with the top-level table from `cr3`.
    pub fn start(hhdm: u64, cr3: u64, phys_base: u64, num_pages: usize) -> (r: MmioWalk)
        ensures
            r.wf(),
            r@.hhdm == hhdm,
            r@.root == cr3 & !0xFFFu64,
            r@.phys_base == phys_base,
            r@.num_pages == num_pages,
            r@.page == 0,
            r@.level == 4,
            r@.table == cr3 & !0xFFFu64,
            r@.op == (if hhdm + phys_base > u64::MAX {
                MmioOp::Overflow
            } else if num_pages == 0 {
                MmioOp::Done(virt_of(hhdm, phys_base))
            } else {
                mmio_visit(r@)
            }),
    {
        let root = cr3 & !0xFFFu64;
        let mut w = MmioWalk {
            hhdm,
            root,
            phys_base,
            num_pages,
            page: 0,
            level: 4,
            table: root,
            op: MmioOp::Overflow,
        };
        if hhdm > u64::MAX - phys_base {
            return w;
        }
        if num_pages == 0 {
            w.op = MmioOp::Done((hhdm + phys_base) as usize);
            return w;
        }
        let vaddr = hhdm + phys_base;
        w.op = MmioOp::Visit { table: root, index: table_index(vaddr, 4) };
        w
    }

    /// The current request.
    pub fn op(&self) -> (r: MmioOp)
        ensures
            r == self@.op,
    {
        self.op
    }

    /// Moves past the page just done.
    fn next_page(&mut self)
        requires
            old(self).wf(),
            old(self).page < old(self).num_pages,
            mmio_vaddr(old(self).hhdm, old(self).phys_base, old(self).page as nat) <= u64::MAX,
        ensures
            final(self).wf(),
            final(self)@ == mmio_next_page(old(self)@),
    {
        let p = self.page + 1;
        self.page = p;
        if p >= self.num_pages {
            self.op = MmioOp::Done((self.hhdm + self.phys_base) as usize);
            return;
        }
        let total: u128 = self.hhdm as u128 + self.phys_base as u128 + (p as u128) * 4096;
        if total > u64::MAX as u128 {
            self.op = MmioOp::Overflow;
            return;
        }
        self.level = 4;
        self.table = self.root;
        let vaddr = (total as u64);
        self.op = MmioOp::Visit { table: self.root, index: table_index(vaddr, 4) };
    }

    /// Takes the entry read for a `Visit` request: the value to write back
    /// there, the page to flush from the TLB, if any, and the walk moves on
    /// (`mmio_feed`).  For any other request nothing changes.
    pub fn feed(&mut self, entry: u64) -> (r: (Option<u64>, Option<u64>))
        requires
            old(self).wf(),
        ensures
            final(self).wf(),
            (r.0, r.1, final(self)@) == mmio_feed(old(self)@, entry),
    {
        if !(self.op matches MmioOp::Visit { .. }) {
            return (None, None);
        }
        let ghost v0 = self@;
        let phys = self.phys_base + (self.page as u64) * 4096;
        let vaddr = self.hhdm + phys;
        match mmio_step(self.level, entry, phys) {
            MapStep::AllocTable => {
                let index = table_index(vaddr, self.level);
                self.op = MmioOp::NewTable { table: self.table, index };
                (None, None)
            },
            MapStep::Descend(n) => {
                self.table = n;
                self.level = self.level - 1;
                self.op = MmioOp::Visit { table: n, index: table_index(vaddr, self.level) };
                (None, None)
            },
            MapStep::Mapped => {
                self.next_page();
                (None, Some(vaddr))
            },
            MapStep::Write(pte) => {
                self.next_page();
                (Some(pte), Some(vaddr))
            },
        }
    }

    /// Takes the table page allocated for a `NewTable` request (`None`: no
    /// memory): the value to write at the entry that asked, and the walk
    /// moves on (`mmio_table`).  For any other request nothing changes.
    pub fn table_made(&mut self, table: Option<u64>) -> (r: Option<u64>)
        requires
            old(self).wf(),
        ensures
            final(self).wf(),
            (r, final(self)@) == mmio_table(old(self)@, table),
    {
        match self.op {
            MmioOp::NewTable { table: t, index } => match table {
                None => {
                    self.op = MmioOp::Done(0);
                    None
                },
                Some(p) => {
                    self.op = MmioOp::Visit { table: t, index };
                    Some(table_entry(p))
                },
            },
            _ => None,
        }
    }
}

/// `lapic_step` as a function.
pub open spec fn lapic_step_of(level: u8, e: u64) -> LapicStep {
    if level == 4 {
        if present(e) {
            LapicStep::Descend(e & FRAME_MASK)
        } else {
            LapicStep::Fail
        }
    } else if level == 1 {
        if present(e) {
            LapicStep::Mapped
        } else {
            LapicStep::WritePte
        }
    } else if present(e) && huge(e) {
        LapicStep::Mapped
    } else if !present(e) {
        if level == 3 {
            LapicStep::Fail
        } else {
            LapicStep::NewTable
        }
    } else {
        LapicStep::Descend(e & FRAME_MASK)
    }
}

/// What mapping the local APIC page asks for next.
#[derive(Clone, Copy, PartialEq, Eq, Structural, Debug)]
pub enum LapicOp {
    /// Read entry `index` of the table at `table` and feed it back.
    Visit { table: u64, index: usize },
    /// Allocate a zeroed page table for entry `index` of `table` and report
    /// its physical address (or that there is none).
    NewTable { table: u64, index: usize },
    /// A PML4 or PDPT entry on the way is absent.
    Unreachable,
    /// No page table could be allocated.
    NoMemory,
    /// Mapped at this virtual address.
    Done(u64),
}

/// Mapping the local APIC page in progress.
pub struct LapicWalkView {
    pub vaddr: u64,
    pub level: nat,
    pub table: u64,
    pub op: LapicOp,
}

/// The write to make at the entry just read, whether to flush the page
/// from the TLB, and the next state, after entry `e` was read in state `v`.
pub open spec fn lapic_feed(v: LapicWalkView, e: u64) -> (Option<u64>, bool, LapicWalkView) {
    match v.op {
        LapicOp::Visit { table, index } => match lapic_step_of(v.level as u8, e) {
            LapicStep::Fail => (None, false, LapicWalkView { op: LapicOp::Unreachable, ..v }),
            LapicStep::Mapped => (None, v.level == 1, LapicWalkView { op: LapicOp::Done(v.vaddr), ..v }),
            LapicStep::Descend(n) => (
                None,
                false,
                LapicWalkView {
                    table: n,
                    level: (v.level - 1) as nat,
                    op: LapicOp::Visit { table: n, index: spec_table_index(v.vaddr, (v.level - 1) as u8) as usize },
                    ..v
                },
            ),
            LapicStep::NewTable => (None, false, LapicWalkView { op: LapicOp::NewTable { table, index }, ..v }),
            LapicStep::WritePte => (
                Some(LAPIC_PHYS | PTE_PRESENT | PTE_WRITABLE | PTE_PWT | PTE_PCD),
                true,
                LapicWalkView { op: LapicOp::Done(v.vaddr), ..v },
            ),
        },
        _ => (None, false, v),
    }
}

/// Once page table `t` was allocated (or not) for a `NewTable` request: the
/// value for the entry that asked, the entry to write in the new table
/// (table, index, value), whether to flush, and the next state.
pub open spec fn lapic_table(v: LapicWalkView, t: Option<u64>) -> (Option<u64>, Option<(u64, usize, u64)>, bool, LapicWalkView) {
    match v.op {
        LapicOp::NewTable { .. } => match t {
            None => (None, None, false, LapicWalkView { op: LapicOp::NoMemory, ..v }),
            Some(pt) => (
                Some(pt | PTE_PRESENT | PTE_WRITABLE),
                Some((pt, spec_table_index(v.vaddr, 1) as usize, LAPIC_PHYS | PTE_PRESENT | PTE_WRITABLE | PTE_PWT | PTE_PCD)),
                true,
                LapicWalkView { op: LapicOp::Done(v.vaddr), ..v },
            ),
        },
        _ => (None, None, false, v),
    }
}

pub struct LapicWalk {
    vaddr: u64,
    level: u8,
    table: u64,
    op: LapicOp,
}

impl View for LapicWalk {
    type V = LapicWalkView;

    closed spec fn view(&self) -> LapicWalkView {
        LapicWalkView { vaddr: self.vaddr, level: self.level as nat, table: self.table, op: self.op }
    }
}

impl LapicWalk {
    /// The walk's invariant: the request names the entry at the current
    /// level.
    pub closed spec fn wf(&self) -> bool {
        &&& lapic_view_ok(self@)
        &&& 1 <= self.level <= 4
        &&& self.op matches LapicOp::Visit { table, index } ==> table == self.table && index
            == spec_table_index(self.vaddr, self.level)
        &&& self.op matches LapicOp::NewTable { table, index } ==> self.level == 2 && table == self.table
            && index == spec_table_index(self.vaddr, self.level)
    }

    /// Starts mapping the local APIC page at `hhdm + LAPIC_PHYS`, with the
    /// top-level table from `cr3`.
    pub fn start(hhdm: u64, cr3: u64) -> (r: LapicWalk)
        requires
            hhdm + LAPIC_PHYS <= u64::MAX,
        ensures
            r.wf(),
            r@.vaddr == hhdm + LAPIC_PHYS,
            r@.level == 4,
            r@.table == cr3 & !0xFFFu64,
            r@.op == (LapicOp::Visit {
                table: cr3 & !0xFFFu64,
                index: spec_table_index((hhdm + LAPIC_PHYS) as u64, 4) as usize,
            }),
    {
        let root = cr3 & !0xFFFu64;
        let vaddr = hhdm + LAPIC_PHYS;
        LapicWalk { vaddr, level: 4, table: root, op: LapicOp::Visit { table: root, index: table_index(vaddr, 4) } }
    }

    /// The current request.
    pub fn op(&self) -> (r: LapicOp)
        ensures
            r == self@.op,
    {
        self.op
    }

    /// Takes the entry read for a `Visit` request (`lapic_feed`): the value
    /// to write back there and whether to flush the page.  For any other
    /// request nothing changes.
    pub fn feed(&mut self, entry: u64) -> (r: (Option<u64>, bool))
        requires
            old(self).wf(),
        ensures
            final(self).wf(),
            (r.0, r.1, final(self)@) == lapic_feed(old(self)@, entry),
    {
        let (table, index) = match self.op {
            LapicOp::Visit { table, index } => (table, index),
            _ => {
                return (None, false);
            },
        };
        match lapic_step(self.level, entry) {
            LapicStep::Fail => {
                self.op = LapicOp::Unreachable;
                (None, false)
            },
            LapicStep::Mapped => {
                self.op = LapicOp::Done(self.vaddr);
                (None, self.level == 1)
            },
            LapicStep::Descend(n) => {
                self.table = n;
                self.level = self.level - 1;
                self.op = LapicOp::Visit { table: n, index: table_index(self.vaddr, self.level) };
                (None, false)
            },
            LapicStep::NewTable => {
                self.op = LapicOp::NewTable { table, index };
                (None, false)
            },
            LapicStep::WritePte => {
                self.op = LapicOp::Done(self.vaddr);
                (Some(lapic_pte()), true)
            },
        }
    }

    /// Takes the page table allocated for a `NewTable` request (`None`: no
    /// memory), as `lapic_table` describes.  For any other request nothing
    /// changes.
    pub fn table_made(&mut self, table: Option<u64>) -> (r: (Option<u64>, Option<(u64, usize, u64)>, bool))
        requires
            old(self).wf(),
        ensures
            final(self).wf(),
            (r.0, r.1, r.2, final(self)@) == lapic_table(old(self)@, table),
    {
        if !(self.op matches LapicOp::NewTable { .. }) {
            return (None, None, false);
        }
        match table {
            None => {
                self.op = LapicOp::NoMemory;
                (None, None, false)
            },
            Some(pt) => {
                self.op = LapicOp::Done(self.vaddr);
                (Some(table_entry(pt)), Some((pt, table_index(self.vaddr, 1), lapic_pte())), true)
            },
        }
    }
}

/// A table entry made by `table_entry` is present.
pub proof fn lemma_table_entry_present(p: u64)
    ensures
        present(p | PTE_PRESENT | PTE_WRITABLE),
{
    assert((p | 1u64 | 2u64) & 1u64 != 0) by (bit_vector);
}

/// The first answer to a table allocation, `None` when none is left.
pub open spec fn first_answer(ans: Seq<Option<u64>>) -> Option<u64> {
    if ans.len() > 0 {
        ans[0]
    } else {
        None
    }
}

/// The answers after the first.
pub open spec fn rest_answers(ans: Seq<Option<u64>>) -> Seq<Option<u64>> {
    if ans.len() > 0 {
        ans.drop_first()
    } else {
        ans
    }
}

/// Mapping device page `phys` at `vaddr`, from table `t` at `level` down:
/// the tables it leaves, the allocation answers it leaves unused, and
/// whether it succeeded.  An absent table entry takes the next answer
/// (`mmio_alloc`); a present one is descended or, as a huge page, leaves
/// the page mapped already; at level 1 an absent entry gets `mmio_pte`.
pub open spec fn mmio_page(
    m: spec_fn(u64, int) -> u64,
    ans: Seq<Option<u64>>,
    t: u64,
    vaddr: u64,
    phys: u64,
    level: u8,
) -> (spec_fn(u64, int) -> u64, Seq<Option<u64>>, bool)
    decreases level, (if present(m(t, spec_table_index(vaddr, level) as int)) { 0int } else { 2int }),
{
    if level < 1 || level > 4 {
        (m, ans, false)
    } else {
        let i = spec_table_index(vaddr, level) as int;
        match mmio_step_of(level, m(t, i), phys) {
            MapStep::AllocTable => mmio_alloc(m, ans, t, vaddr, phys, level),
            MapStep::Descend(n) => if level > 1 {
                mmio_page(m, ans, n, vaddr, phys, (level - 1) as u8)
            } else {
                (m, ans, false)
            },
            MapStep::Mapped => (m, ans, true),
            MapStep::Write(pte) => (mem_write(m, t, i, pte), ans, true),
        }
    }
}

/// The rest of `mmio_page` once entry `spec_table_index(vaddr, level)` of
/// `t` asked for a table: with no table page the mapping fails; otherwise
/// the entry points to the new table and is looked at again.
pub open spec fn mmio_alloc(
    m: spec_fn(u64, int) -> u64,
    ans: Seq<Option<u64>>,
    t: u64,
    vaddr: u64,
    phys: u64,
    level: u8,
) -> (spec_fn(u64, int) -> u64, Seq<Option<u64>>, bool)
    decreases level, 1int,
{
    let i = spec_table_index(vaddr, level) as int;
    match first_answer(ans) {
        None => (m, rest_answers(ans), false),
        Some(p) => {
            proof {
                lemma_table_entry_present(p);
            }
            mmio_page(
                mem_write(m, t, i, p | PTE_PRESENT | PTE_WRITABLE),
                rest_answers(ans),
                t,
                vaddr,
                phys,
                level,
            )
        },
    }
}

/// How a device-memory mapping ends.
pub enum MmioEnd {
    /// A page's address did not fit in 64 bits.
    Overflow,
    /// It returned this address (0: a table could not be allocated).
    Ret(usize),
}

/// Mapping pages `page .. n` of the region at `phys_base`, one after the
/// other from table `root`: the tables, the unused answers, and how it
/// ends.
pub open spec fn mmio_span(
    m: spec_fn(u64, int) -> u64,
    ans: Seq<Option<u64>>,
    root: u64,
    hhdm: u64,
    phys_base: u64,
    page: nat,
    n: nat,
) -> (spec_fn(u64, int) -> u64, Seq<Option<u64>>, MmioEnd)
    decreases n - page,
{
    if page >= n {
        (m, ans, MmioEnd::Ret(virt_of(hhdm, phys_base)))
    } else if mmio_vaddr(hhdm, phys_base, page) > u64::MAX {
        (m, ans, MmioEnd::Overflow)
    } else {
        let (m1, a1, ok) = mmio_page(
            m,
            ans,
            root,
            mmio_vaddr(hhdm, phys_base, page) as u64,
            (phys_base + page * PAGE_BYTES) as u64,
            4,
        );
        if ok {
            mmio_span(m1, a1, root, hhdm, phys_base, page + 1, n)
        } else {
            (m1, a1, MmioEnd::Ret(0))
        }
    }
}

/// The whole mapping of `n` pages at `phys_base` into the direct map at
/// `hhdm`, from table `root`, when table allocations answer `ans` in turn.
pub open spec fn mmio_walk_result(
    m: spec_fn(u64, int) -> u64,
    ans: Seq<Option<u64>>,
    root: u64,
    hhdm: u64,
    phys_base: u64,
    n: nat,
) -> (spec_fn(u64, int) -> u64, Seq<Option<u64>>, MmioEnd) {
    if hhdm + phys_base > u64::MAX {
        (m, ans, MmioEnd::Overflow)
    } else {
        mmio_span(m, ans, root, hhdm, phys_base, 0, n)
    }
}

/// What a walk in state `v` leaves, from tables `m` with answers `ans`.
pub open spec fn mmio_state_result(m: spec_fn(u64, int) -> u64, ans: Seq<Option<u64>>, v: MmioWalkView) -> (
    spec_fn(u64, int) -> u64,
    Seq<Option<u64>>,
    MmioEnd,
) {
    let vaddr = mmio_vaddr(v.hhdm, v.phys_base, v.page) as u64;
    let phys = (v.phys_base + v.page * PAGE_BYTES) as u64;
    match v.op {
        MmioOp::Done(r) => (m, ans, MmioEnd::Ret(r)),
        MmioOp::Overflow => (m, ans, MmioEnd::Overflow),
        MmioOp::Visit { .. } => {
            let (m1, a1, ok) = mmio_page(m, ans, v.table, vaddr, phys, v.level as u8);
            if ok {
                mmio_span(m1, a1, v.root, v.hhdm, v.phys_base, v.page + 1, v.num_pages)
            } else {
                (m1, a1, MmioEnd::Ret(0))
            }
        },
        MmioOp::NewTable { .. } => {
            let (m1, a1, ok) = mmio_alloc(m, ans, v.table, vaddr, phys, v.level as u8);
            if ok {
                mmio_span(m1, a1, v.root, v.hhdm, v.phys_base, v.page + 1, v.num_pages)
            } else {
                (m1, a1, MmioEnd::Ret(0))
            }
        },
    }
}

/// The conditions `MmioWalk::wf` keeps, over the view.
pub open spec fn mmio_view_ok(v: MmioWalkView) -> bool {
    &&& 1 <= v.level <= 4
    &&& v.page <= v.num_pages
    &&& v.op matches MmioOp::Visit { .. } ==> {
        &&& v.page < v.num_pages
        &&& mmio_vaddr(v.hhdm, v.phys_base, v.page) <= u64::MAX
        &&& v.op == mmio_visit(v)
    }
    &&& v.op matches MmioOp::NewTable { table, index } ==> {
        &&& v.page < v.num_pages
        &&& v.level > 1
        &&& mmio_vaddr(v.hhdm, v.phys_base, v.page) <= u64::MAX
        &&& table == v.table
        &&& index == spec_table_index(mmio_vaddr(v.hhdm, v.phys_base, v.page) as u64, v.level as u8)
    }
}

/// The walk that `MmioWalk::start` hands out leaves what the whole mapping
/// leaves.
pub proof fn lemma_mmio_start(m: spec_fn(u64, int) -> u64, ans: Seq<Option<u64>>, v: MmioWalkView)
    requires
        v.page == 0,
        v.level == 4,
        v.table == v.root,
        v.op == (if v.hhdm + v.phys_base > u64::MAX {
            MmioOp::Overflow
        } else if v.num_pages == 0 {
            MmioOp::Done(virt_of(v.hhdm, v.phys_base))
        } else {
            mmio_visit(v)
        }),
    ensures
        mmio_state_result(m, ans, v) == mmio_walk_result(m, ans, v.root, v.hhdm, v.phys_base, v.num_pages),
{
}

proof fn lemma_mmio_next_page(m: spec_fn(u64, int) -> u64, ans: Seq<Option<u64>>, v: MmioWalkView)
    requires
        v.page < v.num_pages,
    ensures
        mmio_state_result(m, ans, mmio_next_page(v)) == mmio_span(
            m,
            ans,
            v.root,
            v.hhdm,
            v.phys_base,
            v.page + 1,
            v.num_pages,
        ),
{
}

/// Answering a `Visit` with the entry the tables hold there, and making the
/// write that `feed` gives, keeps what the walk will leave.
pub proof fn lemma_mmio_feed(m: spec_fn(u64, int) -> u64, ans: Seq<Option<u64>>, v: MmioWalkView)
    requires
        mmio_view_ok(v),
        v.op is Visit,
    ensures
        ({
            let i = spec_table_index(mmio_vaddr(v.hhdm, v.phys_base, v.page) as u64, v.level as u8) as int;
            let (w, _, v2) = mmio_feed(v, m(v.table, i));
            mmio_state_result(after_write(m, v.table, i, w), ans, v2) == mmio_state_result(m, ans, v)
        }),
{
    let vaddr = mmio_vaddr(v.hhdm, v.phys_base, v.page) as u64;
    let phys = (v.phys_base + v.page * PAGE_BYTES) as u64;
    let i = spec_table_index(vaddr, v.level as u8) as int;
    let (w, _, v2) = mmio_feed(v, m(v.table, i));
    match mmio_step_of(v.level as u8, m(v.table, i), phys) {
        MapStep::Mapped => {
            lemma_mmio_next_page(m, ans, v);
        },
        MapStep::Write(pte) => {
            lemma_mmio_next_page(mem_write(m, v.table, i, pte), ans, v);
        },
        _ => {},
    }
}

/// Answering a `NewTable` request with the next allocation answer, and
/// making the write that `table_made` gives, keeps what the walk will
/// leave with the remaining answers.
pub proof fn lemma_mmio_table(m: spec_fn(u64, int) -> u64, ans: Seq<Option<u64>>, v: MmioWalkView)
    requires
        mmio_view_ok(v),
        v.op is NewTable,
    ensures
        ({
            let i = spec_table_index(mmio_vaddr(v.hhdm, v.phys_base, v.page) as u64, v.level as u8) as int;
            let (w, v2) = mmio_table(v, first_answer(ans));
            mmio_state_result(after_write(m, v.table, i, w), rest_answers(ans), v2) == mmio_state_result(
                m,
                ans,
                v,
            )
        }),
{
}

/// The entry `lapic_pte` writes.
pub open spec fn lapic_pte_value() -> u64 {
    LAPIC_PHYS | PTE_PRESENT | PTE_WRITABLE | PTE_PWT | PTE_PCD
}

/// How mapping the local APIC page ends.
pub enum LapicEnd {
    /// A PML4 or PDPT entry on the way is absent.
    Unreachable,
    /// No page table could be allocated.
    NoMemory,
    /// Mapped at this virtual address.
    Mapped(u64),
}

/// Mapping the APIC page at `vaddr` from table `t` at `level` down, when
/// a page-table allocation would answer `a`: the tables it leaves and how
/// it ends.
pub open spec fn lapic_page(m: spec_fn(u64, int) -> u64, a: Option<u64>, t: u64, vaddr: u64, level: u8) -> (
    spec_fn(u64, int) -> u64,
    LapicEnd,
)
    decreases level,
{
    if level < 1 || level > 4 {
        (m, LapicEnd::Unreachable)
    } else {
        let i = spec_table_index(vaddr, level) as int;
        match lapic_step_of(level, m(t, i)) {
            LapicStep::Fail => (m, LapicEnd::Unreachable),
            LapicStep::Mapped => (m, LapicEnd::Mapped(vaddr)),
            LapicStep::Descend(n) => if level > 1 {
                lapic_page(m, a, n, vaddr, (level - 1) as u8)
            } else {
                (m, LapicEnd::Unreachable)
            },
            LapicStep::NewTable => lapic_new_table(m, a, t, vaddr, level),
            LapicStep::WritePte => (mem_write(m, t, i, lapic_pte_value()), LapicEnd::Mapped(vaddr)),
        }
    }
}

/// The rest of `lapic_page` once the PD entry asked for a page table: with
/// table `pt` the PD entry points to it and its entry for `vaddr` is
/// `lapic_pte`, in that order; without one the mapping fails.
pub open spec fn lapic_new_table(m: spec_fn(u64, int) -> u64, a: Option<u64>, t: u64, vaddr: u64, level: u8) -> (
    spec_fn(u64, int) -> u64,
    LapicEnd,
) {
    match a {
        None => (m, LapicEnd::NoMemory),
        Some(pt) => {
            let m1 = mem_write(m, t, spec_table_index(vaddr, level) as int, pt | PTE_PRESENT | PTE_WRITABLE);
            (mem_write(m1, pt, spec_table_index(vaddr, 1) as int, lapic_pte_value()), LapicEnd::Mapped(vaddr))
        },
    }
}

/// What a walk in state `v` leaves, from tables `m`, when a page-table
/// allocation would answer `a`.
pub open spec fn lapic_state_result(m: spec_fn(u64, int) -> u64, a: Option<u64>, v: LapicWalkView) -> (
    spec_fn(u64, int) -> u64,
    LapicEnd,
) {
    match v.op {
        LapicOp::Visit { .. } => lapic_page(m, a, v.table, v.vaddr, v.level as u8),
        LapicOp::NewTable { .. } => lapic_new_table(m, a, v.table, v.vaddr, v.level as u8),
        LapicOp::Unreachable => (m, LapicEnd::Unreachable),
        LapicOp::NoMemory => (m, LapicEnd::NoMemory),
        LapicOp::Done(r) => (m, LapicEnd::Mapped(r)),
    }
}

/// The conditions `LapicWalk::wf` keeps, over the view.
pub open spec fn lapic_view_ok(v: LapicWalkView) -> bool {
    &&& 1 <= v.level <= 4
    &&& v.op matches LapicOp::Visit { table, index } ==> table == v.table && index == spec_table_index(
        v.vaddr,
        v.level as u8,
    )
    &&& v.op matches LapicOp::NewTable { table, index } ==> v.level == 2 && table == v.table && index
        == spec_table_index(v.vaddr, v.level as u8)
}

/// The walk that `LapicWalk::start` hands out leaves what mapping the page
/// from the top-level table leaves.
pub proof fn lemma_lapic_start(m: spec_fn(u64, int) -> u64, a: Option<u64>, v: LapicWalkView)
    requires
        v.level == 4,
        v.op == (LapicOp::Visit { table: v.table, index: spec_table_index(v.vaddr, 4) as usize }),
    ensures
        lapic_state_result(m, a, v) == lapic_page(m, a, v.table, v.vaddr, 4),
{
}

/// Answering a `Visit` with the entry the tables hold there, and making the
/// write that `feed` gives, keeps what the walk will leave.
pub proof fn lemma_lapic_feed(m: spec_fn(u64, int) -> u64, a: Option<u64>, v: LapicWalkView)
    requires
        lapic_view_ok(v),
        v.op is Visit,
    ensures
        ({
            let i = spec_table_index(v.vaddr, v.level as u8) as int;
            let (w, _, v2) = lapic_feed(v, m(v.table, i));
            lapic_state_result(after_write(m, v.table, i, w), a, v2) == lapic_state_result(m, a, v)
        }),
{
}

/// Answering a `NewTable` request with `a`, and making the writes that
/// `table_made` gives (the requesting entry first, then the one in the new
/// table), gives what the walk leaves.
pub proof fn lemma_lapic_table(m: spec_fn(u64, int) -> u64, a: Option<u64>, v: LapicWalkView)
    requires
        lapic_view_ok(v),
        v.op is NewTable,
    ensures
        ({
            let i = spec_table_index(v.vaddr, v.level as u8) as int;
            let (w, pte, _, v2) = lapic_table(v, a);
            let m1 = after_write(m, v.table, i, w);
            let m2 = match pte {
                Some((pt, j, val)) => mem_write(m1, pt, j as int, val),
                None => m1,
            };
            lapic_state_result(m2, a, v2) == lapic_state_result(m, a, v)
        }),
{
    lemma_table_index_bound(v.vaddr, 1);
}

} // verus!
