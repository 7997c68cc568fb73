//! Bookkeeping of the processors: how many the bootloader reported, which
//! one booted, and which have come online.
use vstd::prelude::*;

verus! {

/// Slots in the online table; a LAPIC id maps to slot `id % MAX_CPUS`.
pub const MAX_CPUS: usize = 64;

/// The online-table slot of the processor with LAPIC id `lapic_id`.
pub fn cpu_slot(lapic_id: u32) -> (r: usize)
    ensures
        r == (lapic_id as int) % (MAX_CPUS as int),
        r < MAX_CPUS,
{
    (lapic_id as usize) % MAX_CPUS
}

/// Whether the bootstrap processor may let the others go: all `cpu_count -
/// 1` application processors have reported ready.
pub fn aps_all_ready(ready: u32, cpu_count: u32) -> (r: bool)
    requires
        cpu_count >= 1,
    ensures
        r == (ready >= cpu_count - 1),
{
    ready >= cpu_count - 1
}

/// The number of slots that are set in `online`.
pub open spec fn count_online(online: Seq<bool>) -> nat
    decreases online.len(),
{
    if online.len() == 0 {
        0
    } else {
        count_online(online.drop_last()) + if online.last() {
            1nat
        } else {
            0nat
        }
    }
}

proof fn lemma_count_le(online: Seq<bool>)
    ensures
        count_online(online) <= online.len(),
    decreases online.len(),
{
    if online.len() > 0 {
        lemma_count_le(online.drop_last());
    }
}

/// The abstract state: processor count, bootstrap LAPIC id, online slots.
pub struct SmpView {
    pub cpu_count: u32,
    pub bsp_id: u32,
    pub online: Seq<bool>,
}

pub struct SmpState {
    cpu_count: u32,
    bsp_id: u32,
    online: Vec<bool>,
}

impl View for SmpState {
    type V = SmpView;

    closed spec fn view(&self) -> SmpView {
        SmpView { cpu_count: self.cpu_count, bsp_id: self.bsp_id, online: self.online@ }
    }
}

impl SmpState {
    pub closed spec fn wf(&self) -> bool {
        self.online@.len() == MAX_CPUS
    }

    /// One processor, id 0, nothing online.
    pub fn new() -> (r: Self)
        ensures
            r.wf(),
            r@.cpu_count == 1,
            r@.bsp_id == 0,
            r@.online == Seq::new(MAX_CPUS as nat, |i: int| false),
    {
        let mut online: Vec<bool> = Vec::new();
        let mut i: usize = 0;
        while i < MAX_CPUS
            invariant
                i <= MAX_CPUS,
                online@ == Seq::new(i as nat, |k: int| false),
            decreases MAX_CPUS - i,
        {
            online.push(false);
            i += 1;
            assert(online@ =~= Seq::new(i as nat, |k: int| false));
        }
        SmpState { cpu_count: 1, bsp_id: 0, online }
    }

    /// Records the bootloader's report (`cpu_count` processors, bootstrap
    /// processor `bsp_id`) and marks the bootstrap processor online.
    pub fn init(&mut self, bsp_id: u32, cpu_count: u32)
        requires
            old(self).wf(),
        ensures
            final(self).wf(),
            final(self)@.cpu_count == cpu_count,
            final(self)@.bsp_id == bsp_id,
            final(self)@.online == old(self)@.online.update((bsp_id as int) % (MAX_CPUS as int), true),
    {
        self.bsp_id = bsp_id;
        self.cpu_count = cpu_count;
        let slot = cpu_slot(bsp_id);
        self.online.set(slot, true);
    }

    /// Marks the processor with LAPIC id `lapic_id` online.
    pub fn mark_online(&mut self, lapic_id: u32)
        requires
            old(self).wf(),
        ensures
            final(self).wf(),
            final(self)@ == (SmpView {
                online: old(self)@.online.update((lapic_id as int) % (MAX_CPUS as int), true),
                ..old(self)@
            }),
    {
        let slot = cpu_slot(lapic_id);
        self.online.set(slot, true);
    }

    pub fn cpu_count(&self) -> (r: u32)
        ensures
            r == self@.cpu_count,
    {
        self.cpu_count
    }

    pub fn bsp_id(&self) -> (r: u32)
        ensures
            r == self@.bsp_id,
    {
        self.bsp_id
    }

    /// Whether the slot of `lapic_id` is marked online.
    pub fn is_online(&self, lapic_id: u32) -> (r: bool)
        requires
            self.wf(),
        ensures
            r == self@.online[(lapic_id as int) % (MAX_CPUS as int)],
    {
        self.online[cpu_slot(lapic_id)]
    }

    /// The number of online slots.
    pub fn online_count(&self) -> (r: u32)
        requires
            self.wf(),
        ensures
            r == count_online(self@.online),
    {
        let mut count: u32 = 0;
        let mut i: usize = 0;
        while i < MAX_CPUS
            invariant
                i <= MAX_CPUS,
                self.online@.len() == MAX_CPUS,
                count == count_online(self.online@.subrange(0, i as int)),
            decreases MAX_CPUS - i,
        {
            proof {
                lemma_count_le(self.online@.subrange(0, i as int));
                assert(self.online@.subrange(0, i + 1).drop_last() =~= self.online@.subrange(0, i as int));
            }
            if self.online[i] {
                count = count + 1;
            }
            i += 1;
        }
        assert(self.online@.subrange(0, MAX_CPUS as int) =~= self.online@);
        count
    }
}

} // verus!
