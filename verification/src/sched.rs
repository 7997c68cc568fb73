//! Preemptive round-robin scheduling of kernel tasks: the task table, the
//! context switch on each timer tick, and task creation.
use vstd::prelude::*;
use vstd::arithmetic::power2::pow2;
use crate::descriptor::{IsrContext, KERNEL_CS, KERNEL_DS};
use crate::heap::{KernelHeap, PAGE_SIZE};

verus! {

/// Slots in the task table; slot 0 is the idle task.
pub const MAX_TASKS: usize = 16;

/// Bytes of each task's stack.
pub const TASK_STACK_SIZE: usize = 0x4000;

/// Buddy order of a task stack (4 pages).
pub const TASK_STACK_ORDER: usize = 2;

/// Timer interrupt rate.
pub const TIMER_HZ: u32 = 100;

/// Vector of the timer interrupt (IRQ 0).
pub const TIMER_VECTOR: usize = 32;

/// Flags a new task starts with: interrupts enabled.
pub const INITIAL_RFLAGS: u64 = 0x202;

/// Longest task name kept (the 16-byte field stays zero-terminated).
pub const NAME_MAX: usize = 15;

#[derive(Clone, Copy, PartialEq, Eq, Structural, Debug)]
pub enum TaskState {
    Empty,
    Ready,
    Running,
    Exited,
}

/// A task's saved registers and bookkeeping.
#[derive(Clone, Copy, Debug)]
pub struct Task {
    pub rip: u64,
    pub rsp: u64,
    pub rflags: u64,
    pub rax: u64,
    pub rbx: u64,
    pub rcx: u64,
    pub rdx: u64,
    pub rsi: u64,
    pub rdi: u64,
    pub rbp: u64,
    pub r8: u64,
    pub r9: u64,
    pub r10: u64,
    pub r11: u64,
    pub r12: u64,
    pub r13: u64,
    pub r14: u64,
    pub r15: u64,
    pub state: TaskState,
    pub id: u16,
    pub stack_base: usize,
    pub stack_size: usize,
    pub name: [u8; 16],
}

/// Whether `t` is an empty slot: every field zero.
pub open spec fn is_empty_task(t: Task) -> bool {
    &&& t.rip == 0 && t.rsp == 0 && t.rflags == 0
    &&& t.rax == 0 && t.rbx == 0 && t.rcx == 0 && t.rdx == 0
    &&& t.rsi == 0 && t.rdi == 0 && t.rbp == 0
    &&& t.r8 == 0 && t.r9 == 0 && t.r10 == 0 && t.r11 == 0
    &&& t.r12 == 0 && t.r13 == 0 && t.r14 == 0 && t.r15 == 0
    &&& t.state == TaskState::Empty
    &&& t.id == 0
    &&& t.stack_base == 0 && t.stack_size == 0
    &&& t.name@ == Seq::new(16, |j: int| 0u8)
}

impl Task {
    /// An empty slot.
    pub fn empty() -> (r: Self)
        ensures
            is_empty_task(r),
    {
        let r = Task {
            rip: 0,
            rsp: 0,
            rflags: 0,
            rax: 0,
            rbx: 0,
            rcx: 0,
            rdx: 0,
            rsi: 0,
            rdi: 0,
            rbp: 0,
            r8: 0,
            r9: 0,
            r10: 0,
            r11: 0,
            r12: 0,
            r13: 0,
            r14: 0,
            r15: 0,
            state: TaskState::Empty,
            id: 0,
            stack_base: 0,
            stack_size: 0,
            name: [0u8; 16],
        };
        assert(r.name@ =~= Seq::new(16, |j: int| 0u8));
        r
    }
}

/// Task `t` with the general registers, instruction pointer, stack pointer
/// and flags of the interrupted context `ctx`.
pub open spec fn saved(t: Task, ctx: IsrContext) -> Task {
    Task {
        rip: ctx.rip,
        rsp: ctx.rsp,
        rflags: ctx.rflags,
        rax: ctx.rax,
        rbx: ctx.rbx,
        rcx: ctx.rcx,
        rdx: ctx.rdx,
        rsi: ctx.rsi,
        rdi: ctx.rdi,
        rbp: ctx.rbp,
        r8: ctx.r8,
        r9: ctx.r9,
        r10: ctx.r10,
        r11: ctx.r11,
        r12: ctx.r12,
        r13: ctx.r13,
        r14: ctx.r14,
        r15: ctx.r15,
        ..t
    }
}

/// Context `ctx` resuming task `t` in the kernel code and data segments.
pub open spec fn loaded(ctx: IsrContext, t: Task) -> IsrContext {
    IsrContext {
        rip: t.rip,
        rsp: t.rsp,
        rflags: t.rflags,
        rax: t.rax,
        rbx: t.rbx,
        rcx: t.rcx,
        rdx: t.rdx,
        rsi: t.rsi,
        rdi: t.rdi,
        rbp: t.rbp,
        r8: t.r8,
        r9: t.r9,
        r10: t.r10,
        r11: t.r11,
        r12: t.r12,
        r13: t.r13,
        r14: t.r14,
        r15: t.r15,
        cs: KERNEL_CS as u64,
        ss: KERNEL_DS as u64,
        ..ctx
    }
}

/// Stores the interrupted context's registers into `task`.
pub fn save_ctx(task: &mut Task, ctx: &IsrContext)
    ensures
        *final(task) == saved(*old(task), *ctx),
{
    task.rip = ctx.rip;
    task.rsp = ctx.rsp;
    task.rflags = ctx.rflags;
    task.rax = ctx.rax;
    task.rbx = ctx.rbx;
    task.rcx = ctx.rcx;
    task.rdx = ctx.rdx;
    task.rsi = ctx.rsi;
    task.rdi = ctx.rdi;
    task.rbp = ctx.rbp;
    task.r8 = ctx.r8;
    task.r9 = ctx.r9;
    task.r10 = ctx.r10;
    task.r11 = ctx.r11;
    task.r12 = ctx.r12;
    task.r13 = ctx.r13;
    task.r14 = ctx.r14;
    task.r15 = ctx.r15;
}

/// Makes the interrupt return resume `task`.
pub fn load_ctx(task: &Task, ctx: &mut IsrContext)
    ensures
        *final(ctx) == loaded(*old(ctx), *task),
{
    ctx.rip = task.rip;
    ctx.rsp = task.rsp;
    ctx.rflags = task.rflags;
    ctx.rax = task.rax;
    ctx.rbx = task.rbx;
    ctx.rcx = task.rcx;
    ctx.rdx = task.rdx;
    ctx.rsi = task.rsi;
    ctx.rdi = task.rdi;
    ctx.rbp = task.rbp;
    ctx.r8 = task.r8;
    ctx.r9 = task.r9;
    ctx.r10 = task.r10;
    ctx.r11 = task.r11;
    ctx.r12 = task.r12;
    ctx.r13 = task.r13;
    ctx.r14 = task.r14;
    ctx.r15 = task.r15;
    ctx.cs = KERNEL_CS as u64;
    ctx.ss = KERNEL_DS as u64;
}

/// The abstract scheduler state.
pub struct SchedView {
    pub tasks: Seq<Task>,
    pub current: nat,
    pub active: bool,
    pub ticks: nat,
    pub preempt: nat,
}

/// The first slot after `cur`, in round-robin order, whose task is ready,
/// looking at offsets `k` through MAX_TASKS (the last being `cur` itself).
pub open spec fn ready_from(tasks: Seq<Task>, cur: nat, k: nat) -> Option<nat>
    decreases MAX_TASKS + 1 - k,
{
    if k > MAX_TASKS {
        None
    } else if tasks[((cur + k) % (MAX_TASKS as nat)) as int].state == TaskState::Ready {
        Some((cur + k) % (MAX_TASKS as nat))
    } else {
        ready_from(tasks, cur, k + 1)
    }
}

/// The task a tick switches to from `cur`.
pub open spec fn next_ready(tasks: Seq<Task>, cur: nat) -> Option<nat> {
    ready_from(tasks, cur, 1)
}

/// The kernel stack top of task `t`.
pub open spec fn stack_top(t: Task) -> u64 {
    (t.stack_base + t.stack_size) as u64
}

/// The scheduler state, interrupted context and TSS stack to install after a
/// timer tick in state `s` that interrupted `ctx`.
pub open spec fn tick_outcome(s: SchedView, ctx: IsrContext) -> (SchedView, IsrContext, Option<u64>) {
    let s1 = SchedView { ticks: s.ticks + 1, ..s };
    if !s.active || s.preempt > 0 {
        (s1, ctx, None)
    } else {
        let cur = s.current;
        let t0 = saved(s.tasks[cur as int], ctx);
        let t1 = if t0.state == TaskState::Running {
            Task { state: TaskState::Ready, ..t0 }
        } else {
            t0
        };
        let tasks1 = s.tasks.update(cur as int, t1);
        let s2 = SchedView { tasks: tasks1, ..s1 };
        match next_ready(tasks1, cur) {
            Some(n) => {
                let tn = Task { state: TaskState::Running, ..tasks1[n as int] };
                (
                    SchedView { tasks: tasks1.update(n as int, tn), current: n, ..s1 },
                    loaded(ctx, tn),
                    Some(stack_top(tn)),
                )
            },
            None => {
                if tasks1[0].state == TaskState::Exited {
                    (s2, ctx, None)
                } else {
                    let tn = Task { state: TaskState::Running, ..tasks1[0] };
                    (
                        SchedView { tasks: tasks1.update(0, tn), current: 0, ..s1 },
                        loaded(ctx, tn),
                        Some(stack_top(tn)),
                    )
                }
            },
        }
    }
}

/// The first slot from `i` on (slot 0 excluded) that is empty or whose task
/// has exited.
pub open spec fn free_slot_from(tasks: Seq<Task>, i: nat) -> Option<nat>
    decreases MAX_TASKS - i,
{
    if i >= MAX_TASKS {
        None
    } else if tasks[i as int].state == TaskState::Empty || tasks[i as int].state
        == TaskState::Exited {
        Some(i)
    } else {
        free_slot_from(tasks, i + 1)
    }
}

/// The name field for `name`: its first 15 bytes at most, zero-padded.
pub open spec fn name_field(name: Seq<u8>) -> Seq<u8> {
    Seq::new(16, |j: int| if j < name.len() && j < NAME_MAX { name[j] } else { 0u8 })
}

/// The task a spawn puts in slot `i`: ready, on the stack at `stack`, about
/// to run `trampoline(entry, api)` with interrupts enabled.
pub open spec fn spawned_task(t: Task, i: nat, stack: nat, entry: u64, api: u64, trampoline: u64, name: Seq<u8>) -> bool {
    &&& t.state == TaskState::Ready
    &&& t.id == i
    &&& t.stack_base == stack
    &&& t.stack_size == TASK_STACK_SIZE
    &&& t.name@ == name_field(name)
    &&& t.rip == trampoline
    &&& t.rsp == stack + TASK_STACK_SIZE - 8
    &&& t.rflags == INITIAL_RFLAGS
    &&& t.rdi == entry
    &&& t.rsi == api
    &&& t.rax == 0 && t.rbx == 0 && t.rcx == 0 && t.rdx == 0 && t.rbp == 0
    &&& t.r8 == 0 && t.r9 == 0 && t.r10 == 0 && t.r11 == 0
    &&& t.r12 == 0 && t.r13 == 0 && t.r14 == 0 && t.r15 == 0
}

/// The task table and the state the timer interrupt works on.
pub struct Scheduler {
    tasks: Vec<Task>,
    current: usize,
    active: bool,
    tick_count: u64,
    preempt_count: u32,
}

impl View for Scheduler {
    type V = SchedView;

    closed spec fn view(&self) -> SchedView {
        SchedView {
            tasks: self.tasks@,
            current: self.current as nat,
            active: self.active,
            ticks: self.tick_count as nat,
            preempt: self.preempt_count as nat,
        }
    }
}

/// At most one task is running, and it is the current one.
pub open spec fn single_running(s: SchedView) -> bool {
    forall|i: int| 0 <= i < s.tasks.len() && (#[trigger] s.tasks[i]).state == TaskState::Running
        ==> i == s.current
}

/// Every task's stack ends inside the address space.
pub open spec fn stacks_fit(tasks: Seq<Task>) -> bool {
    forall|i: int| 0 <= i < tasks.len() ==> (#[trigger] tasks[i]).stack_base + tasks[i].stack_size
        <= usize::MAX
}

impl Scheduler {
    pub closed spec fn wf(&self) -> bool {
        &&& self.tasks@.len() == MAX_TASKS
        &&& self.current < MAX_TASKS
        &&& single_running(self@)
        &&& stacks_fit(self.tasks@)
    }

    /// The invariant, as callers see it.
    pub proof fn lemma_wf(&self)
        requires
            self.wf(),
        ensures
            self@.tasks.len() == MAX_TASKS,
            self@.current < MAX_TASKS,
            single_running(self@),
            stacks_fit(self@.tasks),
    {
    }

    /// All slots empty, slot 0 current, scheduling not yet started.
    pub fn new() -> (r: Self)
        ensures
            r.wf(),
            r@.tasks.len() == MAX_TASKS,
            forall|i: int| 0 <= i < MAX_TASKS ==> is_empty_task(#[trigger] r@.tasks[i]),
            r@.current == 0,
            !r@.active,
            r@.ticks == 0,
            r@.preempt == 0,
    {
        let mut tasks: Vec<Task> = Vec::new();
        let mut i: usize = 0;
        while i < MAX_TASKS
            invariant
                i <= MAX_TASKS,
                tasks@.len() == i,
                forall|j: int| 0 <= j < i ==> is_empty_task(#[trigger] tasks@[j]),
            decreases MAX_TASKS - i,
        {
            tasks.push(Task::empty());
            i += 1;
        }
        Scheduler { tasks, current: 0, active: false, tick_count: 0, preempt_count: 0 }
    }

    /// Makes the booting context task 0, the running idle task.
    pub fn init(&mut self)
        requires
            old(self).wf(),
            old(self)@.current == 0,
        ensures
            final(self).wf(),
            final(self)@ == (SchedView {
                tasks: old(self)@.tasks.update(
                    0,
                    Task {
                        state: TaskState::Running,
                        id: 0,
                        name: final(self)@.tasks[0].name,
                        ..old(self)@.tasks[0]
                    },
                ),
                ..old(self)@
            }),
            final(self)@.tasks[0].name@.subrange(0, 4) == seq![0x69u8, 0x64u8, 0x6Cu8, 0x65u8],
            final(self)@.tasks[0].name@.subrange(4, 16) == old(self)@.tasks[0].name@.subrange(4, 16),
    {
        let mut t = self.tasks[0];
        t.state = TaskState::Running;
        t.id = 0;
        t.name[0] = 0x69;
        t.name[1] = 0x64;
        t.name[2] = 0x6C;
        t.name[3] = 0x65;
        self.tasks.set(0, t);
        assert(self@.tasks[0].name@.subrange(0, 4) =~= seq![0x69u8, 0x64u8, 0x6Cu8, 0x65u8]);
        assert(self@.tasks[0].name@.subrange(4, 16) =~= old(self)@.tasks[0].name@.subrange(4, 16));
    }

    /// Lets timer ticks switch tasks from now on.
    pub fn start(&mut self)
        ensures
            final(self)@ == (SchedView { active: true, ..old(self)@ }),
    {
        self.active = true;
    }

    /// Timer ticks seen so far.
    pub fn ticks(&self) -> (r: u64)
        ensures
            r == self@.ticks,
    {
        self.tick_count
    }

    /// How many `preempt_disable` calls are in effect.
    pub fn preempt_count(&self) -> (r: u32)
        ensures
            r == self@.preempt,
    {
        self.preempt_count
    }

    /// Holds off task switches until the matching `preempt_enable`.
    pub fn preempt_disable(&mut self)
        requires
            old(self)@.preempt < u32::MAX,
        ensures
            final(self)@ == (SchedView { preempt: old(self)@.preempt + 1, ..old(self)@ }),
    {
        self.preempt_count = self.preempt_count + 1;
    }

    /// Undoes one `preempt_disable`; does nothing when none is in effect.
    pub fn preempt_enable(&mut self)
        ensures
            final(self)@ == (SchedView {
                preempt: if old(self)@.preempt > 0 {
                    (old(self)@.preempt - 1) as nat
                } else {
                    0
                },
                ..old(self)@
            }),
    {
        if self.preempt_count > 0 {
            self.preempt_count = self.preempt_count - 1;
        }
    }

    /// Marks the current task as exited.
    pub fn task_exit(&mut self)
        requires
            old(self).wf(),
        ensures
            final(self).wf(),
            final(self)@ == (SchedView {
                tasks: old(self)@.tasks.update(
                    old(self)@.current as int,
                    Task { state: TaskState::Exited, ..old(self)@.tasks[old(self)@.current as int] },
                ),
                ..old(self)@
            }),
    {
        let cur = self.current;
        let mut t = self.tasks[cur];
        t.state = TaskState::Exited;
        self.tasks.set(cur, t);
    }

    /// Handles a timer interrupt that interrupted `ctx`: counts the tick and,
    /// when scheduling is active and not held off, saves the current task,
    /// picks the next ready task in round-robin order (or the idle task), and
    /// makes `ctx` resume it. Returns the kernel stack top to install in the
    /// TSS when a task was switched in.
    pub fn timer_tick(&mut self, ctx: &mut IsrContext) -> (r: Option<u64>)
        requires
            old(self).wf(),
            old(self)@.ticks < u64::MAX,
        ensures
            final(self).wf(),
            (final(self)@, *final(ctx), r) == tick_outcome(old(self)@, *old(ctx)),
    {
        self.tick_count = self.tick_count + 1;
        if !self.active || self.preempt_count > 0 {
            return None;
        }
        let cur = self.current;
        let mut t = self.tasks[cur];
        save_ctx(&mut t, ctx);
        if t.state == TaskState::Running {
            t.state = TaskState::Ready;
        }
        self.tasks.set(cur, t);
        let ghost tasks1 = self.tasks@;
        assert(forall|i: int| 0 <= i < MAX_TASKS ==> (#[trigger] tasks1[i]).state
            != TaskState::Running);
        let mut next = cur;
        let mut k: usize = 0;
        let mut found = false;
        while k < MAX_TASKS
            invariant_except_break
                k <= MAX_TASKS,
                cur < MAX_TASKS,
                self.tasks@ == tasks1,
                tasks1.len() == MAX_TASKS,
                next == (cur + k) % (MAX_TASKS as int),
                !found,
                ready_from(tasks1, cur as nat, (k + 1) as nat) == next_ready(tasks1, cur as nat),
            ensures
                self.tasks@ == tasks1,
                found ==> next_ready(tasks1, cur as nat) == Some(next as nat) && next < MAX_TASKS,
                !found ==> next_ready(tasks1, cur as nat) is None,
            decreases MAX_TASKS - k,
        {
            next = (next + 1) % MAX_TASKS;
            assert(next == (cur + (k + 1)) % (MAX_TASKS as int));
            if self.tasks[next].state == TaskState::Ready {
                found = true;
                break;
            }
            k += 1;
        }
        if !found {
            if self.tasks[0].state == TaskState::Exited {
                return None;
            }
            next = 0;
        }
        let mut tn = self.tasks[next];
        tn.state = TaskState::Running;
        self.tasks.set(next, tn);
        self.current = next;
        load_ctx(&tn, ctx);
        proof {
            assert(stacks_fit(tasks1));
            assert(tasks1[next as int].stack_base + tasks1[next as int].stack_size <= usize::MAX);
        }
        Some((tn.stack_base + tn.stack_size) as u64)
    }

    /// Creates a task in the first free slot after slot 0 (empty, or whose
    /// task has exited) with a fresh 16 KiB stack from `heap`, set to run
    /// `trampoline(entry, api)` with interrupts enabled, and returns its
    /// id; `None` when no slot is free or no stack can be had.
    pub fn spawn(
        &mut self,
        heap: &mut KernelHeap,
        entry: u64,
        api: u64,
        name: &[u8],
        trampoline: u64,
    ) -> (r: Option<u16>)
        requires
            old(self).wf(),
            old(heap).wf(),
        ensures
            final(self).wf(),
            final(heap).wf(),
            final(self)@.current == old(self)@.current,
            final(self)@.active == old(self)@.active,
            final(self)@.ticks == old(self)@.ticks,
            final(self)@.preempt == old(self)@.preempt,
            free_slot_from(old(self)@.tasks, 1) is None ==> r is None && final(self)@ == old(self)@
                && final(heap)@ == old(heap)@,
            free_slot_from(old(self)@.tasks, 1) matches Some(i) ==> {
                &&& final(heap)@.slab == old(heap)@.slab
                &&& final(heap)@.hhdm == old(heap)@.hhdm
                &&& final(heap)@.buddy.base == old(heap)@.buddy.base
                &&& final(heap)@.buddy.total_pages == old(heap)@.buddy.total_pages
                &&& final(heap)@.buddy.max_order == old(heap)@.buddy.max_order
                &&& (crate::buddy::opt_nat(
                    match r {
                        Some(_) => Some(final(self)@.tasks[i as int].stack_base),
                        None => None,
                    },
                ), final(heap)@.buddy.marks) == crate::buddy::alloc_outcome(
                    old(heap)@.buddy,
                    TASK_STACK_ORDER as nat,
                )
                &&& r is None ==> final(self)@ == old(self)@
                &&& r matches Some(id) ==> {
                    &&& id == i
                    &&& spawned_task(
                        final(self)@.tasks[i as int],
                        i,
                        final(self)@.tasks[i as int].stack_base as nat,
                        entry,
                        api,
                        trampoline,
                        name@,
                    )
                    &&& final(self)@.tasks == old(self)@.tasks.update(
                        i as int,
                        final(self)@.tasks[i as int],
                    )
                }
            },
    {
        let mut slot: usize = 1;
        let mut found = false;
        while slot < MAX_TASKS
            invariant_except_break
                1 <= slot <= MAX_TASKS,
                self.tasks@.len() == MAX_TASKS,
                !found,
                free_slot_from(self.tasks@, slot as nat) == free_slot_from(self.tasks@, 1),
            ensures
                self.tasks@.len() == MAX_TASKS,
                found ==> slot < MAX_TASKS && free_slot_from(self.tasks@, 1) == Some(slot as nat),
                !found ==> free_slot_from(self.tasks@, 1) is None,
            decreases MAX_TASKS - slot,
        {
            let st = self.tasks[slot].state;
            if st == TaskState::Empty || st == TaskState::Exited {
                found = true;
                break;
            }
            slot += 1;
        }
        if !found {
            return None;
        }
        let i = slot;
        let stack_base = match heap.alloc_pages(TASK_STACK_ORDER) {
            Some(addr) => addr,
            None => {
                return None;
            },
        };
        proof {
            vstd::arithmetic::power2::lemma2_to64();
            assert(stack_base + TASK_STACK_SIZE <= usize::MAX);
        }
        let copy_len = if name.len() < NAME_MAX {
            name.len()
        } else {
            NAME_MAX
        };
        let mut name_buf = [0u8; 16];
        let mut j: usize = 0;
        while j < copy_len
            invariant
                j <= copy_len,
                copy_len <= NAME_MAX,
                copy_len <= name@.len(),
                copy_len == if name@.len() < NAME_MAX { name@.len() } else { NAME_MAX as nat },
                forall|m: int| 0 <= m < j ==> name_buf@[m] == name@[m],
                forall|m: int| j <= m < 16 ==> name_buf@[m] == 0,
            decreases copy_len - j,
        {
            name_buf[j] = name[j];
            j += 1;
        }
        assert(name_buf@ =~= name_field(name@));
        let mut task = Task::empty();
        task.id = i as u16;
        task.state = TaskState::Ready;
        task.stack_base = stack_base;
        task.stack_size = TASK_STACK_SIZE;
        task.name = name_buf;
        task.rip = trampoline;
        task.rsp = (stack_base + TASK_STACK_SIZE - 8) as u64;
        task.rflags = INITIAL_RFLAGS;
        task.rdi = entry;
        task.rsi = api;
        self.tasks.set(i, task);
        proof {
            assert(self.tasks@ =~= old(self)@.tasks.update(i as int, task));
            assert(single_running(self@)) by {
                assert forall|m: int| 0 <= m < self@.tasks.len() && (#[trigger] self@.tasks[m]).state
                    == TaskState::Running implies m == self@.current by {
                    assert(m != i);
                    assert(self@.tasks[m] == old(self)@.tasks[m]);
                }
            }
            assert(stacks_fit(self.tasks@)) by {
                assert forall|m: int| 0 <= m < self.tasks@.len() implies (#[trigger] self.tasks@[m]).stack_base
                    + self.tasks@[m].stack_size <= usize::MAX by {
                    if m != i {
                        assert(self.tasks@[m] == old(self)@.tasks[m]);
                    }
                }
            }
            assert(task.id == i);
            assert(spawned_task(task, i as nat, stack_base as nat, entry, api, trampoline, name@));
        }
        Some(i as u16)
    }
}

/// A tick while scheduling is inactive or held off changes nothing but the
/// tick count and leaves the interrupted context as it was.
pub proof fn lemma_tick_held_off(s: SchedView, ctx: IsrContext)
    requires
        !s.active || s.preempt > 0,
    ensures
        tick_outcome(s, ctx) == (SchedView { ticks: s.ticks + 1, ..s }, ctx, None::<u64>),
{
}

/// Saving an interrupted context into a task and later loading that task
/// into any context gives back every register of the interrupted one:
/// the instruction and stack pointers, the flags and the fifteen general
/// registers; the segments are the kernel's.
pub proof fn lemma_save_load_roundtrip(t: Task, ctx: IsrContext, later: IsrContext)
    ensures
        ({
            let c = loaded(later, saved(t, ctx));
            &&& c.rip == ctx.rip
            &&& c.rsp == ctx.rsp
            &&& c.rflags == ctx.rflags
            &&& c.rax == ctx.rax
            &&& c.rbx == ctx.rbx
            &&& c.rcx == ctx.rcx
            &&& c.rdx == ctx.rdx
            &&& c.rsi == ctx.rsi
            &&& c.rdi == ctx.rdi
            &&& c.rbp == ctx.rbp
            &&& c.r8 == ctx.r8
            &&& c.r9 == ctx.r9
            &&& c.r10 == ctx.r10
            &&& c.r11 == ctx.r11
            &&& c.r12 == ctx.r12
            &&& c.r13 == ctx.r13
            &&& c.r14 == ctx.r14
            &&& c.r15 == ctx.r15
            &&& c.cs == KERNEL_CS
            &&& c.ss == KERNEL_DS
        }),
{
}

} // verus!
