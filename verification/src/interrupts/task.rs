use vstd::prelude::*;
use crate::memory::pmm::{after_free, FrameAllocation, StructPmm};

verus! {

pub const STACK_SIZE: u64 = 64 * 1024;

/// Number of task slots.
pub const MAX_TASKS: usize = 125;

/// Size of one stack frame page.
pub const FRAME_SIZE: u64 = 4096;

/// Bytes of a saved register set (twenty 64-bit registers).
pub const CPU_STATE_SIZE: u64 = 160;

#[derive(Copy, Clone, Debug)]
pub struct Task {
    pub kernel_stack: u64,
    pub stack: u64,
    pub cpu_state_ptr: u64,
    pub state: TaskState,
    pub pml4_phys: u64,
}

#[derive(Copy, Clone, Debug, PartialEq, Eq, Structural)]
pub enum TaskState {
    Null,
    Ready,
    Zombie,
}

/// The registers saved on a task's kernel stack, in push order.
#[derive(Debug, Copy, Clone)]
pub struct CPUState {
    pub r15: u64,
    pub r14: u64,
    pub r13: u64,
    pub r12: u64,
    pub r11: u64,
    pub r10: u64,
    pub r9: u64,
    pub r8: u64,
    pub rdi: u64,
    pub rsi: u64,
    pub rdx: u64,
    pub rcx: u64,
    pub rbx: u64,
    pub rax: u64,
    pub rbp: u64,
    pub rip: u64,
    pub cs: u64,
    pub rflags: u64,
    pub rsp: u64,
    pub ss: u64,
}

/// An empty slot.
pub open spec fn null_task() -> Task {
    Task { stack: 0, kernel_stack: 0, cpu_state_ptr: 0, state: TaskState::Null, pml4_phys: 0 }
}

pub fn new_null_task() -> (t: Task)
    ensures
        t == null_task(),
{
    Task { stack: 0, kernel_stack: 0, cpu_state_ptr: 0, state: TaskState::Null, pml4_phys: 0 }
}

/// The `i`-th of up to four start arguments, or 0.
pub open spec fn start_arg(args: Option<Seq<u64>>, i: int) -> u64 {
    match args {
        Some(a) => if i < a.len() && i < 4 {
            a[i]
        } else {
            0
        },
        None => 0,
    }
}

/// The register set a task starts from: the first four arguments in rbx, rcx, rdx, rsi,
/// interrupts enabled, and the given code and stack selectors.
pub open spec fn start_state(
    entry_point: u64,
    args: Option<Seq<u64>>,
    rsp: u64,
    cs: u64,
    ss: u64,
) -> CPUState {
    CPUState {
        r15: 0,
        r14: 0,
        r13: 0,
        r12: 0,
        r11: 0,
        r10: 0,
        r9: 0,
        r8: 0,
        rdi: 0,
        rsi: start_arg(args, 3),
        rdx: start_arg(args, 2),
        rcx: start_arg(args, 1),
        rbx: start_arg(args, 0),
        rax: 0,
        rbp: 0,
        rip: entry_point,
        cs,
        rflags: 0x202,
        rsp,
        ss,
    }
}

pub open spec fn opt_view(args: Option<&[u64]>) -> Option<Seq<u64>> {
    match args {
        Some(a) => Some(a@),
        None => None,
    }
}

fn get_arg(args: Option<&[u64]>, i: usize) -> (v: u64)
    requires
        i < 4,
    ensures
        v == start_arg(opt_view(args), i as int),
{
    match args {
        Some(a) => if i < a.len() {
            a[i]
        } else {
            0
        },
        None => 0,
    }
}

fn start_registers(entry_point: u64, args: Option<&[u64]>, rsp: u64, cs: u64, ss: u64) -> (st:
    CPUState)
    ensures
        st == start_state(entry_point, opt_view(args), rsp, cs, ss),
{
    CPUState {
        r15: 0,
        r14: 0,
        r13: 0,
        r12: 0,
        r11: 0,
        r10: 0,
        r9: 0,
        r8: 0,
        rdi: 0,
        rsi: get_arg(args, 3),
        rdx: get_arg(args, 2),
        rcx: get_arg(args, 1),
        rbx: get_arg(args, 0),
        rax: 0,
        rbp: 0,
        rip: entry_point,
        cs,
        rflags: 0x202,
        rsp,
        ss,
    }
}

impl Task {
    /// Makes a ready kernel task on the stack page at `stack`, running in the address space
    /// `pml4_phys`; returns the register set to store at `cpu_state_ptr`, just below the top of
    /// that page.
    pub fn init(&mut self, entry_point: u64, args: Option<&[u64]>, pml4_phys: u64, stack: u64) -> (st:
        CPUState)
        requires
            stack + FRAME_SIZE <= u64::MAX,
        ensures
            final(self).state == TaskState::Ready,
            final(self).pml4_phys == pml4_phys,
            final(self).stack == stack,
            final(self).kernel_stack == stack + FRAME_SIZE,
            final(self).cpu_state_ptr == stack + FRAME_SIZE - CPU_STATE_SIZE,
            st == start_state(entry_point, opt_view(args), (stack + FRAME_SIZE) as u64, 0x28, 0x10),
    {
        self.state = TaskState::Ready;
        self.pml4_phys = pml4_phys;
        self.stack = stack;
        let stack_top = stack + FRAME_SIZE;
        self.kernel_stack = stack_top;
        self.cpu_state_ptr = stack_top - CPU_STATE_SIZE;
        start_registers(entry_point, args, stack_top, 0x28, 0x10)
    }

    /// Makes a ready user task: the kernel stack is the page at `kernel_frame`, the user stack
    /// the page at `user_frame`; returns the register set to store at `cpu_state_ptr`.
    pub fn init_user(
        &mut self,
        entry_point: u64,
        pml4_phys: u64,
        args: Option<&[u64]>,
        kernel_frame: u64,
        user_frame: u64,
    ) -> (st: CPUState)
        requires
            kernel_frame + FRAME_SIZE <= u64::MAX,
            user_frame + FRAME_SIZE <= u64::MAX,
        ensures
            final(self).state == TaskState::Ready,
            final(self).pml4_phys == pml4_phys,
            final(self).stack == user_frame,
            final(self).kernel_stack == kernel_frame + FRAME_SIZE,
            final(self).cpu_state_ptr == kernel_frame + FRAME_SIZE - CPU_STATE_SIZE,
            st == start_state(
                entry_point,
                opt_view(args),
                (user_frame + FRAME_SIZE) as u64,
                0x33,
                0x23,
            ),
    {
        self.state = TaskState::Ready;
        self.pml4_phys = pml4_phys;
        self.kernel_stack = kernel_frame + FRAME_SIZE;
        self.stack = user_frame;
        let u_stack_top = user_frame + FRAME_SIZE;
        self.cpu_state_ptr = self.kernel_stack - CPU_STATE_SIZE;
        start_registers(entry_point, args, u_stack_top, 0x33, 0x23)
    }
}

/// Number of occupied slots among the first `n` of `tasks`.
pub open spec fn live_count(tasks: Seq<Task>, n: int) -> int
    decreases n,
{
    if n <= 0 {
        0
    } else {
        live_count(tasks, n - 1) + if tasks[n - 1].state != TaskState::Null {
            1int
        } else {
            0int
        }
    }
}

proof fn lemma_live_count_bounds(tasks: Seq<Task>, n: int)
    requires
        0 <= n <= tasks.len(),
    ensures
        0 <= live_count(tasks, n) <= n,
        live_count(tasks, n) < n ==> exists|j: int|
            0 <= j < n && (#[trigger] tasks[j]).state == TaskState::Null,
    decreases n,
{
    if n > 0 {
        lemma_live_count_bounds(tasks, n - 1);
    }
}

proof fn lemma_live_count_update(tasks: Seq<Task>, n: int, k: int, t: Task)
    requires
        0 <= k < n <= tasks.len(),
    ensures
        live_count(tasks.update(k, t), n) == live_count(tasks, n) - (if tasks[k].state
            != TaskState::Null {
            1int
        } else {
            0int
        }) + (if t.state != TaskState::Null {
            1int
        } else {
            0int
        }),
    decreases n,
{
    if n - 1 > k {
        lemma_live_count_update(tasks, n - 1, k, t);
    } else {
        lemma_live_count_prefix_same(tasks, tasks.update(k, t), k);
    }
}

proof fn lemma_live_count_prefix_same(a: Seq<Task>, b: Seq<Task>, m: int)
    requires
        0 <= m <= a.len(),
        m <= b.len(),
        forall|j: int| 0 <= j < m ==> a[j] == b[j],
    ensures
        live_count(a, m) == live_count(b, m),
    decreases m,
{
    if m > 0 {
        lemma_live_count_prefix_same(a, b, m - 1);
    }
}

/// Position of slot `j` in the round-robin scan that starts just after slot `c`.
pub open spec fn scan_pos(c: int, j: int) -> int {
    if j > c {
        j - c - 1
    } else {
        j + MAX_TASKS - c - 1
    }
}

/// The slot the round robin picks after `c`: the first ready slot in scan order, or -1.
pub open spec fn is_next_ready(tasks: Seq<Task>, c: int, r: int) -> bool {
    if exists|j: int| 0 <= j < MAX_TASKS && (#[trigger] tasks[j]).state == TaskState::Ready {
        &&& 0 <= r < MAX_TASKS
        &&& tasks[r].state == TaskState::Ready
        &&& forall|j: int|
            0 <= j < MAX_TASKS && (#[trigger] tasks[j]).state == TaskState::Ready ==> scan_pos(
                c,
                r,
            ) <= scan_pos(c, j)
    } else {
        r == -1
    }
}

/// The task table and the round-robin cursor.
pub struct TaskManager {
    tasks: [Task; MAX_TASKS],
    task_count: usize,
    current_task: isize,
}

impl TaskManager {
    pub closed spec fn wf(&self) -> bool {
        &&& -1 <= self.current_task < MAX_TASKS
        &&& self.task_count == live_count(self.spec_tasks(), MAX_TASKS as int)
        &&& forall|j: int|
            0 <= j < MAX_TASKS && (#[trigger] self.spec_tasks()[j]).state != TaskState::Null
                ==> self.spec_tasks()[j].kernel_stack >= FRAME_SIZE
    }

    /// The task slots.
    pub closed spec fn spec_tasks(&self) -> Seq<Task> {
        self.tasks@
    }

    pub closed spec fn spec_current(&self) -> int {
        self.current_task as int
    }

    pub closed spec fn spec_count(&self) -> int {
        self.task_count as int
    }

    /// What a well-formed table keeps: `MAX_TASKS` slots, a cursor that is -1 or names a
    /// slot, a count of the slots in use, and a kernel stack of at least a frame for every
    /// slot in use.
    pub proof fn lemma_wf(&self)
        requires
            self.wf(),
        ensures
            self.spec_tasks().len() == MAX_TASKS,
            -1 <= self.spec_current() < MAX_TASKS,
            self.spec_count() == live_count(self.spec_tasks(), MAX_TASKS as int),
            forall|j: int|
                0 <= j < MAX_TASKS && (#[trigger] self.spec_tasks()[j]).state != TaskState::Null
                    ==> self.spec_tasks()[j].kernel_stack >= FRAME_SIZE,
    {
    }

    /// No tasks, and no task running yet.
    pub fn new() -> (tm: TaskManager)
        ensures
            tm.wf(),
            tm.spec_current() == -1,
            tm.spec_count() == 0,
            forall|j: int| 0 <= j < MAX_TASKS ==> #[trigger] tm.spec_tasks()[j] == null_task(),
    {
        let tm = TaskManager { tasks: [new_null_task(); MAX_TASKS], task_count: 0, current_task: -1 };
        proof {
            assert forall|m: int| 0 <= m <= MAX_TASKS implies live_count(tm.spec_tasks(), m) == 0 by {
                lemma_live_count_zero(tm.spec_tasks(), m);
            }
        }
        tm
    }

    /// The first free slot.
    fn get_free_slot(&self) -> (slot: usize)
        requires
            self.wf(),
            self.task_count < MAX_TASKS,
        ensures
            slot < MAX_TASKS,
            self.spec_tasks()[slot as int].state == TaskState::Null,
            forall|j: int| 0 <= j < slot ==> (#[trigger] self.spec_tasks()[j]).state != TaskState::Null,
    {
        proof {
            lemma_live_count_bounds(self.spec_tasks(), MAX_TASKS as int);
        }
        let mut i: usize = 0;
        while i < MAX_TASKS
            invariant
                i <= MAX_TASKS,
                forall|j: int| 0 <= j < i ==> (#[trigger] self.spec_tasks()[j]).state != TaskState::Null,
                exists|j: int| 0 <= j < MAX_TASKS && (#[trigger] self.spec_tasks()[j]).state == TaskState::Null,
            decreases MAX_TASKS - i,
        {
            if self.tasks[i].state == TaskState::Null {
                return i;
            }
            i += 1;
        }
        proof {
            let j = choose|j: int| 0 <= j < MAX_TASKS && (#[trigger] self.spec_tasks()[j]).state == TaskState::Null;
            assert(self.spec_tasks()[j].state != TaskState::Null);
        }
        0
    }

    /// Puts a ready kernel task into the first free slot unless every slot is taken; returns
    /// the slot and the register set to store at the task's `cpu_state_ptr`.
    pub fn add_task(&mut self, entry_point: u64, args: Option<&[u64]>, pml4_phys: u64, stack: u64) -> (r:
        Option<(usize, CPUState)>)
        requires
            old(self).wf(),
            stack + FRAME_SIZE <= u64::MAX,
        ensures
            final(self).wf(),
            final(self).spec_count() == live_count(final(self).spec_tasks(), MAX_TASKS as int),
            final(self).spec_current() == old(self).spec_current(),
            old(self).spec_count() >= MAX_TASKS ==> r is None && *final(self) == *old(self),
            old(self).spec_count() < MAX_TASKS ==> (r matches Some((slot, st)) && {
                &&& slot < MAX_TASKS
                &&& old(self).spec_tasks()[slot as int].state == TaskState::Null
                &&& forall|j: int|
                    0 <= j < slot ==> (#[trigger] old(self).spec_tasks()[j]).state != TaskState::Null
                &&& final(self).spec_count() == old(self).spec_count() + 1
                &&& final(self).spec_tasks() == old(self).spec_tasks().update(
                    slot as int,
                    Task {
                        state: TaskState::Ready,
                        pml4_phys,
                        stack,
                        kernel_stack: (stack + FRAME_SIZE) as u64,
                        cpu_state_ptr: (stack + FRAME_SIZE - CPU_STATE_SIZE) as u64,
                    },
                )
                &&& st == start_state(
                    entry_point,
                    opt_view(args),
                    (stack + FRAME_SIZE) as u64,
                    0x28,
                    0x10,
                )
            }),
    {
        if self.task_count < MAX_TASKS {
            let free_slot = self.get_free_slot();
            let mut t = self.tasks[free_slot];
            let st = t.init(entry_point, args, pml4_phys, stack);
            let ghost old_tasks = self.spec_tasks();
            self.tasks[free_slot] = t;
            proof {
                lemma_live_count_update(old_tasks, MAX_TASKS as int, free_slot as int, t);
                lemma_live_count_bounds(old_tasks, MAX_TASKS as int);
                assert(self.spec_tasks() =~= old_tasks.update(free_slot as int, t));
            }
            self.task_count += 1;
            Some((free_slot, st))
        } else {
            None
        }
    }

    /// Puts a ready user task into the first free slot unless every slot is taken; returns
    /// the slot and the register set to store at the task's `cpu_state_ptr`.
    pub fn add_user_task(
        &mut self,
        entry_point: u64,
        pml4_phys: u64,
        args: Option<&[u64]>,
        kernel_frame: u64,
        user_frame: u64,
    ) -> (r: Option<(usize, CPUState)>)
        requires
            old(self).wf(),
            kernel_frame + FRAME_SIZE <= u64::MAX,
            user_frame + FRAME_SIZE <= u64::MAX,
        ensures
            final(self).wf(),
            final(self).spec_current() == old(self).spec_current(),
            old(self).spec_count() >= MAX_TASKS ==> r is None && *final(self) == *old(self),
            old(self).spec_count() < MAX_TASKS ==> (r matches Some((slot, st)) && {
                &&& slot < MAX_TASKS
                &&& old(self).spec_tasks()[slot as int].state == TaskState::Null
                &&& forall|j: int|
                    0 <= j < slot ==> (#[trigger] old(self).spec_tasks()[j]).state != TaskState::Null
                &&& final(self).spec_count() == old(self).spec_count() + 1
                &&& final(self).spec_tasks() == old(self).spec_tasks().update(
                    slot as int,
                    Task {
                        state: TaskState::Ready,
                        pml4_phys,
                        stack: user_frame,
                        kernel_stack: (kernel_frame + FRAME_SIZE) as u64,
                        cpu_state_ptr: (kernel_frame + FRAME_SIZE - CPU_STATE_SIZE) as u64,
                    },
                )
                &&& st == start_state(
                    entry_point,
                    opt_view(args),
                    (user_frame + FRAME_SIZE) as u64,
                    0x33,
                    0x23,
                )
            }),
    {
        if self.task_count < MAX_TASKS {
            let free_slot = self.get_free_slot();
            let mut t = self.tasks[free_slot];
            let st = t.init_user(entry_point, pml4_phys, args, kernel_frame, user_frame);
            let ghost old_tasks = self.spec_tasks();
            self.tasks[free_slot] = t;
            proof {
                lemma_live_count_update(old_tasks, MAX_TASKS as int, free_slot as int, t);
                lemma_live_count_bounds(old_tasks, MAX_TASKS as int);
                assert(self.spec_tasks() =~= old_tasks.update(free_slot as int, t));
            }
            self.task_count += 1;
            Some((free_slot, st))
        } else {
            None
        }
    }

    /// Starts the idle task whose code is at `idle_entry` on the stack page at `stack`.
    pub fn init(&mut self, idle_entry: u64, pml4_phys: u64, stack: u64) -> (r: Option<
        (usize, CPUState),
    >)
        requires
            old(self).wf(),
            stack + FRAME_SIZE <= u64::MAX,
        ensures
            final(self).wf(),
            old(self).spec_count() < MAX_TASKS ==> r is Some && final(self).spec_count()
                == old(self).spec_count() + 1,
            old(self).spec_count() >= MAX_TASKS ==> r is None && *final(self) == *old(self),
    {
        self.add_task(idle_entry, None, pml4_phys, stack)
    }

    /// The next ready slot after the current one in round-robin order, or -1 when none is
    /// ready.
    pub fn get_next_task(&self) -> (r: isize)
        requires
            self.wf(),
            self.spec_current() >= 0 || exists|j: int|
                0 <= j < MAX_TASKS && (#[trigger] self.spec_tasks()[j]).state == TaskState::Ready,
        ensures
            is_next_ready(self.spec_tasks(), self.spec_current(), r as int),
    {
        let ghost c = self.current_task as int;
        let mut i: isize = self.current_task + 1;
        let limit = MAX_TASKS as isize;
        let start_i = i;
        let ghost mut steps: int = 0;
        loop
            invariant_except_break
                steps == MAX_TASKS ==> c == -1,
            invariant
                self.wf(),
                c == self.current_task,
                start_i == c + 1,
                limit == MAX_TASKS,
                0 <= steps <= MAX_TASKS,
                c + 1 + steps <= MAX_TASKS ==> i == c + 1 + steps,
                c + 1 + steps > MAX_TASKS ==> i == c + 1 + steps - MAX_TASKS,
                forall|j: int|
                    0 <= j < MAX_TASKS && scan_pos(c, j) < steps ==> (#[trigger] self.spec_tasks()[j]).state
                        != TaskState::Ready,
                c >= 0 || exists|j: int|
                    0 <= j < MAX_TASKS && (#[trigger] self.spec_tasks()[j]).state == TaskState::Ready,
            ensures
                forall|j: int|
                    0 <= j < MAX_TASKS ==> (#[trigger] self.spec_tasks()[j]).state != TaskState::Ready,
            decreases MAX_TASKS - steps,
        {
            proof {
                if steps == MAX_TASKS {
                    let j = choose|j: int|
                        0 <= j < MAX_TASKS && (#[trigger] self.spec_tasks()[j]).state == TaskState::Ready;
                    assert(scan_pos(c, j) < steps);
                }
            }
            if i >= limit {
                i = 0;
            }
            proof {
                assert(scan_pos(c, i as int) == steps);
            }
            if self.tasks[i as usize].state == TaskState::Ready {
                proof {
                    assert forall|j: int|
                        0 <= j < MAX_TASKS && (#[trigger] self.spec_tasks()[j]).state == TaskState::Ready
                        implies scan_pos(c, i as int) <= scan_pos(c, j) by {}
                }
                return i;
            }
            i += 1;
            proof {
                steps = steps + 1;
            }
            if i == start_i {
                proof {
                    assert forall|j: int| 0 <= j < MAX_TASKS implies (#[trigger] self.spec_tasks()[j]).state
                        != TaskState::Ready by {
                        assert(scan_pos(c, j) < MAX_TASKS);
                    }
                }
                break;
            }
        }
        if self.tasks[0].state == TaskState::Ready {
            0
        } else {
            -1
        }
    }

    /// One scheduler tick. The running task's saved register pointer becomes `cpu_state`; if
    /// that task has exited (zombie) its slot is emptied and its stack pages are freed in
    /// `pmm` (the runs freed are returned so that their pages can be cleared). Then the next
    /// ready task in round-robin order becomes current and its register pointer, kernel stack
    /// top and address space are returned; with no ready task, `(cpu_state, 0, 0)`.
    pub fn schedule(&mut self, cpu_state: u64, pmm: &mut StructPmm) -> (r: (
        u64,
        u64,
        u64,
        Vec<FrameAllocation>,
    ))
        requires
            old(self).wf(),
            old(pmm).wf(),
            old(self).spec_current() >= 0 || exists|j: int|
                0 <= j < MAX_TASKS && (#[trigger] old(self).spec_tasks()[j]).state == TaskState::Ready,
        ensures
            final(self).wf(),
            final(pmm).wf(),
            final(pmm).spec_mmap() == old(pmm).spec_mmap(),
            final(pmm).spec_total_ram() == old(pmm).spec_total_ram(),
            ({
                let c = old(self).spec_current();
                let t1 = if c >= 0 {
                    old(self).spec_tasks().update(
                        c,
                        Task { cpu_state_ptr: cpu_state, ..old(self).spec_tasks()[c] },
                    )
                } else {
                    old(self).spec_tasks()
                };
                let zombie = c >= 0 && old(self).spec_tasks()[c].state == TaskState::Zombie;
                let t2 = if zombie {
                    t1.update(c, null_task())
                } else {
                    t1
                };
                let k_frame = (old(self).spec_tasks()[c].kernel_stack - FRAME_SIZE) as u64;
                let stack = old(self).spec_tasks()[c].stack;
                &&& final(self).spec_tasks() == t2
                &&& final(self).spec_count() == if zombie {
                    old(self).spec_count() - 1
                } else {
                    old(self).spec_count()
                }
                &&& final(pmm)@ == if !zombie {
                    old(pmm)@
                } else if k_frame != stack {
                    after_free(after_free(old(pmm)@, k_frame), stack)
                } else {
                    after_free(old(pmm)@, stack)
                }
                &&& is_next_ready(t2, c, final(self).spec_current())
                &&& final(self).spec_current() < 0 ==> r.0 == cpu_state && r.1 == 0 && r.2 == 0
                &&& final(self).spec_current() >= 0 ==> {
                    &&& r.0 == t2[final(self).spec_current()].cpu_state_ptr
                    &&& r.1 == t2[final(self).spec_current()].kernel_stack
                    &&& r.2 == t2[final(self).spec_current()].pml4_phys
                }
            }),
    {
        let mut freed: Vec<FrameAllocation> = Vec::new();
        if self.current_task >= 0 {
            let cur = self.current_task as usize;
            let ghost t0 = self.tasks@;
            let mut t = self.tasks[cur];
            t.cpu_state_ptr = cpu_state;
            self.tasks[cur] = t;
            proof {
                lemma_live_count_update(t0, MAX_TASKS as int, cur as int, t);
            }
            if self.tasks[cur].state == TaskState::Zombie {
                let task = self.tasks[cur];
                let k_frame = task.kernel_stack - FRAME_SIZE;
                if k_frame != task.stack {
                    if let Some(a) = pmm.free_frame(k_frame) {
                        freed.push(a);
                    }
                }
                if let Some(a) = pmm.free_frame(task.stack) {
                    freed.push(a);
                }
                let ghost t1 = self.tasks@;
                self.tasks[cur] = new_null_task();
                proof {
                    lemma_live_count_update(t1, MAX_TASKS as int, cur as int, null_task());
                    lemma_live_count_bounds(t1, MAX_TASKS as int);
                    lemma_live_count_bounds(self.tasks@, MAX_TASKS as int);
                }
                self.task_count -= 1;
            }
        }
        self.current_task = self.get_next_task();
        if self.current_task < 0 {
            return (cpu_state, 0, 0, freed);
        }
        let next = self.tasks[self.current_task as usize];
        (next.cpu_state_ptr, next.kernel_stack, next.pml4_phys, freed)
    }
}

proof fn lemma_live_count_zero(tasks: Seq<Task>, m: int)
    requires
        0 <= m <= tasks.len(),
        forall|j: int| 0 <= j < tasks.len() ==> (#[trigger] tasks[j]).state == TaskState::Null,
    ensures
        live_count(tasks, m) == 0,
    decreases m,
{
    if m > 0 {
        lemma_live_count_zero(tasks, m - 1);
    }
}

} // verus!
