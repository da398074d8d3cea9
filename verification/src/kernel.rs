//! The machine state the syscall layer mediates: the process table, the
//! kernel's own address space, the frame accountant and the monotonic clock.
//!
//! The pieces the model does not own are exposed as seams: the timer device
//! drives `advance_clock`, the run-queue policy picks the argument of
//! `schedule`, and the trap dispatcher calls `record_syscall` before it runs
//! a handler.

use vstd::pervasive::VecAdditionalExecFns;
use vstd::prelude::*;

use crate::config::{MAX_SYSCALL_NUM, MAX_TASKS, PAGE_SIZE, PPN_LIMIT, USER_STACK_PAGES};
use crate::mem::{FrameAllocator, MemorySet};
use crate::task::{
    in_kstack, kstack_bottom_vpn, kstack_top_vpn, lemma_kstack_bounds, lemma_kstack_disjoint,
    mmap_applied, munmap_applied, seg_max_end, user_layout, ProgramImage, TaskControlBlock,
    TaskInfo, TaskStatus,
};

verus! {

proof fn lemma_seq_remove_insert<T>(s: Seq<T>, i: int, x: T)
    requires
        0 <= i < s.len(),
    ensures
        s.remove(i).insert(i, x) =~= s.update(i, x),
{
    s.remove_ensures(i);
    s.remove(i).insert_ensures(i, x);
    assert forall|j: int| 0 <= j < s.len() implies s.remove(i).insert(i, x)[j] == s.update(i, x)[j]
        by {
        if j > i {
            assert(s.remove(i).insert(i, x)[j] == s.remove(i)[j - 1]);
        }
    }
}

/// The kernel state one machine holds: the process table, which record runs,
/// the kernel's own address space, the frame accountant, the monotonic clock
/// and the last recorded exit code.
pub struct Kernel {
    pub tasks: Vec<TaskControlBlock>,
    pub current: usize,
    pub kernel_space: MemorySet,
    pub alloc: FrameAllocator,
    pub clock_us: usize,
    pub last_exit_code: Option<i32>,
}

impl Kernel {
    /// Record `i` is internally consistent and its start stamp never lies in
    /// the future.
    pub open spec fn task_ok(self, i: int) -> bool {
        &&& self.tasks@[i].wf()
        &&& (!self.tasks@[i].first_scheduled ==> self.tasks@[i].start_time <= self.clock_us)
    }

    /// The kernel invariant: consistent accountant and spaces, consistent
    /// records, at most the current record running, and the kernel space
    /// holding nothing but the kernel stacks of existing slots.
    pub open spec fn wf(self) -> bool {
        &&& self.alloc.wf()
        &&& self.kernel_space.wf()
        &&& self.tasks@.len() <= MAX_TASKS
        &&& forall|i: int| 0 <= i < self.tasks@.len() ==> #[trigger] self.task_ok(i)
        &&& forall|i: int|
            0 <= i < self.tasks@.len() && (#[trigger] self.tasks@[i]).task_status is Running
                ==> i == self.current
        &&& forall|vpn: int|
            #[trigger] self.kernel_space.is_mapped(vpn) ==> exists|i: int|
                0 <= i < self.tasks@.len() && in_kstack(i, vpn)
    }

    /// The record of the process now executing.
    pub open spec fn cur(self) -> TaskControlBlock {
        self.tasks@[self.current as int]
    }

    /// A process is executing, and it is the current record. Every syscall
    /// requires this: only the running process can trap into the kernel.
    pub open spec fn current_running(self) -> bool {
        &&& self.current < self.tasks@.len()
        &&& self.cur().task_status is Running
    }

    /// No record is executing; the scheduler is free to pick any ready one.
    pub open spec fn no_running(self) -> bool {
        forall|i: int|
            0 <= i < self.tasks@.len() ==> !((#[trigger] self.tasks@[i]).task_status is Running)
    }

    /// A fresh machine: no processes, an empty kernel space rooted at
    /// `kernel_satp`, `total_frames` grantable frames, the clock at zero.
    pub fn new(total_frames: usize, kernel_satp: usize) -> (k: Kernel)
        requires
            total_frames <= PPN_LIMIT,
        ensures
            k.wf(),
            k.tasks@.len() == 0,
            k.current == 0,
            k.clock_us == 0,
            k.alloc.next_ppn == 0,
            k.alloc.free == total_frames,
            k.kernel_space.satp == kernel_satp,
            k.last_exit_code is None,
    {
        Kernel {
            tasks: Vec::new(),
            current: 0,
            kernel_space: MemorySet::new_bare(kernel_satp),
            alloc: FrameAllocator::new(total_frames),
            clock_us: 0,
            last_exit_code: None,
        }
    }

    /// The timer device moved the monotonic clock forward by `delta`
    /// microseconds.
    pub fn advance_clock(&mut self, delta: usize)
        requires
            old(self).wf(),
            old(self).clock_us + delta <= usize::MAX,
        ensures
            final(self).wf(),
            final(self).clock_us == old(self).clock_us + delta,
            final(self).tasks@ == old(self).tasks@,
            final(self).current == old(self).current,
            final(self).kernel_space == old(self).kernel_space,
            final(self).alloc == old(self).alloc,
            final(self).last_exit_code == old(self).last_exit_code,
    {
        self.clock_us = self.clock_us + delta;
        proof {
            assert forall|i: int| 0 <= i < final(self).tasks@.len() implies #[trigger] final(self).task_ok(i) by {
                assert(old(self).task_ok(i));
            }
        }
    }

    /// Creates a process in the next free slot from a program image and
    /// returns the slot. Fatal resource exhaustion is ruled out by the
    /// caller, as kernel initialization would abort on it.
    pub fn spawn(&mut self, image: &ProgramImage) -> (id: usize)
        requires
            old(self).wf(),
            old(self).tasks@.len() < MAX_TASKS,
            image.wf(),
            image.frames_needed() + crate::config::KERNEL_STACK_PAGES <= old(self).alloc.free,
        ensures
            final(self).wf(),
            id == old(self).tasks@.len(),
            final(self).tasks@.len() == id + 1,
            forall|i: int| 0 <= i < id ==> final(self).tasks@[i] == old(self).tasks@[i],
            final(self).tasks@[id as int].task_status is Ready,
            final(self).tasks@[id as int].first_scheduled,
            final(self).tasks@[id as int].start_time == usize::MAX,
            forall|j: int|
                0 <= j < MAX_SYSCALL_NUM ==> final(self).tasks@[id as int].syscall_times@[j] == 0,
            user_layout(final(self).tasks@[id as int].memory_set, *image),
            final(self).tasks@[id as int].memory_set.wf(),
            final(self).tasks@[id as int].base_size == (seg_max_end(image.segments@) + 1
                + USER_STACK_PAGES) * PAGE_SIZE,
            final(self).current == old(self).current,
            final(self).clock_us == old(self).clock_us,
            final(self).last_exit_code == old(self).last_exit_code,
            final(self).alloc.free == old(self).alloc.free - image.frames_needed()
                - crate::config::KERNEL_STACK_PAGES,
    {
        let id = self.tasks.len();
        proof {
            lemma_kstack_bounds(id as int);
            if self.kernel_space.range_overlaps(
                kstack_bottom_vpn(id as int),
                kstack_top_vpn(id as int),
            ) {
                let v = choose|v: int|
                    kstack_bottom_vpn(id as int) <= v < kstack_top_vpn(id as int)
                        && self.kernel_space.is_mapped(v);
                let i = choose|i: int| 0 <= i < self.tasks@.len() && in_kstack(i, v);
                lemma_kstack_disjoint(i, id as int);
                assert(false);
            }
        }
        let task = TaskControlBlock::new(image, id, &mut self.kernel_space, &mut self.alloc);
        self.tasks.push(task);
        proof {
            assert forall|i: int| 0 <= i < final(self).tasks@.len() implies #[trigger] final(self).task_ok(i) by {
                if i < id {
                    assert(old(self).task_ok(i));
                }
            }
            assert forall|vpn: int| #[trigger]
                final(self).kernel_space.is_mapped(vpn) implies exists|i: int|
                0 <= i < final(self).tasks@.len() && in_kstack(i, vpn) by {
                if in_kstack(id as int, vpn) {
                    assert(0 <= id < final(self).tasks@.len() && in_kstack(id as int, vpn));
                } else {
                    assert(old(self).kernel_space.is_mapped(vpn));
                    let i = choose|i: int| 0 <= i < old(self).tasks@.len() && in_kstack(i, vpn);
                    assert(0 <= i < final(self).tasks@.len() && in_kstack(i, vpn));
                }
            }
        }
        id
    }

    /// The scheduler picked record `next`: it becomes the running process,
    /// and its first scheduling stamps its start time.
    pub fn schedule(&mut self, next: usize)
        requires
            old(self).wf(),
            old(self).no_running(),
            next < old(self).tasks@.len(),
            old(self).tasks@[next as int].task_status is Ready,
        ensures
            final(self).wf(),
            final(self).current_running(),
            final(self).current == next,
            final(self).tasks@.len() == old(self).tasks@.len(),
            forall|i: int|
                0 <= i < old(self).tasks@.len() && i != next ==> final(self).tasks@[i] == old(self).tasks@[i],
            final(self).cur().task_status is Running,
            !final(self).cur().first_scheduled,
            final(self).cur().start_time == if old(self).tasks@[next as int].first_scheduled {
                old(self).clock_us as int
            } else {
                old(self).tasks@[next as int].start_time as int
            },
            final(self).cur().memory_set == old(self).tasks@[next as int].memory_set,
            final(self).cur().syscall_times == old(self).tasks@[next as int].syscall_times,
            final(self).clock_us == old(self).clock_us,
            final(self).kernel_space == old(self).kernel_space,
            final(self).alloc == old(self).alloc,
            final(self).last_exit_code == old(self).last_exit_code,
    {
        proof {
            assert(old(self).task_ok(next as int));
        }
        let mut task = self.tasks.remove(next);
        task.task_status = TaskStatus::Running;
        task.update_when_scheduled(self.clock_us);
        self.tasks.insert(next, task);
        self.current = next;
        proof {
            lemma_seq_remove_insert(old(self).tasks@, next as int, final(self).tasks@[next as int]);
            assert forall|i: int| 0 <= i < final(self).tasks@.len() implies #[trigger] final(self).task_ok(i) by {
                if i != next {
                    assert(old(self).task_ok(i));
                }
            }
        }
    }

    /// The trap dispatcher noted syscall `syscall_id` issued by the running
    /// process, before its handler runs.
    pub fn record_syscall(&mut self, syscall_id: usize)
        requires
            old(self).wf(),
            old(self).current_running(),
            syscall_id < MAX_SYSCALL_NUM,
            old(self).cur().syscall_times@[syscall_id as int] < u32::MAX,
        ensures
            final(self).wf(),
            final(self).current_running(),
            final(self).tasks@.len() == old(self).tasks@.len(),
            final(self).current == old(self).current,
            forall|i: int|
                0 <= i < old(self).tasks@.len() && i != old(self).current ==> final(self).tasks@[i] == old(self).tasks@[i],
            final(self).cur().syscall_times@ == old(self).cur().syscall_times@.update(
                syscall_id as int,
                (old(self).cur().syscall_times@[syscall_id as int] + 1) as u32,
            ),
            final(self).cur() == (TaskControlBlock {
                syscall_times: final(self).cur().syscall_times,
                ..old(self).cur()
            }),
            final(self).clock_us == old(self).clock_us,
            final(self).kernel_space == old(self).kernel_space,
            final(self).alloc == old(self).alloc,
            final(self).last_exit_code == old(self).last_exit_code,
    {
        proof {
            assert(old(self).task_ok(old(self).current as int));
        }
        let c = self.current;
        let mut task = self.tasks.remove(c);
        let count = task.syscall_times[syscall_id];
        task.syscall_times.set(syscall_id, count + 1);
        self.tasks.insert(c, task);
        proof {
            lemma_seq_remove_insert(old(self).tasks@, c as int, final(self).tasks@[c as int]);
            assert forall|i: int| 0 <= i < final(self).tasks@.len() implies #[trigger] final(self).task_ok(i) by {
                if i != c {
                    assert(old(self).task_ok(i));
                }
            }
        }
    }

    /// The running process gave up the core: it becomes ready again and the
    /// scheduler takes over.
    pub fn suspend_current(&mut self)
        requires
            old(self).wf(),
            old(self).current_running(),
        ensures
            final(self).wf(),
            final(self).no_running(),
            final(self).tasks@.len() == old(self).tasks@.len(),
            final(self).current == old(self).current,
            forall|i: int|
                0 <= i < old(self).tasks@.len() && i != old(self).current ==> final(self).tasks@[i] == old(self).tasks@[i],
            final(self).cur() == (TaskControlBlock { task_status: TaskStatus::Ready, ..old(self).cur() }),
            final(self).clock_us == old(self).clock_us,
            final(self).kernel_space == old(self).kernel_space,
            final(self).alloc == old(self).alloc,
            final(self).last_exit_code == old(self).last_exit_code,
    {
        proof {
            assert(old(self).task_ok(old(self).current as int));
        }
        let c = self.current;
        let mut task = self.tasks.remove(c);
        task.task_status = TaskStatus::Ready;
        self.tasks.insert(c, task);
        proof {
            lemma_seq_remove_insert(old(self).tasks@, c as int, final(self).tasks@[c as int]);
            assert forall|i: int| 0 <= i < final(self).tasks@.len() implies #[trigger] final(self).task_ok(i) by {
                if i != c {
                    assert(old(self).task_ok(i));
                }
            }
        }
    }

    /// The running process terminated with `exit_code`: its record becomes
    /// `Exited` and is never scheduled again; the code is kept for diagnosis.
    pub fn exit_current(&mut self, exit_code: i32)
        requires
            old(self).wf(),
            old(self).current_running(),
        ensures
            final(self).wf(),
            final(self).no_running(),
            final(self).tasks@.len() == old(self).tasks@.len(),
            final(self).current == old(self).current,
            forall|i: int|
                0 <= i < old(self).tasks@.len() && i != old(self).current ==> final(self).tasks@[i] == old(self).tasks@[i],
            final(self).cur() == (TaskControlBlock {
                task_status: TaskStatus::Exited,
                ..old(self).cur()
            }),
            final(self).last_exit_code == Some(exit_code),
            final(self).clock_us == old(self).clock_us,
            final(self).kernel_space == old(self).kernel_space,
            final(self).alloc == old(self).alloc,
    {
        proof {
            assert(old(self).task_ok(old(self).current as int));
        }
        let c = self.current;
        let mut task = self.tasks.remove(c);
        task.task_status = TaskStatus::Exited;
        self.tasks.insert(c, task);
        self.last_exit_code = Some(exit_code);
        proof {
            lemma_seq_remove_insert(old(self).tasks@, c as int, final(self).tasks@[c as int]);
            assert forall|i: int| 0 <= i < final(self).tasks@.len() implies #[trigger] final(self).task_ok(i) by {
                if i != c {
                    assert(old(self).task_ok(i));
                }
            }
        }
    }

    /// The address-space token of the running process.
    pub fn current_user_token(&self) -> (r: usize)
        requires
            self.current_running(),
        ensures
            r == self.cur().memory_set.satp,
    {
        let task = &self.tasks[self.current];
        task.get_user_token()
    }

    /// The diagnostic record of the running process: status, usage counters,
    /// and microseconds since it was first scheduled.
    pub fn current_task_info(&self) -> (info: TaskInfo)
        requires
            self.wf(),
            self.current_running(),
        ensures
            info.status == self.cur().task_status,
            info.status is Running,
            info.syscall_times@ == self.cur().syscall_times@,
            info.time == self.clock_us - self.cur().start_time,
    {
        proof {
            assert(self.task_ok(self.current as int));
        }
        let task = &self.tasks[self.current];
        TaskInfo {
            status: task.task_status,
            syscall_times: crate::task::clone_counters(&task.syscall_times),
            time: task.running_time(self.clock_us),
        }
    }

    /// Applies a mapping request to the running process's address space; the
    /// syscall layer has already validated the request and the frame supply.
    pub fn current_mmap(&mut self, start: usize, len: usize, port: usize) -> (r: isize)
        requires
            old(self).wf(),
            old(self).current_running(),
            start + len <= usize::MAX - PAGE_SIZE + 1,
            (start + len + PAGE_SIZE - 1) as int / PAGE_SIZE as int - start as int / PAGE_SIZE
                as int <= old(self).alloc.free,
        ensures
            final(self).wf(),
            final(self).current_running(),
            r == 0 || r == -1,
            (r == -1) <==> old(self).cur().memory_set.range_overlaps(
                start as int / PAGE_SIZE as int,
                (start + len + PAGE_SIZE - 1) as int / PAGE_SIZE as int,
            ),
            r == -1 ==> final(self).tasks@ == old(self).tasks@ && final(self).alloc == old(self).alloc,
            r == 0 ==> mmap_applied(
                old(self).cur(),
                final(self).cur(),
                start as int,
                len as int,
                port,
            ),
            r == 0 ==> ({
                let pages = (start + len + PAGE_SIZE - 1) as int / PAGE_SIZE as int - start as int
                    / PAGE_SIZE as int;
                &&& final(self).alloc.next_ppn == old(self).alloc.next_ppn + pages
                &&& final(self).alloc.free == old(self).alloc.free - pages
            }),
            final(self).tasks@.len() == old(self).tasks@.len(),
            final(self).current == old(self).current,
            forall|i: int|
                0 <= i < old(self).tasks@.len() && i != old(self).current ==> final(self).tasks@[i] == old(self).tasks@[i],
            final(self).clock_us == old(self).clock_us,
            final(self).kernel_space == old(self).kernel_space,
            final(self).last_exit_code == old(self).last_exit_code,
    {
        proof {
            assert(old(self).task_ok(old(self).current as int));
        }
        let c = self.current;
        let mut task = self.tasks.remove(c);
        let r = task.mmap(start, len, port, &mut self.alloc);
        self.tasks.insert(c, task);
        proof {
            lemma_seq_remove_insert(old(self).tasks@, c as int, final(self).tasks@[c as int]);
            if r == -1 {
                assert(final(self).tasks@ =~= old(self).tasks@);
            }
            assert forall|i: int| 0 <= i < final(self).tasks@.len() implies #[trigger] final(self).task_ok(i) by {
                if i != c {
                    assert(old(self).task_ok(i));
                }
            }
        }
        r
    }

    /// Applies an unmapping request to the running process's address space.
    pub fn current_munmap(&mut self, start: usize, len: usize) -> (r: isize)
        requires
            old(self).wf(),
            old(self).current_running(),
            start + len <= usize::MAX - PAGE_SIZE + 1,
        ensures
            final(self).wf(),
            final(self).current_running(),
            r == 0 || r == -1,
            (r == 0) <==> old(self).cur().memory_set.has_exact_area(
                start as int / PAGE_SIZE as int,
                (start + len + PAGE_SIZE - 1) as int / PAGE_SIZE as int,
            ),
            r == -1 ==> final(self).tasks@ == old(self).tasks@,
            r == 0 ==> munmap_applied(old(self).cur(), final(self).cur(), start as int, len as int),
            final(self).tasks@.len() == old(self).tasks@.len(),
            final(self).current == old(self).current,
            forall|i: int|
                0 <= i < old(self).tasks@.len() && i != old(self).current ==> final(self).tasks@[i] == old(self).tasks@[i],
            final(self).clock_us == old(self).clock_us,
            final(self).kernel_space == old(self).kernel_space,
            final(self).alloc == old(self).alloc,
            final(self).last_exit_code == old(self).last_exit_code,
    {
        proof {
            assert(old(self).task_ok(old(self).current as int));
        }
        let c = self.current;
        let mut task = self.tasks.remove(c);
        let r = task.munmap(start, len);
        self.tasks.insert(c, task);
        proof {
            lemma_seq_remove_insert(old(self).tasks@, c as int, final(self).tasks@[c as int]);
            if r == -1 {
                assert(final(self).tasks@ =~= old(self).tasks@);
            }
            assert forall|i: int| 0 <= i < final(self).tasks@.len() implies #[trigger] final(self).task_ok(i) by {
                if i != c {
                    assert(old(self).task_ok(i));
                }
            }
        }
        r
    }
}

/// Single core: at most one record is `Running` at any instant, and it is the
/// current one.
pub proof fn lemma_single_running(k: Kernel, i: int, j: int)
    requires
        k.wf(),
        0 <= i < k.tasks@.len(),
        0 <= j < k.tasks@.len(),
        k.tasks@[i].task_status is Running,
        k.tasks@[j].task_status is Running,
    ensures
        i == j,
        i == k.current,
{
}

} // verus!
