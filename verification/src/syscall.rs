//! The process-management syscalls: validation, state change and the exact
//! status code each request earns.
//!
//! Every handler takes the kernel state and speaks for the currently running
//! process, which is the only one that can trap into the kernel. Handlers
//! that answer through a user pointer return the record they write together
//! with the fault path: a pointer that does not resolve to a writable user
//! mapping is a process-killing fault, a different severity from the `-1`
//! an invalid argument earns, so the two are kept apart in the types. The
//! translation hardware performs the store at the translated address; the
//! handler decides what is stored and whether the pointer resolves.

use vstd::arithmetic::div_mod::{
    lemma_div_is_ordered, lemma_fundamental_div_mod, lemma_fundamental_div_mod_converse,
};
use vstd::prelude::*;

use crate::config::{MICROS_PER_SEC, PAGE_SIZE, PERM_R, PERM_U, PERM_W, PERM_X};
use crate::kernel::Kernel;
use crate::task::{mmap_applied, munmap_applied, port_to_perm, TaskControlBlock, TaskInfo};

verus! {

/// A point in time with microsecond resolution, split out of the monotonic
/// counter; on the wire two machine words, seconds then microseconds.
#[derive(Debug, Clone, Copy, PartialEq, Eq, Structural)]
pub struct TimeVal {
    pub sec: usize,
    pub usec: usize,
}

/// A user pointer that does not resolve to a writable user mapping in the
/// caller's address space. This is the fatal fault path — the trap layer
/// kills the offending process — and is distinct from the `-1` return code
/// of a recoverable argument error.
#[derive(Debug, Clone, Copy, PartialEq, Eq, Structural)]
pub struct TranslationFault;

/// A mapping request names only the three permission bits and at least one of
/// them: values outside `1 ..= 7` are rejected.
pub open spec fn port_valid(port: usize) -> bool {
    1 <= port <= 7
}

/// Why a mapping request fails: a misaligned start, a meaningless permission
/// word, more pages than there are free frames, or a page already mapped in
/// the caller's address space.
pub open spec fn mmap_rejected(k: Kernel, start: usize, len: usize, port: usize) -> bool {
    let svpn = start as int / PAGE_SIZE as int;
    let evpn = (start + len + PAGE_SIZE - 1) as int / PAGE_SIZE as int;
    ||| start as int % PAGE_SIZE as int != 0
    ||| !port_valid(port)
    ||| evpn - svpn > k.alloc.free
    ||| k.cur().memory_set.range_overlaps(svpn, evpn)
}

/// The running process terminated: records the exit code, retires the record
/// for good, and hands the core to the scheduler. Control never returns to
/// the caller; the abandoned execution context is dropped with its record's
/// status.
pub fn sys_exit(k: &mut Kernel, exit_code: i32)
    requires
        old(k).wf(),
        old(k).current_running(),
    ensures
        final(k).wf(),
        final(k).no_running(),
        final(k).cur() == (TaskControlBlock {
            task_status: crate::task::TaskStatus::Exited,
            ..old(k).cur()
        }),
        final(k).last_exit_code == Some(exit_code),
        final(k).tasks@.len() == old(k).tasks@.len(),
        final(k).current == old(k).current,
        forall|i: int|
            0 <= i < old(k).tasks@.len() && i != old(k).current ==> final(k).tasks@[i] == old(
                k,
            ).tasks@[i],
        final(k).clock_us == old(k).clock_us,
        final(k).alloc == old(k).alloc,
        final(k).kernel_space == old(k).kernel_space,
{
    k.exit_current(exit_code);
}

/// The running process gives up the core for the other ready processes; it
/// reports success once rescheduled.
pub fn sys_yield(k: &mut Kernel) -> (r: isize)
    requires
        old(k).wf(),
        old(k).current_running(),
    ensures
        r == 0,
        final(k).wf(),
        final(k).no_running(),
        final(k).cur() == (TaskControlBlock {
            task_status: crate::task::TaskStatus::Ready,
            ..old(k).cur()
        }),
        final(k).tasks@.len() == old(k).tasks@.len(),
        final(k).current == old(k).current,
        forall|i: int|
            0 <= i < old(k).tasks@.len() && i != old(k).current ==> final(k).tasks@[i] == old(
                k,
            ).tasks@[i],
        final(k).clock_us == old(k).clock_us,
        final(k).alloc == old(k).alloc,
        final(k).kernel_space == old(k).kernel_space,
        final(k).last_exit_code == old(k).last_exit_code,
{
    k.suspend_current();
    0
}

/// Reads the monotonic clock, splits it into seconds and microseconds, and
/// writes the pair through the caller's pointer `ts`. Succeeds (code 0) on
/// every resolvable pointer; an unresolvable one is the fault path.
pub fn sys_get_time(k: &Kernel, ts: usize, _tz: usize) -> (r: Result<TimeVal, TranslationFault>)
    requires
        k.wf(),
        k.current_running(),
    ensures
        (r is Ok) <==> k.cur().memory_set.spec_accessible(ts as int, PERM_W),
        r is Ok ==> r.unwrap().sec == k.clock_us as int / MICROS_PER_SEC as int,
        r is Ok ==> r.unwrap().usec == k.clock_us as int % MICROS_PER_SEC as int,
{
    proof {
        assert(k.task_ok(k.current as int));
    }
    let task = &k.tasks[k.current];
    if task.memory_set.accessible(ts, PERM_W) {
        let us = k.clock_us;
        Ok(TimeVal { sec: us / MICROS_PER_SEC, usec: us % MICROS_PER_SEC })
    } else {
        Err(TranslationFault)
    }
}

/// Scheduling-priority control is not supported by this core: every request
/// fails, whatever the argument.
pub fn sys_set_priority(_prio: isize) -> (r: isize)
    ensures
        r == -1,
{
    -1
}

/// Maps the widened page range of `[start, start + len)` into the caller's
/// address space with the permissions `port` encodes. Validation comes before
/// any mutation: a misaligned `start`, a permission word outside `1 ..= 7`,
/// too few free frames, or an overlap with an existing mapping earns `-1`
/// with the whole kernel state unchanged; otherwise the range is mapped and
/// the call reports 0.
pub fn sys_mmap(k: &mut Kernel, start: usize, len: usize, port: usize) -> (r: isize)
    requires
        old(k).wf(),
        old(k).current_running(),
        start + len <= usize::MAX - PAGE_SIZE + 1,
    ensures
        final(k).wf(),
        final(k).current_running(),
        r == 0 || r == -1,
        (r == -1) <==> mmap_rejected(*old(k), start, len, port),
        r == -1 ==> final(k).tasks@ == old(k).tasks@ && final(k).alloc == old(k).alloc,
        r == 0 ==> mmap_applied(old(k).cur(), final(k).cur(), start as int, len as int, port),
        r == 0 ==> final(k).alloc.free == old(k).alloc.free - ((start + len + PAGE_SIZE - 1) as int
            / PAGE_SIZE as int - start as int / PAGE_SIZE as int),
        final(k).tasks@.len() == old(k).tasks@.len(),
        final(k).current == old(k).current,
        forall|i: int|
            0 <= i < old(k).tasks@.len() && i != old(k).current ==> final(k).tasks@[i] == old(
                k,
            ).tasks@[i],
        final(k).clock_us == old(k).clock_us,
        final(k).kernel_space == old(k).kernel_space,
        final(k).last_exit_code == old(k).last_exit_code,
{
    if start % PAGE_SIZE != 0 {
        return -1;
    }
    if (port & !0x7) != 0 || (port & 0x7) == 0 {
        proof {
            assert(((port & !0x7usize) != 0 || (port & 0x7usize) == 0) <==> !(1 <= port <= 7))
                by (bit_vector);
        }
        return -1;
    }
    proof {
        assert(((port & !0x7usize) == 0 && (port & 0x7usize) != 0) <==> (1 <= port <= 7))
            by (bit_vector);
        lemma_div_is_ordered(start as int, (start + len + PAGE_SIZE - 1) as int, PAGE_SIZE as int);
    }
    let start_vpn = start / PAGE_SIZE;
    let end_vpn = (start + len + (PAGE_SIZE - 1)) / PAGE_SIZE;
    let num_required_frames = end_vpn - start_vpn;
    if num_required_frames > k.alloc.free_frame_count() {
        return -1;
    }
    k.current_mmap(start, len, port)
}

/// Unmaps the widened page range of `[start, start + len)` from the caller's
/// address space. The request succeeds (0) exactly when that range coincides
/// with one previously mapped region, which is removed whole; any other
/// request — a partial range, a range spanning several regions, or pages
/// never mapped — fails with `-1` and changes nothing.
pub fn sys_munmap(k: &mut Kernel, start: usize, len: usize) -> (r: isize)
    requires
        old(k).wf(),
        old(k).current_running(),
        start + len <= usize::MAX - PAGE_SIZE + 1,
    ensures
        final(k).wf(),
        final(k).current_running(),
        r == 0 || r == -1,
        (r == 0) <==> old(k).cur().memory_set.has_exact_area(
            start as int / PAGE_SIZE as int,
            (start + len + PAGE_SIZE - 1) as int / PAGE_SIZE as int,
        ),
        r == -1 ==> final(k).tasks@ == old(k).tasks@,
        r == 0 ==> munmap_applied(old(k).cur(), final(k).cur(), start as int, len as int),
        final(k).tasks@.len() == old(k).tasks@.len(),
        final(k).current == old(k).current,
        forall|i: int|
            0 <= i < old(k).tasks@.len() && i != old(k).current ==> final(k).tasks@[i] == old(
                k,
            ).tasks@[i],
        final(k).clock_us == old(k).clock_us,
        final(k).alloc == old(k).alloc,
        final(k).kernel_space == old(k).kernel_space,
        final(k).last_exit_code == old(k).last_exit_code,
{
    k.current_munmap(start, len)
}

/// Assembles the diagnostic record of the running process — status, usage
/// counters, microseconds since first scheduled — and writes it through the
/// caller's pointer `ti`. Succeeds (code 0) on every resolvable pointer; an
/// unresolvable one is the fault path.
pub fn sys_task_info(k: &Kernel, ti: usize) -> (r: Result<TaskInfo, TranslationFault>)
    requires
        k.wf(),
        k.current_running(),
    ensures
        (r is Ok) <==> k.cur().memory_set.spec_accessible(ti as int, PERM_W),
        r is Ok ==> r.unwrap().status == k.cur().task_status && r.unwrap().status
            is Running,
        r is Ok ==> r.unwrap().syscall_times@ == k.cur().syscall_times@,
        r is Ok ==> r.unwrap().time == k.clock_us - k.cur().start_time,
{
    proof {
        assert(k.task_ok(k.current as int));
    }
    let task = &k.tasks[k.current];
    if task.memory_set.accessible(ti, PERM_W) {
        Ok(k.current_task_info())
    } else {
        Err(TranslationFault)
    }
}

/// Two readings of the monotonic clock, each split into seconds and
/// microseconds, never decrease in lexicographic order: the later reading
/// has more seconds, or the same seconds and at least as many microseconds.
pub proof fn lemma_time_monotonic(t1: int, t2: int)
    requires
        0 <= t1 <= t2,
    ensures
        t1 / MICROS_PER_SEC as int <= t2 / MICROS_PER_SEC as int,
        t1 / MICROS_PER_SEC as int == t2 / MICROS_PER_SEC as int ==> t1 % MICROS_PER_SEC as int
            <= t2 % MICROS_PER_SEC as int,
{
    lemma_div_is_ordered(t1, t2, MICROS_PER_SEC as int);
    lemma_fundamental_div_mod(t1, MICROS_PER_SEC as int);
    lemma_fundamental_div_mod(t2, MICROS_PER_SEC as int);
}

/// The permission word of a valid mapping request grants exactly the bits it
/// names: user access always, and read, write, execute for its bits 0, 1, 2.
pub proof fn lemma_port_perm_bits(port: usize)
    ensures
        port_to_perm(port) & PERM_U != 0,
        (port_to_perm(port) & PERM_R != 0) <==> (port & 1 != 0),
        (port_to_perm(port) & PERM_W != 0) <==> (port & 2 != 0),
        (port_to_perm(port) & PERM_X != 0) <==> (port & 4 != 0),
{
    assert(((((port & 0x7) << 1usize) as u8) | 16u8) & 16u8 != 0) by (bit_vector);
    assert((((((port & 0x7) << 1usize) as u8) | 16u8) & 2u8 != 0) <==> (port & 1 != 0))
        by (bit_vector);
    assert((((((port & 0x7) << 1usize) as u8) | 16u8) & 4u8 != 0) <==> (port & 2 != 0))
        by (bit_vector);
    assert((((((port & 0x7) << 1usize) as u8) | 16u8) & 8u8 != 0) <==> (port & 4 != 0))
        by (bit_vector);
}

/// A byte address inside a request range lies on a page of the widened page
/// range of that request.
proof fn lemma_va_page_in_range(start: int, len: int, va: int)
    requires
        0 <= start,
        0 <= len,
        start + len <= usize::MAX,
        start <= va < start + len,
    ensures
        start / (PAGE_SIZE as int) <= va / (PAGE_SIZE as int),
        va / (PAGE_SIZE as int) < (start + len + PAGE_SIZE - 1) / (PAGE_SIZE as int),
{
    let p = PAGE_SIZE as int;
    let evpn = (start + len + p - 1) / p;
    lemma_div_is_ordered(start, va, p);
    lemma_fundamental_div_mod(start + len + p - 1, p);
    assert(start + len <= evpn * p);
    lemma_div_is_ordered(va, evpn * p - 1, p);
    lemma_fundamental_div_mod_converse(evpn * p - 1, p, evpn - 1, p - 1);
}

/// After a successful mapping call, every byte of the requested range is
/// user-accessible with exactly the permissions the request granted: readable
/// when bit 0 was set, writable for bit 1, executable for bit 2.
pub proof fn lemma_mmap_grants_access(
    pre: TaskControlBlock,
    post: TaskControlBlock,
    start: usize,
    len: usize,
    port: usize,
    va: int,
)
    requires
        mmap_applied(pre, post, start as int, len as int, port),
        start + len <= usize::MAX - PAGE_SIZE + 1,
        start <= va < start + len,
    ensures
        (port & 1) != 0 ==> post.memory_set.spec_accessible(va, PERM_R),
        (port & 2) != 0 ==> post.memory_set.spec_accessible(va, PERM_W),
        (port & 4) != 0 ==> post.memory_set.spec_accessible(va, PERM_X),
{
    lemma_va_page_in_range(start as int, len as int, va);
    lemma_port_perm_bits(port);
    assert(post.memory_set.perm_at(va / PAGE_SIZE as int) == port_to_perm(port));
    let pm: u8 = port_to_perm(port);
    assert((pm & 2u8) == 2u8 <==> (pm & 2u8) != 0u8) by (bit_vector);
    assert((pm & 4u8) == 4u8 <==> (pm & 4u8) != 0u8) by (bit_vector);
    assert((pm & 8u8) == 8u8 <==> (pm & 8u8) != 0u8) by (bit_vector);
}

/// After a successful unmapping call, no byte of the removed range is
/// accessible any more, with any permission.
pub proof fn lemma_munmap_revokes_access(
    pre: TaskControlBlock,
    post: TaskControlBlock,
    start: usize,
    len: usize,
    va: int,
)
    requires
        munmap_applied(pre, post, start as int, len as int),
        start + len <= usize::MAX - PAGE_SIZE + 1,
        start <= va < start + len,
    ensures
        !post.memory_set.is_mapped(va / PAGE_SIZE as int),
        !post.memory_set.spec_accessible(va, PERM_R),
        !post.memory_set.spec_accessible(va, PERM_W),
        !post.memory_set.spec_accessible(va, PERM_X),
{
    lemma_va_page_in_range(start as int, len as int, va);
}

} // verus!
